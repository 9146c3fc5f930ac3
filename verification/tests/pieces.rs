use magsys::path::{Component, UnixPath};
use magsys::privilege::effective_uid;
use magsys::text::{format_mode, show_mode, show_number};
use std::path::Path;

fn strings(length: usize) -> Vec<String> {
    let mut all = vec![String::new()];
    let mut last = all.clone();
    for _ in 0..length {
        let mut next = Vec::new();
        for start in &last {
            for letter in ['/', '.', 'a'] {
                next.push(format!("{start}{letter}"));
            }
        }
        all.extend(next.iter().cloned());
        last = next;
    }
    all
}

fn shown(path: &UnixPath) -> String {
    String::from_utf8(path.bytes.clone()).unwrap()
}

#[test]
fn paths_are_taken_apart_as_usual() {
    for text in strings(7) {
        let path = UnixPath::new(&text);
        let usual = Path::new(&text);
        assert_eq!(path.is_absolute(), usual.is_absolute(), "{text}");
        assert_eq!(
            path.parent().map(|parent| shown(&parent)),
            usual.parent().map(|parent| parent.to_str().unwrap().to_string()),
            "{text}"
        );
        let steps: Vec<String> = path
            .components()
            .iter()
            .map(|step| match step {
                Component::RootDir => "/".to_string(),
                Component::CurDir => ".".to_string(),
                Component::ParentDir => "..".to_string(),
                Component::Normal(name) => String::from_utf8(name.clone()).unwrap(),
            })
            .collect();
        let usual_steps: Vec<String> =
            usual.components().map(|step| step.as_os_str().to_str().unwrap().to_string()).collect();
        assert_eq!(steps, usual_steps, "{text}");
        assert_eq!(path.has_parent_dir(), usual_steps.iter().any(|step| step == ".."), "{text}");
    }
}

#[test]
fn paths_are_put_together_as_usual() {
    let all = strings(4);
    for left in &all {
        for right in &all {
            let (path, other) = (UnixPath::new(left), UnixPath::new(right));
            let (usual, usual_other) = (Path::new(left), Path::new(right));
            assert_eq!(shown(&path.join(&other)), usual.join(usual_other).to_str().unwrap());
            assert_eq!(path == other, usual == usual_other, "{left} {right}");
            assert_eq!(path.starts_with(&other), usual.starts_with(usual_other), "{left} {right}");
        }
    }
}

#[test]
fn odd_bytes_are_shown() {
    for bytes in [vec![], vec![0x61, 0xff, 0x62], vec![0xe2, 0x82], vec![0xc3, 0xa4, 0x2f]] {
        let path = UnixPath { bytes: bytes.clone() };
        assert_eq!(path.display(), String::from_utf8_lossy(&bytes));
    }
    assert_eq!(UnixPath { bytes: vec![0xff] }.display(), "\u{fffd}");
    assert_eq!(UnixPath::new("/дом/ä").display(), "/дом/ä");
}

#[test]
fn numbers_are_shown() {
    for mode in (0..0o10000).chain([u32::MAX, u32::MAX / 3]) {
        assert_eq!(show_mode(mode), format!("{mode:#o}"));
        assert_eq!(format_mode(mode), format!("{mode:04o}"));
    }
    for number in [0, 1, 9, 10, 127, 255, -1, -10, i32::MAX, i32::MIN] {
        assert_eq!(show_number(number), number.to_string());
    }
}

fn usual_uid(status: &str) -> Option<u32> {
    status
        .lines()
        .find_map(|line| line.strip_prefix("Uid:"))
        .and_then(|uids| uids.split_whitespace().nth(1))
        .and_then(|uid| uid.parse::<u32>().ok())
}

#[test]
fn users_are_read_from_the_status() {
    for status in [
        "",
        "Uid:",
        "Uid:\t1000\t1001\t1002\t1003\n",
        "Name:\tx\r\nUid:\t0\t0\r\nGid:\t1\t2\r\n",
        "Uid:1 2",
        "xUid: 1 2\nUid: 3 4\nUid: 5 6\n",
        " Uid: 1 2\n",
        "Uid: 1\n 2\n",
        "Uid: 1 +7\n",
        "Uid: 1 +\n",
        "Uid: 1 -0\n",
        "Uid: 1 4294967295",
        "Uid: 1 4294967296",
        "Uid: 1 00000000000000000004294967295",
        "Uid: 1 99999999999999999999999999999",
        "Uid: 1 2x",
        "Uid: 1 ++2",
        "Uid: 1\n",
        "\n\nUid: 8 9",
    ] {
        assert_eq!(effective_uid(status), usual_uid(status), "{status:?}");
    }
}

#[test]
fn every_kind_of_space_parts_words() {
    for code in 0..0x10ffff {
        if let Some(letter) = char::from_u32(code) {
            if code < 0x3100 || code % 257 == 0 {
                let status = format!("Uid:1{letter}2");
                assert_eq!(effective_uid(&status), usual_uid(&status), "{code:x}");
            }
        }
    }
}
