# magsys

A small Linux program that deploys dotfiles and system configuration files safely. Its decisions
are a library whose contracts Verus proves.

A configuration file, `dotfiles.toml`, names what is to stand where:

```toml
[[link]]
source = "niri"
target = "~/.config/niri"

[[config]]
source = "zramen/zramen.conf"
target = "/etc/conf.d/zramen"
mode = 0o644 # optional, 0644 by default
sudo = true

[[script]]
source = "openrc/internal-keyboard-guard"
target = "/etc/init.d/internal-keyboard-guard"
mode = 0o755 # optional, 0755 by default
sudo = true
```

Sources are looked for from the directory that holds the configuration file, and have to lie in
it. Without `--config PATH`, the file is looked for from the current directory upwards.

`magsys status` compares the targets with their entries, `magsys install` brings them into the
wanted state, and `magsys install --dry-run` says what that would do.

## Layout

The library touches nothing. Each of its procedures is a state machine that hands out a request
and goes on with the reply; `app/` performs the requests.

- `src/path.rs`, `src/text.rs`: paths as bytes with their components, numbers and words.
- `src/entry.rs`, `src/error.rs`: entries with the rules they keep, and what can go wrong.
- `src/request.rs`: what is asked of the system, and what it answers.
- `src/search.rs`, `src/load.rs`: from a directory to the configuration file, and from that file
  to entries.
- `src/status.rs`, `src/install.rs`: how a target compares with its entry, and what brings it into
  place.
- `src/privilege.rs`, `src/session.rs`: who runs the program, and the program from its arguments
  to its exit code.
- `src/laws/`: what holds of all this together. Some laws hold whatever the system answers (a dry
  run changes nothing, a conflict is not replaced unless forced, root changes nothing, a session
  that installs and succeeds has put every entry in place or found it there); others speak of a
  system that stands still (an installed entry is reported as in place, every procedure ends, an
  installation that succeeded is followed by the status in place).
- `app/`: the system calls, the form of the configuration file, and `main`.

Two functions of the standard library are trusted: `String::from_utf8_lossy` and
`std::str::from_utf8`, both wrapped in `src/text.rs`.
