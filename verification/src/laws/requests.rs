//! Laws of requests, of what a configuration holds, and of how errors read.
use vstd::prelude::*;

use crate::entry::EntryView;
use crate::error;
use crate::error::ErrorView;
use crate::error::IoErrorView;
use crate::request::Config;
use crate::request::ConfigView;
use crate::request::ReplyView;
use crate::request::RequestView;
use crate::text;

verus! {

/// The requests that change something: those that create, remove, link, copy, set permissions or
/// run a program, and no others.
pub proof fn law_changes(request: RequestView)
    ensures
        request.changes() <==> request is CreateDirectories || request is RemoveDirectory
            || request is RemoveFile || request is MakeLink || request is CopyFile
            || request is SetMode || request is Run,
{
}

/// Every request is answered by one kind of reply.
pub proof fn law_replies(request: RequestView, reply: ReplyView)
    ensures
        request.fits(reply) <==> {
            ||| reply is Path && (request is Canonicalize || request is ReadLink
                || request is CurrentDirectory)
            ||| reply is Flag && (request is IsFile || request is Exists)
            ||| reply is Metadata && request is Inspect
            ||| reply is Size && request is FileSize
            ||| reply is Bytes && request is ReadBytes
            ||| reply is Text && request is ReadText
            ||| reply is Occupied && request is HasEntries
            ||| reply is Home && request is HomeDirectory
            ||| reply is Config && request is ParseConfig
            ||| reply is Done && (request is CreateDirectories || request is RemoveDirectory
                || request is RemoveFile || request is MakeLink || request is CopyFile
                || request is SetMode)
            ||| reply is Exit && request is Run
            ||| reply is Printed && request is Print
        },
{
}

/// The entries of a configuration are its links, then its configuration files, then its scripts,
/// each in the order in which they are written, and none more than once.
pub proof fn law_order_of_entries(config: ConfigView)
    ensures
        ({
            let all = config.entries();
            let links = config.links.len();
            let copies = links + config.configs.len();
            &&& all.len() == copies + config.scripts.len()
            &&& forall|i: int| 0 <= i < links ==> #[trigger] all[i] == config.links[i]
            &&& forall|i: int|
                links <= i < copies ==> #[trigger] all[i] == config.configs[i - links]
            &&& forall|i: int|
                copies <= i < all.len() ==> #[trigger] all[i] == config.scripts[i - copies]
        }),
{
}

/// A configuration file is copied as one, a script as a script, and a link is a link.
pub proof fn law_kinds_of_entries(config: Config, i: int)
    ensures
        config@.links.len() == config.links@.len(),
        config@.configs.len() == config.configs@.len(),
        config@.scripts.len() == config.scripts@.len(),
        0 <= i < config.links@.len() ==> config@.links[i] == (EntryView::Link {
            source: config.links@[i].source.bytes@,
            target: config.links@[i].target.bytes@,
        }),
        0 <= i < config.configs@.len() ==> config@.configs[i] == EntryView::Config(
            config.configs@[i]@,
        ),
        0 <= i < config.scripts@.len() ==> config@.scripts[i] == EntryView::Script(
            config.scripts@[i]@,
        ),
{
}

/// How each error reads.
pub proof fn law_error_texts(
    refused: IoErrorView,
    message: Seq<char>,
    target: Seq<u8>,
    program: Seq<char>,
    code: i32,
)
    ensures
        error::error_text(ErrorView::Io(refused)) == refused.message,
        error::error_text(ErrorView::Config(message)) == "invalid configuration: "@ + message,
        error::error_text(ErrorView::Invalid(message)) == message,
        error::error_text(ErrorView::Conflict(target)) == "refusing to replace conflicting path "@
            + text::lossy_text(target) + " (use --force)"@,
        error::error_text(ErrorView::CommandFailed { program, code: Some(code) }) == program
            + " failed with exit status "@ + text::decimal_text(code),
        error::error_text(ErrorView::CommandFailed { program, code: None }) == program
            + " failed with exit status "@ + "unknown"@,
{
}

} // verus!
