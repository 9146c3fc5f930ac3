//! Laws of what values stand for: nothing is seen as what it is not.
use vstd::prelude::*;
use vstd::std_specs::convert::FromSpec;

use crate::entry::Entry;
use crate::entry::EntryView;
use crate::error::Error;
use crate::error::ErrorView;
use crate::error::IoError;
use crate::error::IoErrorView;
use crate::install::InstallStep;
use crate::install::InstallStepView;
use crate::load::LoadStep;
use crate::load::LoadStepView;
use crate::request::Reply;
use crate::request::ReplyView;
use crate::request::Request;
use crate::request::RequestView;
use crate::search::SearchStep;
use crate::search::SearchStepView;
use crate::session::Plan;
use crate::session::PlanView;
use crate::session::SessionStep;
use crate::session::SessionStepView;
use crate::status::StatusStep;
use crate::status::StatusStepView;

verus! {

/// A request is seen as the request that it is, with its bytes and characters as they are.
pub proof fn law_requests_are_seen(request: Request)
    ensures
        match request {
            Request::Canonicalize(path) => request@ == RequestView::Canonicalize(path.bytes@),
            Request::IsFile(path) => request@ == RequestView::IsFile(path.bytes@),
            Request::Exists(path) => request@ == RequestView::Exists(path.bytes@),
            Request::Inspect(path) => request@ == RequestView::Inspect(path.bytes@),
            Request::ReadLink(path) => request@ == RequestView::ReadLink(path.bytes@),
            Request::FileSize(path) => request@ == RequestView::FileSize(path.bytes@),
            Request::ReadBytes(path) => request@ == RequestView::ReadBytes(path.bytes@),
            Request::ReadText(path) => request@ == RequestView::ReadText(path.bytes@),
            Request::HasEntries(path) => request@ == RequestView::HasEntries(path.bytes@),
            Request::CreateDirectories(path) => request@ == RequestView::CreateDirectories(
                path.bytes@,
            ),
            Request::RemoveDirectory(path) => request@ == RequestView::RemoveDirectory(path.bytes@),
            Request::RemoveFile(path) => request@ == RequestView::RemoveFile(path.bytes@),
            Request::CurrentDirectory => request@ == RequestView::CurrentDirectory,
            Request::HomeDirectory => request@ == RequestView::HomeDirectory,
            Request::ParseConfig(text) => request@ == RequestView::ParseConfig(text@),
            Request::MakeLink { source, target } => request@ == (RequestView::MakeLink {
                source: source.bytes@,
                target: target.bytes@,
            }),
            Request::CopyFile { source, target } => request@ == (RequestView::CopyFile {
                source: source.bytes@,
                target: target.bytes@,
            }),
            Request::SetMode { target, mode } => request@ == (RequestView::SetMode {
                target: target.bytes@,
                mode,
            }),
            Request::Run { program, arguments } => {
                &&& request@ is Run && request@->program == program@
                &&& request@->arguments.len() == arguments@.len()
                &&& forall|i: int|
                    0 <= i < arguments@.len() ==> #[trigger] request@->arguments[i]
                        == arguments@[i]@
            },
            Request::Print(lines) => {
                &&& request@ is Print && request@->Print_0.len() == lines@.len()
                &&& forall|i: int|
                    0 <= i < lines@.len() ==> #[trigger] request@->Print_0[i] == lines@[i]@
            },
        },
{
}

/// A refusal is seen as it is.
pub open spec fn sees_refusal(seen: IoErrorView, error: IoError) -> bool {
    seen.kind == error.kind && seen.message == error.message@
}

/// A reply is seen as the reply that it is.
pub proof fn law_replies_are_seen(reply: Reply)
    ensures
        match reply {
            Reply::Path(Ok(path)) => reply@ == ReplyView::Path(Ok(path.bytes@)),
            Reply::Path(Err(e)) => reply@ is Path && sees_refusal(reply@->Path_0->Err_0, e)
                && reply@->Path_0 is Err,
            Reply::Flag(value) => reply@ == ReplyView::Flag(value),
            Reply::Metadata(Ok(metadata)) => reply@ == ReplyView::Metadata(Ok(metadata)),
            Reply::Metadata(Err(e)) => reply@ is Metadata && reply@->Metadata_0 is Err
                && sees_refusal(reply@->Metadata_0->Err_0, e),
            Reply::Size(Ok(size)) => reply@ == ReplyView::Size(Ok(size)),
            Reply::Size(Err(e)) => reply@ is Size && reply@->Size_0 is Err && sees_refusal(
                reply@->Size_0->Err_0,
                e,
            ),
            Reply::Bytes(Ok(bytes)) => reply@ == ReplyView::Bytes(Ok(bytes@)),
            Reply::Bytes(Err(e)) => reply@ is Bytes && reply@->Bytes_0 is Err && sees_refusal(
                reply@->Bytes_0->Err_0,
                e,
            ),
            Reply::Text(Ok(text)) => reply@ == ReplyView::Text(Ok(text@)),
            Reply::Text(Err(e)) => reply@ is Text && reply@->Text_0 is Err && sees_refusal(
                reply@->Text_0->Err_0,
                e,
            ),
            Reply::Occupied(Ok(occupied)) => reply@ == ReplyView::Occupied(Ok(occupied)),
            Reply::Occupied(Err(e)) => reply@ is Occupied && reply@->Occupied_0 is Err
                && sees_refusal(reply@->Occupied_0->Err_0, e),
            Reply::Home(Some(home)) => reply@ == ReplyView::Home(Some(home.bytes@)),
            Reply::Home(None) => reply@ == ReplyView::Home(None),
            Reply::Config(Ok(config)) => reply@ == ReplyView::Config(Ok(config@)),
            Reply::Config(Err(message)) => reply@ == ReplyView::Config(Err(message@)),
            Reply::Done(result) => reply@ is Done && (result is Ok <==> reply@->Done_0 is Ok) && (
            result matches Err(e) ==> sees_refusal(reply@->Done_0->Err_0, e)),
            Reply::Exit(Ok(code)) => reply@ == ReplyView::Exit(Ok(code)),
            Reply::Exit(Err(e)) => reply@ is Exit && reply@->Exit_0 is Err && sees_refusal(
                reply@->Exit_0->Err_0,
                e,
            ),
            Reply::Printed => reply@ == ReplyView::Printed,
        },
{
}

/// An entry and an error are seen as what they are, and a refusal of the system becomes an error
/// of that kind.
pub proof fn law_entries_and_errors_are_seen(entry: Entry, error: Error, refusal: IoError)
    ensures
        match entry {
            Entry::Link(link) => entry@ == (EntryView::Link {
                source: link.source.bytes@,
                target: link.target.bytes@,
            }),
            Entry::Config(file) => entry@ is Config && entry@.source() == file.source.bytes@
                && entry@.target() == file.target.bytes@ && entry@->Config_0.mode == file.mode
                && entry@->Config_0.sudo == file.sudo,
            Entry::Script(file) => entry@ is Script && entry@.source() == file.source.bytes@
                && entry@.target() == file.target.bytes@ && entry@->Script_0.mode == file.mode
                && entry@->Script_0.sudo == file.sudo,
        },
        match error {
            Error::Io(e) => error@ is Io && sees_refusal(error@->Io_0, e),
            Error::Config(message) => error@ == ErrorView::Config(message@),
            Error::Invalid(message) => error@ == ErrorView::Invalid(message@),
            Error::Conflict(target) => error@ == ErrorView::Conflict(target.bytes@),
            Error::CommandFailed { program, code } => error@ == (ErrorView::CommandFailed {
                program: program@,
                code,
            }),
        },
        Error::from_spec(refusal) == Error::Io(refusal),
{
}

/// A step that asks is seen with its request, and one that ends with its end.
pub proof fn law_steps_are_seen(
    status: StatusStep,
    install: InstallStep,
    search: SearchStep,
    load: LoadStep,
)
    ensures
        match status {
            StatusStep::Ask { request, state } => status@ is Ask && status@->request == request@
                && status@->state == state@,
            StatusStep::Done(Ok(value)) => status@ == StatusStepView::Done(Ok(value)),
            StatusStep::Done(Err(error)) => status@ == StatusStepView::Done(Err(error@)),
        },
        match install {
            InstallStep::Ask { request, state } => install@ is Ask && install@->request == request@
                && install@->state == state@,
            InstallStep::Done(Ok(operations)) => {
                &&& install@ matches InstallStepView::Done(Ok(seen)) && seen.len()
                    == operations@.len() && forall|i: int|
                    0 <= i < seen.len() ==> #[trigger] seen[i] == operations@[i]@
            },
            InstallStep::Done(Err(error)) => install@ == InstallStepView::Done(Err(error@)),
        },
        match search {
            SearchStep::Ask { request, state } => search@ is Ask && search@->request == request@
                && search@->state == state@,
            SearchStep::Done(Ok(file)) => search@ == SearchStepView::Done(Ok(file.bytes@)),
            SearchStep::Done(Err(error)) => search@ == SearchStepView::Done(Err(error@)),
        },
        match load {
            LoadStep::Ask { request, state } => load@ is Ask && load@->request == request@
                && load@->state == state@,
            LoadStep::Done(Ok(entries)) => {
                &&& load@ matches LoadStepView::Done(Ok(seen)) && seen.len() == entries@.len()
                    && forall|i: int|
                    0 <= i < seen.len() ==> #[trigger] seen[i] == entries@[i]@
            },
            LoadStep::Done(Err(error)) => load@ == LoadStepView::Done(Err(error@)),
        },
{
}

/// A plan is seen as what it asks for, and a session as what it asks or how it ends.
pub proof fn law_sessions_are_seen(plan: Plan, step: SessionStep)
    ensures
        match plan {
            Plan::Usage { code } => plan@ == (PlanView::Usage { code }),
            Plan::Refused(message) => plan@ == PlanView::Refused(message@),
            Plan::Run { command, config: Some(config) } => plan@ == (PlanView::Run {
                command,
                config: Some(config.bytes@),
            }),
            Plan::Run { command, config: None } => plan@ == (PlanView::Run {
                command,
                config: None,
            }),
        },
        match step {
            SessionStep::Ask { request, state } => step@ is Ask && step@->request == request@
                && step@->state == state@,
            SessionStep::Exit(code) => step@ == SessionStepView::Exit(code),
            SessionStep::Fail(message) => step@ == SessionStepView::Fail(message@),
        },
{
}

} // verus!
