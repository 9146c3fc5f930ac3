//! The search for the configuration file, from a directory upwards.
use vstd::prelude::*;
use vstd::string::*;

use crate::entry;
use crate::error::Error;
use crate::error::ErrorView;
use crate::path;
use crate::path::UnixPath;
use crate::request::Reply;
use crate::request::ReplyView;
use crate::request::Request;
use crate::request::RequestView;

verus! {

/// What a search waits for.
#[derive(Debug)]
pub enum SearchState {
    /// The canonical form of the directory to start from.
    Start,
    /// Whether a directory holds the file.
    Probe { directory: UnixPath },
}

#[derive(Debug)]
pub enum SearchStep {
    Ask { request: Request, state: SearchState },
    Done(Result<UnixPath, Error>),
}

pub enum SearchStateView {
    Start,
    Probe { directory: Seq<u8> },
}

pub enum SearchStepView {
    Ask { request: RequestView, state: SearchStateView },
    Done(Result<Seq<u8>, ErrorView>),
}

impl View for SearchState {
    type V = SearchStateView;

    open spec fn view(&self) -> SearchStateView {
        match self {
            SearchState::Start => SearchStateView::Start,
            SearchState::Probe { directory } => SearchStateView::Probe { directory: directory@ },
        }
    }
}

impl View for SearchStep {
    type V = SearchStepView;

    open spec fn view(&self) -> SearchStepView {
        match self {
            SearchStep::Ask { request, state } => SearchStepView::Ask {
                request: request@,
                state: state@,
            },
            SearchStep::Done(Ok(path)) => SearchStepView::Done(Ok(path@)),
            SearchStep::Done(Err(error)) => SearchStepView::Done(Err(error@)),
        }
    }
}

/// The configuration file of a directory.
pub open spec fn config_in(directory: Seq<u8>) -> Seq<u8> {
    path::joined(directory, path::bytes_of("dotfiles.toml"@))
}

/// What a state waits for.
pub open spec fn search_request(start: Seq<u8>, state: SearchStateView) -> RequestView {
    match state {
        SearchStateView::Start => RequestView::Canonicalize(start),
        SearchStateView::Probe { directory } => RequestView::IsFile(config_in(directory)),
    }
}

pub open spec fn search_ask(start: Seq<u8>, state: SearchStateView) -> SearchStepView {
    SearchStepView::Ask { request: search_request(start, state), state }
}

pub open spec fn not_found(start: Seq<u8>) -> ErrorView {
    ErrorView::Invalid("could not find dotfiles.toml from "@ + path::path_text(start))
}

/// What a reply leads to.
pub open spec fn search_next(
    start: Seq<u8>,
    state: SearchStateView,
    reply: ReplyView,
) -> SearchStepView {
    match state {
        SearchStateView::Start => match reply->Path_0 {
            Ok(directory) => search_ask(start, SearchStateView::Probe { directory }),
            Err(error) => SearchStepView::Done(
                Err(
                    ErrorView::Invalid(
                        "invalid configuration search path "@ + path::path_text(start) + ": "@
                            + error.message,
                    ),
                ),
            ),
        },
        SearchStateView::Probe { directory } => if reply->Flag_0 {
            SearchStepView::Done(Ok(config_in(directory)))
        } else {
            match path::parent(directory) {
                Some(directory) => search_ask(start, SearchStateView::Probe { directory }),
                None => SearchStepView::Done(Err(not_found(start))),
            }
        },
    }
}

fn candidate(directory: &UnixPath) -> (file: UnixPath)
    ensures
        file@ == config_in(directory@),
{
    directory.join(&UnixPath::new("dotfiles.toml"))
}

fn probe(directory: UnixPath) -> (step: SearchStep)
    ensures
        forall|start: Seq<u8>|
            step@ == #[trigger] search_ask(start, SearchStateView::Probe { directory: directory@ }),
{
    SearchStep::Ask {
        request: Request::IsFile(candidate(&directory)),
        state: SearchState::Probe { directory },
    }
}

/// Starts to look for the configuration file from a directory.
pub fn begin_search(start: &UnixPath) -> (step: SearchStep)
    ensures
        step@ == search_ask(start@, SearchStateView::Start),
        step@ matches SearchStepView::Ask { request, state } ==> request == search_request(
            start@,
            state,
        ),
{
    SearchStep::Ask { request: Request::Canonicalize(start.clone()), state: SearchState::Start }
}

/// Goes on looking, with the reply that the state waited for.
pub fn find_config_upwards(start: &UnixPath, state: SearchState, reply: Reply) -> (step: SearchStep)
    requires
        search_request(start@, state@).fits(reply@),
    ensures
        step@ == search_next(start@, state@, reply@),
        step@ matches SearchStepView::Ask { request, state } ==> request == search_request(
            start@,
            state,
        ),
{
    match state {
        SearchState::Start => match reply.path() {
            Ok(directory) => probe(directory),
            Err(error) => SearchStep::Done(
                Err(
                    Error::Invalid(
                        "invalid configuration search path ".to_string().concat(
                            start.display().as_str(),
                        ).concat(": ").concat(error.message.as_str()),
                    ),
                ),
            ),
        },
        SearchState::Probe { directory } => {
            if reply.flag() {
                return SearchStep::Done(Ok(candidate(&directory)));
            }
            match directory.parent() {
                Some(directory) => probe(directory),
                None => SearchStep::Done(
                    Err(entry::invalid_path("could not find dotfiles.toml from ", start)),
                ),
            }
        },
    }
}

} // verus!
