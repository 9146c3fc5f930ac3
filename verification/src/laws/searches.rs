//! Laws of the search for the configuration file.
use vstd::prelude::*;
use vstd::string::*;
use vstd::utf8::*;

use crate::error::ErrorView;
use crate::error::IoErrorView;
use crate::laws::paths;
use crate::path;
use crate::path::ComponentView;
use crate::request::ReplyView;
use crate::request::RequestView;
use crate::request::World;
use crate::search;
use crate::search::SearchStateView;
use crate::search::SearchStepView;
use crate::text;

verus! {

/// A search after some replies of a system that stands still.
pub open spec fn search_after(
    start: Seq<u8>,
    world: World,
    step: SearchStepView,
    count: nat,
) -> SearchStepView
    decreases count,
{
    match step {
        SearchStepView::Done(_) => step,
        SearchStepView::Ask { request, state } => if count == 0 {
            step
        } else {
            search_after(
                start,
                world,
                search::search_next(start, state, world(request)),
                (count - 1) as nat,
            )
        },
    }
}

/// Whether a directory holds a configuration file.
pub open spec fn holds_config(directory: Seq<u8>, world: World) -> bool {
    world(RequestView::IsFile(search::config_in(directory)))->Flag_0
}

/// The directory some steps above another.
pub open spec fn ancestor(directory: Seq<u8>, steps: nat) -> Option<Seq<u8>>
    decreases steps,
{
    if steps == 0 {
        Some(directory)
    } else {
        match path::parent(directory) {
            Some(parent) => ancestor(parent, (steps - 1) as nat),
            None => None,
        }
    }
}

/// Whether a directory is the nearest at or above another that holds a configuration file.
pub open spec fn is_nearest(directory: Seq<u8>, steps: nat, found: Seq<u8>, world: World) -> bool {
    &&& ancestor(directory, steps) == Some(found)
    &&& holds_config(found, world)
    &&& forall|nearer: nat|
        nearer < steps ==> !holds_config((#[trigger] ancestor(directory, nearer))->0, world)
}

/// Whether no directory at or above another holds a configuration file.
pub open spec fn none_above(directory: Seq<u8>, world: World) -> bool {
    forall|steps: nat|
        (#[trigger] ancestor(directory, steps)) is Some ==> !holds_config(
            ancestor(directory, steps)->0,
            world,
        )
}

/// Whether a search ended as it should: with the file of the nearest directory that has one, or
/// with the complaint that there is none.
pub open spec fn search_ended(
    start: Seq<u8>,
    directory: Seq<u8>,
    world: World,
    step: SearchStepView,
) -> bool {
    match step {
        SearchStepView::Done(Ok(file)) => exists|steps: nat|
            is_nearest(directory, steps, (#[trigger] ancestor(directory, steps))->0, world) && file
                == search::config_in(ancestor(directory, steps)->0),
        SearchStepView::Done(Err(error)) => none_above(directory, world) && error
            == search::not_found(start),
        _ => false,
    }
}

proof fn lemma_search_from(start: Seq<u8>, directory: Seq<u8>, world: World)
    ensures
        exists|count: nat|
            search_ended(
                start,
                directory,
                world,
                #[trigger] search_after(
                    start,
                    world,
                    search::search_ask(start, SearchStateView::Probe { directory }),
                    count,
                ),
            ),
    decreases directory.len(),
{
    let step = search::search_ask(start, SearchStateView::Probe { directory });
    if holds_config(directory, world) {
        let end = search_after(start, world, step, 1);
        reveal_with_fuel(search_after, 2);
        assert(end == SearchStepView::Done(Ok(search::config_in(directory))));
        assert(ancestor(directory, 0) == Some(directory));
        assert(is_nearest(directory, 0, ancestor(directory, 0)->0, world));
        assert(search_ended(start, directory, world, end));
    } else {
        match path::parent(directory) {
            None => {
                let end = search_after(start, world, step, 1);
                reveal_with_fuel(search_after, 2);
                assert forall|steps: nat|
                    (#[trigger] ancestor(directory, steps)) is Some implies !holds_config(
                    ancestor(directory, steps)->0,
                    world,
                ) by {
                    assert(steps == 0);
                }
                assert(search_ended(start, directory, world, end));
            },
            Some(parent) => {
                paths::law_parent(directory);
                lemma_search_from(start, parent, world);
                let next = search::search_ask(start, SearchStateView::Probe { directory: parent });
                let count = choose|count: nat|
                    search_ended(
                        start,
                        parent,
                        world,
                        #[trigger] search_after(start, world, next, count),
                    );
                let end = search_after(start, world, next, count);
                assert(search_after(start, world, step, count + 1) == end);
                match end {
                    SearchStepView::Done(Ok(file)) => {
                        let steps = choose|steps: nat|
                            is_nearest(
                                parent,
                                steps,
                                (#[trigger] ancestor(parent, steps))->0,
                                world,
                            ) && file == search::config_in(ancestor(parent, steps)->0);
                        assert(ancestor(directory, steps + 1) == ancestor(parent, steps));
                        assert forall|nearer: nat| nearer < steps + 1 implies !holds_config(
                            (#[trigger] ancestor(directory, nearer))->0,
                            world,
                        ) by {
                            if nearer > 0 {
                                assert(ancestor(directory, nearer) == ancestor(
                                    parent,
                                    (nearer - 1) as nat,
                                ));
                            }
                        }
                        assert(is_nearest(
                            directory,
                            steps + 1,
                            ancestor(directory, steps + 1)->0,
                            world,
                        ));
                    },
                    _ => {
                        assert forall|steps: nat|
                            (#[trigger] ancestor(directory, steps)) is Some implies !holds_config(
                            ancestor(directory, steps)->0,
                            world,
                        ) by {
                            if steps > 0 {
                                assert(ancestor(directory, steps) == ancestor(
                                    parent,
                                    (steps - 1) as nat,
                                ));
                            }
                        }
                    },
                }
                assert(search_ended(
                    start,
                    directory,
                    world,
                    search_after(start, world, step, count + 1),
                ));
            },
        }
    }
}

/// A search ends. It finds the configuration file of the nearest directory, from the start
/// upwards, that holds one; where none does, or the start leads nowhere, it says so.
pub proof fn law_search_finds_nearest(start: Seq<u8>, world: World)
    ensures
        ({
            let begin = search::search_ask(start, SearchStateView::Start);
            match world(RequestView::Canonicalize(start))->Path_0 {
                Ok(directory) => exists|count: nat|
                    search_ended(
                        start,
                        directory,
                        world,
                        #[trigger] search_after(start, world, begin, count),
                    ),
                Err(error) => search_after(start, world, begin, 1) == SearchStepView::Done(
                    Err(
                        ErrorView::Invalid(
                            "invalid configuration search path "@ + path::path_text(start) + ": "@
                                + error.message,
                        ),
                    ),
                ),
            }
        }),
{
    let begin = search::search_ask(start, SearchStateView::Start);
    reveal_with_fuel(search_after, 2);
    if let Ok(directory) = world(RequestView::Canonicalize(start))->Path_0 {
        lemma_search_from(start, directory, world);
        let next = search::search_ask(start, SearchStateView::Probe { directory });
        let count = choose|count: nat|
            search_ended(
                start,
                directory,
                world,
                #[trigger] search_after(start, world, next, count),
            );
        assert(search_after(start, world, begin, count + 1) == search_after(
            start,
            world,
            next,
            count,
        ));
    }
}

/// Whether a search from a directory ends with a file, in a system that stands still.
pub open spec fn finds(start: Seq<u8>, world: World, file: Seq<u8>) -> bool {
    exists|count: nat|
        #[trigger] search_after(
            start,
            world,
            search::search_ask(start, SearchStateView::Start),
            count,
        ) == SearchStepView::Done(Ok(file))
}

/// A search has one end.
proof fn lemma_one_end(
    start: Seq<u8>,
    world: World,
    step: SearchStepView,
    first: nat,
    second: nat,
)
    requires
        search_after(start, world, step, first) is Done,
        search_after(start, world, step, second) is Done,
    ensures
        search_after(start, world, step, first) == search_after(start, world, step, second),
    decreases first,
{
    if let SearchStepView::Ask { request, state } = step {
        lemma_one_end(
            start,
            world,
            search::search_next(start, state, world(request)),
            (first - 1) as nat,
            (second - 1) as nat,
        );
    }
}

proof fn lemma_probe_finds_nearest(
    start: Seq<u8>,
    directory: Seq<u8>,
    steps: nat,
    found: Seq<u8>,
    world: World,
)
    requires
        is_nearest(directory, steps, found, world),
    ensures
        exists|count: nat|
            #[trigger] search_after(
                start,
                world,
                search::search_ask(start, SearchStateView::Probe { directory }),
                count,
            ) == SearchStepView::Done(Ok(search::config_in(found))),
    decreases steps,
{
    let step = search::search_ask(start, SearchStateView::Probe { directory });
    let end = SearchStepView::Done(Ok(search::config_in(found)));
    assert(ancestor(directory, 0) == Some(directory));
    if steps == 0 {
        reveal_with_fuel(search_after, 2);
        assert(search_after(start, world, step, 1) == end);
    } else {
        let parent = path::parent(directory)->0;
        let fewer = (steps - 1) as nat;
        assert(ancestor(parent, fewer) == Some(found));
        assert forall|nearer: nat| nearer < fewer implies !holds_config(
            (#[trigger] ancestor(parent, nearer))->0,
            world,
        ) by {
            assert(ancestor(directory, nearer + 1) == ancestor(parent, nearer));
        }
        lemma_probe_finds_nearest(start, parent, fewer, found, world);
        let next = search::search_ask(start, SearchStateView::Probe { directory: parent });
        let count = choose|count: nat| #[trigger] search_after(start, world, next, count) == end;
        assert(search_after(start, world, step, count + 1) == end);
    }
}

proof fn lemma_nearest_is_found(
    start: Seq<u8>,
    directory: Seq<u8>,
    steps: nat,
    found: Seq<u8>,
    world: World,
)
    requires
        world(RequestView::Canonicalize(start))->Path_0 == Ok::<_, IoErrorView>(directory),
        is_nearest(directory, steps, found, world),
    ensures
        finds(start, world, search::config_in(found)),
{
    let begin = search::search_ask(start, SearchStateView::Start);
    let next = search::search_ask(start, SearchStateView::Probe { directory });
    let end = SearchStepView::Done(Ok(search::config_in(found)));
    lemma_probe_finds_nearest(start, directory, steps, found, world);
    let count = choose|count: nat| #[trigger] search_after(start, world, next, count) == end;
    assert(search_after(start, world, begin, count + 1) == end);
}

/// What is found is the file of the nearest directory that has one.
proof fn lemma_found_is_nearest(
    start: Seq<u8>,
    directory: Seq<u8>,
    world: World,
    file: Seq<u8>,
) -> (steps: nat)
    requires
        world(RequestView::Canonicalize(start))->Path_0 == Ok::<_, IoErrorView>(directory),
        finds(start, world, file),
    ensures
        ancestor(directory, steps) matches Some(found) && is_nearest(
            directory,
            steps,
            found,
            world,
        ) && file == search::config_in(found),
{
    let begin = search::search_ask(start, SearchStateView::Start);
    law_search_finds_nearest(start, world);
    let first = choose|count: nat|
        search_ended(
            start,
            directory,
            world,
            #[trigger] search_after(start, world, begin, count),
        );
    let second = choose|count: nat|
        #[trigger] search_after(start, world, begin, count) == SearchStepView::Done(Ok(file));
    lemma_one_end(start, world, begin, first, second);
    choose|steps: nat|
        is_nearest(directory, steps, (#[trigger] ancestor(directory, steps))->0, world) && file
            == search::config_in(ancestor(directory, steps)->0)
}

proof fn lemma_ancestor_sum(directory: Seq<u8>, first: nat, second: nat)
    requires
        ancestor(directory, first) is Some,
    ensures
        ancestor(directory, first + second) == ancestor(ancestor(directory, first)->0, second),
    decreases first,
{
    if first > 0 {
        lemma_ancestor_sum(path::parent(directory)->0, (first - 1) as nat, second);
    }
}

proof fn lemma_ancestor_shrinks(directory: Seq<u8>, steps: nat)
    requires
        steps > 0,
        ancestor(directory, steps) is Some,
    ensures
        ancestor(directory, steps)->0.len() < directory.len(),
        path::components(ancestor(directory, steps)->0).len() < path::components(directory).len(),
    decreases steps,
{
    paths::law_parent(directory);
    if steps > 1 {
        lemma_ancestor_shrinks(path::parent(directory)->0, (steps - 1) as nat);
    } else {
        assert(ancestor(path::parent(directory)->0, 0) == path::parent(directory));
    }
}

/// No two directories on a way upwards have the same configuration file.
proof fn lemma_files_differ(directory: Seq<u8>, steps: nat)
    requires
        steps > 0,
        ancestor(directory, steps) is Some,
    ensures
        search::config_in(ancestor(directory, steps)->0) != search::config_in(directory),
{
    let above = ancestor(directory, steps)->0;
    lemma_ancestor_shrinks(directory, steps);
    lemma_file_name();
    let lower = search::config_in(directory);
    let upper = search::config_in(above);
    if lower == upper {
        assert(lower.len() >= directory.len() + 13);
        assert(directory.last() != path::SLASH ==> lower.len() == directory.len() + 14);
        assert(upper.len() <= above.len() + 14);
        assert(directory.last() == path::SLASH);
        assert(above.len() == 0 || above.last() == path::SLASH ==> upper.len() == above.len()
            + 13);
        assert(above.len() > 0 && above.last() != path::SLASH);
        assert(lower.take(directory.len() as int) =~= directory);
        assert(upper.take(above.len() as int + 1) =~= above.push(path::SLASH));
        assert(directory.len() == above.len() + 1);
        assert(directory.drop_last() =~= above);
        paths::lemma_drop_slash(directory);
    }
}

/// The name of the file is a plain one.
proof fn lemma_file_name()
    ensures
        ({
            let name = path::bytes_of("dotfiles.toml"@);
            &&& name.len() == 13
            &&& !path::is_absolute(name)
            &&& name.last() != path::SLASH && name.last() != path::DOT
            &&& forall|i: int| 0 <= i < name.len() ==> #[trigger] name[i] != path::SLASH
        }),
{
    reveal_strlit("dotfiles.toml");
    is_ascii_chars_encode_utf8("dotfiles.toml"@);
}

/// A search from any directory on the way to the file that another search finds, from where that
/// one starts up to where the file is, finds the same file. The directory has to be its own
/// canonical form.
pub proof fn law_search_on_the_way(
    start: Seq<u8>,
    world: World,
    file: Seq<u8>,
    below: nat,
    above: nat,
)
    requires
        finds(start, world, file),
        world(RequestView::Canonicalize(start))->Path_0 matches Ok(directory) && (ancestor(
            directory,
            below,
        ) matches Some(between) && world(RequestView::Canonicalize(between))->Path_0 == Ok::<
            _,
            IoErrorView,
        >(between) && (ancestor(between, above) matches Some(found) && file == search::config_in(
            found,
        ))),
    ensures
        finds(
            ancestor(world(RequestView::Canonicalize(start))->Path_0->Ok_0, below)->0,
            world,
            file,
        ),
{
    let directory = world(RequestView::Canonicalize(start))->Path_0->Ok_0;
    let between = ancestor(directory, below)->0;
    let found = ancestor(between, above)->0;
    let steps = lemma_found_is_nearest(start, directory, world, file);
    let nearest = ancestor(directory, steps)->0;
    lemma_ancestor_sum(directory, below, above);
    assert(holds_config(found, world));
    if below + above < steps {
        assert(!holds_config(ancestor(directory, below + above)->0, world));
    }
    if steps < below + above {
        let more = (below + above - steps) as nat;
        lemma_ancestor_sum(directory, steps, more);
        lemma_files_differ(nearest, more);
    }
    assert forall|nearer: nat| nearer < above implies !holds_config(
        (#[trigger] ancestor(between, nearer))->0,
        world,
    ) by {
        lemma_ancestor_sum(directory, below, nearer);
        assert(!holds_config(ancestor(directory, below + nearer)->0, world));
    }
    lemma_nearest_is_found(between, between, above, found, world);
}

proof fn lemma_up_to_slash_before_name(front: Seq<u8>, name: Seq<u8>)
    requires
        forall|i: int| 0 <= i < name.len() ==> #[trigger] name[i] != path::SLASH,
    ensures
        path::up_to_slash(front + name) == path::up_to_slash(front),
    decreases name.len(),
{
    if name.len() == 0 {
        assert(front + name =~= front);
    } else {
        assert((front + name).drop_last() =~= front + name.drop_last());
        assert((front + name).last() == name.last());
        lemma_up_to_slash_before_name(front, name.drop_last());
    }
}

/// The directory of a configuration file is the one that holds it.
proof fn lemma_parent_of_file(directory: Seq<u8>)
    requires
        path::trimmed(directory) == directory,
    ensures
        path::parent(search::config_in(directory)) == Some(directory),
{
    let name = path::bytes_of("dotfiles.toml"@);
    let file = search::config_in(directory);
    let front = if directory.len() == 0 || directory.last() == path::SLASH {
        directory
    } else {
        directory.push(path::SLASH)
    };
    lemma_file_name();
    assert(file == front + name);
    assert(file.last() == name.last());
    assert(path::trimmed(file) == file);
    assert(file.len() > 1);
    lemma_up_to_slash_before_name(front, name);
    if directory.len() > 0 && directory.last() != path::SLASH {
        assert(front.drop_last() =~= directory);
        assert(path::trimmed(front) == path::trimmed(directory));
    }
}

proof fn lemma_ancestor_is_tight(directory: Seq<u8>, steps: nat)
    requires
        path::trimmed(directory) == directory,
        ancestor(directory, steps) is Some,
    ensures
        path::trimmed(ancestor(directory, steps)->0) == ancestor(directory, steps)->0,
    decreases steps,
{
    if steps > 0 {
        paths::lemma_trimmed_is_tight(path::up_to_slash(path::trimmed(directory)));
        lemma_ancestor_is_tight(path::parent(directory)->0, (steps - 1) as nat);
    }
}

/// The directory that holds the file that a search finds is one from which the search finds it
/// again. Canonical forms end in no slash or dot, and the directory has to be its own.
pub proof fn law_search_from_the_directory_found(start: Seq<u8>, world: World, file: Seq<u8>)
    requires
        finds(start, world, file),
        world(RequestView::Canonicalize(start))->Path_0 matches Ok(directory) && path::trimmed(
            directory,
        ) == directory,
    ensures
        path::parent(file) matches Some(home) && (world(
            RequestView::Canonicalize(home),
        )->Path_0 == Ok::<_, IoErrorView>(home) ==> finds(home, world, file)),
{
    let directory = world(RequestView::Canonicalize(start))->Path_0->Ok_0;
    let steps = lemma_found_is_nearest(start, directory, world, file);
    let home = ancestor(directory, steps)->0;
    lemma_ancestor_is_tight(directory, steps);
    lemma_parent_of_file(home);
    assert(ancestor(home, 0) == Some(home));
    if world(RequestView::Canonicalize(home))->Path_0 == Ok::<_, IoErrorView>(home) {
        law_search_on_the_way(start, world, file, steps, 0);
    }
}

/// The bytes of `dotfiles.toml`.
pub open spec fn file_name() -> Seq<u8> {
    seq![0x64, 0x6f, 0x74, 0x66, 0x69, 0x6c, 0x65, 0x73, 0x2e, 0x74, 0x6f, 0x6d, 0x6c]
}

/// The configuration file of a directory is the one that is named `dotfiles.toml` in it.
pub proof fn law_configuration_file(directory: Seq<u8>)
    ensures
        search::config_in(directory) == path::joined(directory, file_name()),
        directory.len() > 0 ==> path::components(search::config_in(directory)) == path::components(
            directory,
        ).push(ComponentView::Normal(file_name())),
{
    reveal_strlit("dotfiles.toml");
    is_ascii_chars_encode_utf8("dotfiles.toml"@);
    assert(path::bytes_of("dotfiles.toml"@) =~= file_name());
    if directory.len() > 0 {
        let front = if directory.last() == path::SLASH {
            directory
        } else {
            directory.push(path::SLASH)
        };
        assert(paths::is_part(file_name()));
        paths::law_components(directory, file_name());
        paths::law_components(front, file_name());
        assert(search::config_in(directory) =~= front + file_name());
        assert(path::components(front) == path::components(directory));
        assert(path::components(front + file_name()) =~= path::components(directory).push(
            ComponentView::Normal(file_name()),
        ));
    }
}

/// What a search does with each reply: it starts from the canonical form of the directory, asks
/// for the file there, and goes up by one directory where there is none, until there is no
/// directory above.
pub proof fn law_search_steps(
    start: Seq<u8>,
    directory: Seq<u8>,
    refused: IoErrorView,
)
    ensures
        ({
            let begin = search::search_ask(start, SearchStateView::Start);
            let here = SearchStateView::Probe { directory };
            let next = search::search_next(start, here, ReplyView::Flag(false));
            &&& begin->request == RequestView::Canonicalize(start)
            &&& search::search_next(start, SearchStateView::Start, ReplyView::Path(Ok(directory)))
                == (SearchStepView::Ask {
                request: RequestView::IsFile(path::joined(directory, file_name())),
                state: here,
            })
            &&& search::search_next(start, SearchStateView::Start, ReplyView::Path(Err(refused)))
                == SearchStepView::Done(
                Err(
                    ErrorView::Invalid(
                        "invalid configuration search path "@ + text::lossy_text(start) + ": "@
                            + refused.message,
                    ),
                ),
            )
            &&& search::search_next(start, here, ReplyView::Flag(true)) == SearchStepView::Done(
                Ok(path::joined(directory, file_name())),
            )
            &&& match path::parent(directory) {
                Some(parent) => next == (SearchStepView::Ask {
                    request: RequestView::IsFile(path::joined(parent, file_name())),
                    state: SearchStateView::Probe { directory: parent },
                }),
                None => next == SearchStepView::Done(
                    Err(
                        ErrorView::Invalid(
                            "could not find dotfiles.toml from "@ + text::lossy_text(start),
                        ),
                    ),
                ),
            }
        }),
{
    law_configuration_file(directory);
    if let Some(parent) = path::parent(directory) {
        law_configuration_file(parent);
    }
}

} // verus!
