//! Laws of loading.
use vstd::prelude::*;
use vstd::string::*;
use vstd::utf8::*;

use crate::entry;
use crate::entry::EntryView;
use crate::error::ErrorView;
use crate::error::IoErrorView;
use crate::laws::paths;
use crate::laws::statuses;
use crate::load;
use crate::load::LoadStateView;
use crate::load::LoadStepView;
use crate::load::ResolutionView;
use crate::path;
use crate::request::ReplyView;
use crate::request::RequestView;
use crate::request::World;
use crate::text;

verus! {

/// Loading after some replies, whatever they are.
pub open spec fn load_after(
    config_path: Seq<u8>,
    step: LoadStepView,
    replies: Seq<ReplyView>,
) -> LoadStepView
    decreases replies.len(),
{
    match step {
        LoadStepView::Done(_) => step,
        LoadStepView::Ask { request, state } => if replies.len() == 0 {
            step
        } else {
            load_after(
                config_path,
                load::load_next(config_path, state, replies[0]),
                replies.drop_first(),
            )
        },
    }
}

/// Whether an entry is what a written one resolves to: its source lies in the repository, its
/// target is the written one with the home directory in place, and all else is as written.
pub open spec fn resolves_to(
    written: EntryView,
    entry: EntryView,
    repository: Seq<u8>,
    home: Option<Seq<u8>>,
) -> bool {
    &&& entry == written.with_paths(entry.source(), entry.target())
    &&& entry::expanded_target(written.target(), home) == Ok::<_, ErrorView>(entry.target())
    &&& path::starts_with(entry.source(), repository)
}

pub open spec fn all_resolve_to(
    written: Seq<EntryView>,
    entries: Seq<EntryView>,
    repository: Seq<u8>,
    home: Option<Seq<u8>>,
) -> bool {
    &&& entries.len() == written.len()
    &&& forall|i: int|
        0 <= i < entries.len() ==> resolves_to(written[i], #[trigger] entries[i], repository, home)
}

/// Whether entries keep all rules that need no look at the file system: each its own, and no two
/// want the same target.
pub open spec fn keep_rules(entries: Seq<EntryView>) -> bool {
    &&& forall|i: int| 0 <= i < entries.len() ==> entry::form_fault(#[trigger] entries[i]) is None
    &&& forall|i: int, j: int|
        0 <= i < j < entries.len() ==> !load::same_target(
            #[trigger] entries[i],
            #[trigger] entries[j],
        )
}

/// What holds while the entries are resolved and checked.
spec fn sound(
    step: LoadStepView,
    written: Seq<EntryView>,
    repository: Seq<u8>,
    home: Option<Seq<u8>>,
) -> bool {
    match step {
        LoadStepView::Done(Ok(entries)) => all_resolve_to(written, entries, repository, home)
            && keep_rules(entries),
        LoadStepView::Done(Err(_)) => true,
        LoadStepView::Ask { request, state } => match state {
            LoadStateView::Source { work, current } => sound_work(
                work,
                current,
                written,
                repository,
                home,
            ),
            LoadStateView::Regular { work, current, source } => sound_work(
                work,
                current,
                written,
                repository,
                home,
            ) && path::starts_with(source, repository),
            LoadStateView::Check { checked, current, rest } => {
                &&& all_resolve_to(written, checked.push(current) + rest, repository, home)
                &&& keep_rules(checked)
            },
            _ => false,
        },
    }
}

spec fn sound_work(
    work: ResolutionView,
    current: EntryView,
    written: Seq<EntryView>,
    repository: Seq<u8>,
    home: Option<Seq<u8>>,
) -> bool {
    let done = work.entries.len() as int;
    &&& work.repository == repository
    &&& work.home == home
    &&& done < written.len()
    &&& current == written[done]
    &&& work.rest == written.skip(done + 1)
    &&& all_resolve_to(written.take(done), work.entries, repository, home)
}

proof fn lemma_check_take(
    config_path: Seq<u8>,
    checked: Seq<EntryView>,
    rest: Seq<EntryView>,
    written: Seq<EntryView>,
    repository: Seq<u8>,
    home: Option<Seq<u8>>,
)
    requires
        all_resolve_to(written, checked + rest, repository, home),
        keep_rules(checked),
    ensures
        sound(load::check_take(config_path, checked, rest), written, repository, home),
{
    if rest.len() == 0 {
        assert(checked + rest =~= checked);
    } else {
        assert(checked.push(rest[0]) + rest.drop_first() =~= checked + rest);
    }
}

proof fn lemma_resolve_take(
    config_path: Seq<u8>,
    work: ResolutionView,
    written: Seq<EntryView>,
    repository: Seq<u8>,
    home: Option<Seq<u8>>,
)
    requires
        work.repository == repository,
        work.home == home,
        work.entries.len() <= written.len(),
        work.rest == written.skip(work.entries.len() as int),
        all_resolve_to(
            written.take(work.entries.len() as int),
            work.entries,
            repository,
            home,
        ),
    ensures
        sound(load::resolve_take(config_path, work), written, repository, home),
{
    let done = work.entries.len() as int;
    if work.rest.len() == 0 {
        assert(written.take(done) =~= written);
        assert(Seq::<EntryView>::empty() + work.entries =~= work.entries);
        lemma_check_take(config_path, Seq::empty(), work.entries, written, repository, home);
    } else {
        assert(work.rest.drop_first() =~= written.skip(done + 1));
        assert(work.rest[0] == written[done]);
    }
}

proof fn lemma_resolve_accept(
    config_path: Seq<u8>,
    work: ResolutionView,
    current: EntryView,
    source: Seq<u8>,
    written: Seq<EntryView>,
    repository: Seq<u8>,
    home: Option<Seq<u8>>,
)
    requires
        sound_work(work, current, written, repository, home),
        path::starts_with(source, repository),
    ensures
        sound(
            load::resolve_accept(config_path, work, current, source),
            written,
            repository,
            home,
        ),
{
    if let Ok(target) = entry::expanded_target(current.target(), work.home) {
        let done = work.entries.len() as int;
        let entry = current.with_paths(source, target);
        let next = ResolutionView { entries: work.entries.push(entry), ..work };
        assert(entry.source() == source && entry.target() == target);
        assert(resolves_to(current, entry, repository, home));
        let earlier = written.take(done);
        let taken = written.take(done + 1);
        assert forall|i: int| 0 <= i < next.entries.len() implies resolves_to(
            taken[i],
            #[trigger] next.entries[i],
            repository,
            home,
        ) by {
            if i < done {
                assert(next.entries[i] == work.entries[i]);
                assert(taken[i] == earlier[i]);
            }
        }
        lemma_resolve_take(config_path, next, written, repository, home);
    }
}

proof fn lemma_load_next(
    config_path: Seq<u8>,
    step: LoadStepView,
    reply: ReplyView,
    written: Seq<EntryView>,
    repository: Seq<u8>,
    home: Option<Seq<u8>>,
)
    requires
        sound(step, written, repository, home),
        step is Ask,
    ensures
        sound(load::load_next(config_path, step->state, reply), written, repository, home),
{
    match step->state {
        LoadStateView::Source { work, current } => {
            if let Ok(source) = load::resolved_source(
                work.repository,
                current.source(),
                reply->Path_0,
            ) {
                if current is Link {
                    lemma_resolve_accept(
                        config_path,
                        work,
                        current,
                        source,
                        written,
                        repository,
                        home,
                    );
                }
            }
        },
        LoadStateView::Regular { work, current, source } => {
            lemma_resolve_accept(config_path, work, current, source, written, repository, home);
        },
        LoadStateView::Check { checked, current, rest } => {
            if entry::entry_fault(current, reply->Flag_0) is None && !load::duplicates(
                checked,
                current,
            ) {
                let all = checked.push(current);
                assert forall|i: int, j: int| 0 <= i < j < all.len() implies !load::same_target(
                    #[trigger] all[i],
                    #[trigger] all[j],
                ) by {
                    assert(all[i] == checked[i]);
                    if j < checked.len() {
                        assert(all[j] == checked[j]);
                    }
                }
                assert forall|i: int| 0 <= i < all.len() implies entry::form_fault(
                    #[trigger] all[i],
                ) is None by {
                    if i < checked.len() {
                        assert(all[i] == checked[i]);
                    }
                }
                lemma_check_take(config_path, all, rest, written, repository, home);
            }
        },
        _ => {},
    }
}

proof fn lemma_load_sound(
    config_path: Seq<u8>,
    step: LoadStepView,
    replies: Seq<ReplyView>,
    written: Seq<EntryView>,
    repository: Seq<u8>,
    home: Option<Seq<u8>>,
)
    requires
        sound(step, written, repository, home),
    ensures
        sound(load_after(config_path, step, replies), written, repository, home),
    decreases replies.len(),
{
    if step is Ask && replies.len() > 0 {
        lemma_load_next(config_path, step, replies[0], written, repository, home);
        lemma_load_sound(
            config_path,
            load::load_next(config_path, step->state, replies[0]),
            replies.drop_first(),
            written,
            repository,
            home,
        );
    }
}

/// Whatever the system answers, loading succeeds only with entries that keep the rules: they are
/// those of the configuration in order, links first and scripts last, every source lies in the
/// repository (and is absolute if that is), every target is absolute, harmless and without `..`,
/// every mode is allowed, and no two targets are the same.
pub proof fn law_loaded_entries_keep_rules(
    config_path: Seq<u8>,
    replies: Seq<ReplyView>,
    entries: Seq<EntryView>,
)
    requires
        load_after(config_path, load::load_ask(config_path, LoadStateView::Text), replies)
            == LoadStepView::Done(Ok(entries)),
    ensures
        replies.len() >= 4,
        replies[1]->Config_0 matches Ok(config) && replies[2]->Path_0 matches Ok(repository)
            && all_resolve_to(config.entries(), entries, repository, replies[3]->Home_0),
        path::is_absolute(replies[2]->Path_0->Ok_0) ==> forall|i: int|
            0 <= i < entries.len() ==> path::is_absolute((#[trigger] entries[i]).source()),
        keep_rules(entries),
{
    reveal_with_fuel(load_after, 5);
    let r1 = replies.drop_first();
    let r2 = r1.drop_first();
    let r3 = r2.drop_first();
    let r4 = r3.drop_first();
    assert(replies.len() >= 4);
    assert(r1[0] == replies[1] && r2[0] == replies[2] && r3[0] == replies[3]);
    let config = replies[1]->Config_0->Ok_0;
    let repository = replies[2]->Path_0->Ok_0;
    let home = replies[3]->Home_0;
    let work = ResolutionView {
        repository,
        home,
        rest: config.entries(),
        entries: Seq::empty(),
    };
    assert(work.rest =~= config.entries().skip(0));
    lemma_resolve_take(config_path, work, config.entries(), repository, home);
    lemma_load_sound(
        config_path,
        load::resolve_take(config_path, work),
        r4,
        config.entries(),
        repository,
        home,
    );
    if path::is_absolute(repository) {
        assert forall|i: int| 0 <= i < entries.len() implies path::is_absolute(
            (#[trigger] entries[i]).source(),
        ) by {
            assert(resolves_to(config.entries()[i], entries[i], repository, home));
            paths::law_below_absolute_is_absolute(entries[i].source(), repository);
        }
    }
}

/// Loading after some replies of a system that stands still.
pub open spec fn load_settled(
    config_path: Seq<u8>,
    world: World,
    step: LoadStepView,
    count: nat,
) -> LoadStepView
    decreases count,
{
    match step {
        LoadStepView::Done(_) => step,
        LoadStepView::Ask { request, state } => if count == 0 {
            step
        } else {
            load_settled(
                config_path,
                world,
                load::load_next(config_path, state, world(request)),
                (count - 1) as nat,
            )
        },
    }
}

/// What a written entry resolves to in a system that stands still.
pub open spec fn resolved_in(
    written: EntryView,
    repository: Seq<u8>,
    home: Option<Seq<u8>>,
    world: World,
) -> Result<EntryView, ErrorView> {
    let canonical = world(
        RequestView::Canonicalize(path::joined(repository, written.source())),
    )->Path_0;
    match load::resolved_source(repository, written.source(), canonical) {
        Err(error) => Err(error),
        Ok(source) => if !(written is Link) && !world(RequestView::IsFile(source))->Flag_0 {
            Err(ErrorView::Invalid("source is not a regular file: "@ + path::path_text(source)))
        } else {
            match entry::expanded_target(written.target(), home) {
                Err(error) => Err(error),
                Ok(target) => Ok(written.with_paths(source, target)),
            }
        },
    }
}

/// A resolved source resolves to itself: looked for from the same repository it is asked for as
/// it is, and taken as it is. It has to be its own canonical form, which holds no `..`.
pub proof fn law_resolved_source_is_stable(
    repository: Seq<u8>,
    source: Seq<u8>,
    canonical: Result<Seq<u8>, IoErrorView>,
    resolved: Seq<u8>,
)
    requires
        path::is_absolute(repository),
        load::resolved_source(repository, source, canonical) == Ok::<_, ErrorView>(resolved),
        !path::has_parent_dir(resolved),
    ensures
        load::candidate_source(repository, resolved) == Ok::<_, ErrorView>(resolved),
        load::resolved_source(repository, resolved, Ok(resolved)) == Ok::<_, ErrorView>(resolved),
{
    paths::law_below_absolute_is_absolute(resolved, repository);
}

/// An entry that is written with its resolved source resolves to the same entry, in a system that
/// stands still.
pub proof fn law_resolved_entry_is_stable(
    written: EntryView,
    repository: Seq<u8>,
    home: Option<Seq<u8>>,
    world: World,
    entry: EntryView,
)
    requires
        path::is_absolute(repository),
        resolved_in(written, repository, home, world) == Ok::<_, ErrorView>(entry),
        world(RequestView::Canonicalize(entry.source()))->Path_0 == Ok::<_, IoErrorView>(
            entry.source(),
        ),
        !path::has_parent_dir(entry.source()),
    ensures
        resolved_in(
            written.with_paths(entry.source(), written.target()),
            repository,
            home,
            world,
        ) == Ok::<_, ErrorView>(entry),
{
    let canonical = world(
        RequestView::Canonicalize(path::joined(repository, written.source())),
    )->Path_0;
    law_resolved_source_is_stable(repository, written.source(), canonical, entry.source());
}

/// What written entries resolve to, or the first error.
pub open spec fn all_resolved_in(
    written: Seq<EntryView>,
    repository: Seq<u8>,
    home: Option<Seq<u8>>,
    world: World,
) -> Result<Seq<EntryView>, ErrorView>
    decreases written.len(),
{
    if written.len() == 0 {
        Ok(Seq::empty())
    } else {
        match resolved_in(written[0], repository, home, world) {
            Err(error) => Err(error),
            Ok(first) => match all_resolved_in(written.drop_first(), repository, home, world) {
                Err(error) => Err(error),
                Ok(rest) => Ok(seq![first] + rest),
            },
        }
    }
}

/// Entries that keep the rules, after some that do, or the first error.
pub open spec fn checked_in(
    checked: Seq<EntryView>,
    rest: Seq<EntryView>,
    world: World,
) -> Result<Seq<EntryView>, ErrorView>
    decreases rest.len(),
{
    if rest.len() == 0 {
        Ok(checked)
    } else {
        match entry::entry_fault(rest[0], statuses::source_present(rest[0], world)) {
            Some(error) => Err(error),
            None => if load::duplicates(checked, rest[0]) {
                Err(
                    ErrorView::Invalid(
                        "duplicate target in configuration: "@ + path::path_text(
                            rest[0].target(),
                        ),
                    ),
                )
            } else {
                checked_in(checked.push(rest[0]), rest.drop_first(), world)
            },
        }
    }
}

/// What the entries of a configuration file are in a system that stands still.
pub open spec fn loaded_in(config_path: Seq<u8>, world: World) -> Result<
    Seq<EntryView>,
    ErrorView,
> {
    match world(RequestView::ReadText(config_path))->Text_0 {
        Err(error) => Err(ErrorView::Io(error)),
        Ok(text) => match world(RequestView::ParseConfig(text))->Config_0 {
            Err(message) => Err(ErrorView::Config(message)),
            Ok(config) => match world(
                RequestView::Canonicalize(load::repository_of(config_path)),
            )->Path_0 {
                Err(error) => Err(ErrorView::Io(error)),
                Ok(repository) => match all_resolved_in(
                    config.entries(),
                    repository,
                    world(RequestView::HomeDirectory)->Home_0,
                    world,
                ) {
                    Err(error) => Err(error),
                    Ok(entries) => checked_in(Seq::empty(), entries, world),
                },
            },
        },
    }
}

proof fn lemma_settled_step(
    config_path: Seq<u8>,
    world: World,
    state: LoadStateView,
    end: LoadStepView,
)
    requires
        exists|count: nat|
            #[trigger] load_settled(
                config_path,
                world,
                load::load_next(
                    config_path,
                    state,
                    world(load::load_request(config_path, state)),
                ),
                count,
            ) == end,
    ensures
        exists|count: nat|
            #[trigger] load_settled(config_path, world, load::load_ask(config_path, state), count)
                == end,
{
    let next = load::load_next(config_path, state, world(load::load_request(config_path, state)));
    let count = choose|count: nat| #[trigger] load_settled(config_path, world, next, count) == end;
    assert(load_settled(config_path, world, load::load_ask(config_path, state), count + 1) == end);
}

proof fn lemma_checks_settle(
    config_path: Seq<u8>,
    world: World,
    checked: Seq<EntryView>,
    rest: Seq<EntryView>,
)
    ensures
        exists|count: nat|
            #[trigger] load_settled(
                config_path,
                world,
                load::check_take(config_path, checked, rest),
                count,
            ) == LoadStepView::Done(checked_in(checked, rest, world)),
    decreases rest.len(),
{
    let step = load::check_take(config_path, checked, rest);
    let end = LoadStepView::Done(checked_in(checked, rest, world));
    if rest.len() == 0 || entry::form_fault(rest[0]) is Some {
        assert(load_settled(config_path, world, step, 0) == end);
    } else {
        let state = LoadStateView::Check { checked, current: rest[0], rest: rest.drop_first() };
        let present = statuses::source_present(rest[0], world);
        let next = load::load_next(
            config_path,
            state,
            world(load::load_request(config_path, state)),
        );
        if entry::entry_fault(rest[0], present) is None && !load::duplicates(checked, rest[0]) {
            lemma_checks_settle(config_path, world, checked.push(rest[0]), rest.drop_first());
        } else {
            assert(load_settled(config_path, world, next, 0) == end);
        }
        lemma_settled_step(config_path, world, state, end);
    }
}

spec fn resolution_end(work: ResolutionView, world: World) -> LoadStepView {
    LoadStepView::Done(
        match all_resolved_in(work.rest, work.repository, work.home, world) {
            Err(error) => Err(error),
            Ok(entries) => checked_in(Seq::empty(), work.entries + entries, world),
        },
    )
}

proof fn lemma_resolution_settles(config_path: Seq<u8>, world: World, work: ResolutionView)
    ensures
        exists|count: nat|
            #[trigger] load_settled(
                config_path,
                world,
                load::resolve_take(config_path, work),
                count,
            ) == resolution_end(work, world),
    decreases work.rest.len(), 0nat,
{
    let step = load::resolve_take(config_path, work);
    let end = resolution_end(work, world);
    if work.rest.len() == 0 {
        assert(work.entries + Seq::<EntryView>::empty() =~= work.entries);
        lemma_checks_settle(config_path, world, Seq::empty(), work.entries);
    } else if load::candidate_source(work.repository, work.rest[0].source()) is Err {
        assert(load_settled(config_path, world, step, 0) == end);
    } else {
        let current = work.rest[0];
        let next_work = ResolutionView { rest: work.rest.drop_first(), ..work };
        let state = LoadStateView::Source { work: next_work, current };
        let canonical = world(load::load_request(config_path, state))->Path_0;
        let next = load::load_next(
            config_path,
            state,
            world(load::load_request(config_path, state)),
        );
        match load::resolved_source(work.repository, current.source(), canonical) {
            Err(_) => {
                assert(load_settled(config_path, world, next, 0) == end);
            },
            Ok(source) => {
                if current is Link {
                    lemma_acceptance_settles(config_path, world, next_work, current, source, end);
                } else {
                    let regular = LoadStateView::Regular { work: next_work, current, source };
                    if world(RequestView::IsFile(source))->Flag_0 {
                        lemma_acceptance_settles(
                            config_path,
                            world,
                            next_work,
                            current,
                            source,
                            end,
                        );
                    } else {
                        let after = load::load_next(
                            config_path,
                            regular,
                            world(load::load_request(config_path, regular)),
                        );
                        assert(load_settled(config_path, world, after, 0) == end);
                    }
                    lemma_settled_step(config_path, world, regular, end);
                }
            },
        }
        lemma_settled_step(config_path, world, state, end);
    }
}

proof fn lemma_acceptance_settles(
    config_path: Seq<u8>,
    world: World,
    work: ResolutionView,
    current: EntryView,
    source: Seq<u8>,
    end: LoadStepView,
)
    requires
        end == LoadStepView::Done(
            match entry::expanded_target(current.target(), work.home) {
                Err(error) => Err(error),
                Ok(target) => match all_resolved_in(
                    work.rest,
                    work.repository,
                    work.home,
                    world,
                ) {
                    Err(error) => Err(error),
                    Ok(entries) => checked_in(
                        Seq::empty(),
                        work.entries + (seq![current.with_paths(source, target)] + entries),
                        world,
                    ),
                },
            },
        ),
    ensures
        exists|count: nat|
            #[trigger] load_settled(
                config_path,
                world,
                load::resolve_accept(config_path, work, current, source),
                count,
            ) == end,
    decreases work.rest.len(), 1nat,
{
    let step = load::resolve_accept(config_path, work, current, source);
    match entry::expanded_target(current.target(), work.home) {
        Err(_) => {
            assert(load_settled(config_path, world, step, 0) == end);
        },
        Ok(target) => {
            let entry = current.with_paths(source, target);
            let next = ResolutionView { entries: work.entries.push(entry), ..work };
            lemma_resolution_settles(config_path, world, next);
            if let Ok(entries) = all_resolved_in(work.rest, work.repository, work.home, world) {
                assert(work.entries.push(entry) + entries =~= work.entries + (seq![entry]
                    + entries));
            }
        },
    }
}

/// Loading ends, in a system that stands still, with the entries of the configuration file or
/// with the first thing that is wrong with them.
pub proof fn law_loading_ends(config_path: Seq<u8>, world: World)
    ensures
        exists|count: nat|
            #[trigger] load_settled(
                config_path,
                world,
                load::load_ask(config_path, LoadStateView::Text),
                count,
            ) == LoadStepView::Done(loaded_in(config_path, world)),
{
    let end = LoadStepView::Done(loaded_in(config_path, world));
    if let Ok(text) = world(RequestView::ReadText(config_path))->Text_0 {
        let parse = LoadStateView::Parse { text };
        if let Ok(config) = world(RequestView::ParseConfig(text))->Config_0 {
            let place = LoadStateView::Repository { config };
            if let Ok(repository) = world(
                RequestView::Canonicalize(load::repository_of(config_path)),
            )->Path_0 {
                let home = LoadStateView::Home { config, repository };
                let work = ResolutionView {
                    repository,
                    home: world(RequestView::HomeDirectory)->Home_0,
                    rest: config.entries(),
                    entries: Seq::empty(),
                };
                lemma_resolution_settles(config_path, world, work);
                if let Ok(entries) = all_resolved_in(work.rest, repository, work.home, world) {
                    assert(Seq::<EntryView>::empty() + entries =~= entries);
                }
                lemma_settled_step(config_path, world, home, end);
            } else {
                assert(load_settled(
                    config_path,
                    world,
                    load::load_next(
                        config_path,
                        place,
                        world(load::load_request(config_path, place)),
                    ),
                    0,
                ) == end);
            }
            lemma_settled_step(config_path, world, place, end);
        } else {
            assert(load_settled(
                config_path,
                world,
                load::load_next(config_path, parse, world(load::load_request(config_path, parse))),
                0,
            ) == end);
        }
        lemma_settled_step(config_path, world, parse, end);
    } else {
        assert(load_settled(
            config_path,
            world,
            load::load_next(
                config_path,
                LoadStateView::Text,
                world(load::load_request(config_path, LoadStateView::Text)),
            ),
            0,
        ) == end);
    }
    lemma_settled_step(config_path, world, LoadStateView::Text, end);
}

/// How loading starts: it reads the configuration file, has its text parsed, and asks for the
/// canonical form of the directory that holds it. That directory has all steps of the file's path
/// but the last. Only for a bare file name it is `.`, the current one.
pub proof fn law_loading_starts(config_path: Seq<u8>, replies: Seq<ReplyView>)
    requires
        replies.len() == 3,
    ensures
        ({
            let begin = load::load_ask(config_path, LoadStateView::Text);
            let steps = path::components(config_path);
            let parsed = load_after(config_path, begin, replies.take(2));
            &&& begin->request == RequestView::ReadText(config_path)
            &&& match replies[0]->Text_0 {
                Err(error) => load_after(config_path, begin, replies) == LoadStepView::Done(
                    Err(ErrorView::Io(error)),
                ),
                Ok(text) => {
                    &&& load_after(config_path, begin, replies.take(1))->request
                        == RequestView::ParseConfig(text)
                    &&& match replies[1]->Config_0 {
                        Err(message) => load_after(config_path, begin, replies)
                            == LoadStepView::Done(Err(ErrorView::Config(message))),
                        Ok(_) => {
                            &&& parsed is Ask && parsed->request is Canonicalize
                            &&& steps.len() >= 2 ==> path::components(
                                parsed->request->Canonicalize_0,
                            ) == steps.drop_last()
                            &&& steps.len() < 2 ==> parsed->request->Canonicalize_0 == seq![0x2eu8]
                            &&& match replies[2]->Path_0 {
                                Err(error) => load_after(config_path, begin, replies)
                                    == LoadStepView::Done(Err(ErrorView::Io(error))),
                                Ok(_) => load_after(config_path, begin, replies)->request
                                    == RequestView::HomeDirectory,
                            }
                        },
                    }
                },
            }
        }),
{
    let begin = load::load_ask(config_path, LoadStateView::Text);
    lemma_repository(config_path);
    reveal_with_fuel(load_after, 4);
    assert(replies.take(1)[0] == replies[0]);
    assert(replies.take(2)[0] == replies[0]);
    assert(replies.take(2).drop_first()[0] == replies[1]);
    assert(replies.drop_first()[0] == replies[1]);
    assert(replies.drop_first().drop_first()[0] == replies[2]);
    assert(replies.take(1).drop_first().len() == 0);
    assert(replies.take(2).drop_first().drop_first().len() == 0);
}

proof fn lemma_repository(config_path: Seq<u8>)
    ensures
        ({
            let steps = path::components(config_path);
            &&& steps.len() >= 2 ==> path::components(load::repository_of(config_path))
                == steps.drop_last()
            &&& steps.len() < 2 ==> load::repository_of(config_path) == seq![0x2eu8]
        }),
{
    let steps = path::components(config_path);
    reveal_strlit(".");
    is_ascii_chars_encode_utf8("."@);
    assert(path::bytes_of("."@) =~= seq![0x2eu8]);
    paths::law_parent(config_path);
    if let Some(parent) = path::parent(config_path) {
        paths::law_absolute(parent);
        assert(path::components(parent).len() == steps.len() - 1);
    }
    if steps.len() >= 2 {
        assert(steps != seq![path::ComponentView::RootDir]);
    }
}

/// Which sources are accepted, and as what: one that is not empty and does not go up, whose
/// canonical form starts with all steps of the repository. A relative one is looked for there.
pub proof fn law_accepted_sources(
    repository: Seq<u8>,
    source: Seq<u8>,
    canonical: Result<Seq<u8>, IoErrorView>,
)
    ensures
        ({
            let steps = path::components(source);
            let base = path::components(repository);
            let goes_up = exists|i: int| 0 <= i < steps.len() && #[trigger] steps[i] is ParentDir;
            let asked = load::candidate_source(repository, source);
            let resolved = load::resolved_source(repository, source, canonical);
            let shown = text::lossy_text(source);
            if source.len() == 0 {
                &&& asked == Err::<Seq<u8>, ErrorView>(
                    ErrorView::Invalid("source path must not be empty"@),
                )
                &&& resolved == asked
            } else if goes_up {
                &&& asked == Err::<Seq<u8>, ErrorView>(
                    ErrorView::Invalid("source path must not contain '..': "@ + shown),
                )
                &&& resolved == asked
            } else {
                &&& asked == Ok::<Seq<u8>, ErrorView>(path::joined(repository, source))
                &&& match canonical {
                    Err(error) => resolved == Err::<Seq<u8>, ErrorView>(
                        ErrorView::Invalid(
                            "invalid source "@ + text::lossy_text(path::joined(repository, source))
                                + ": "@ + error.message,
                        ),
                    ),
                    Ok(form) => {
                        let below = path::components(form);
                        let inside = base.len() <= below.len() && forall|i: int|
                            0 <= i < base.len() ==> #[trigger] base[i] == below[i];
                        &&& inside ==> resolved == Ok::<Seq<u8>, ErrorView>(form)
                        &&& !inside ==> resolved == Err::<Seq<u8>, ErrorView>(
                            ErrorView::Invalid(
                                "source is outside the dotfiles repository: "@ + shown,
                            ),
                        )
                    },
                }
            }
        }),
{
    paths::law_comparisons(source, source);
    if let Ok(form) = canonical {
        paths::law_comparisons(form, repository);
    }
}

/// Whether entries are what written ones resolve to, one for one.
pub open spec fn each_resolved(
    written: Seq<EntryView>,
    entries: Seq<EntryView>,
    repository: Seq<u8>,
    home: Option<Seq<u8>>,
    world: World,
) -> bool {
    &&& entries.len() == written.len()
    &&& forall|i: int|
        0 <= i < written.len() ==> resolved_in(#[trigger] written[i], repository, home, world)
            == Ok::<EntryView, ErrorView>(entries[i])
}

/// Whether entries are all accepted as they stand in a system.
pub open spec fn each_accepted(entries: Seq<EntryView>, world: World) -> bool {
    forall|i: int|
        0 <= i < entries.len() ==> entry::entry_fault(
            #[trigger] entries[i],
            statuses::source_present(entries[i], world),
        ) is None
}

/// Whether no two entries have a target of the same steps.
pub open spec fn targets_differ(entries: Seq<EntryView>) -> bool {
    forall|i: int, j: int|
        0 <= i < j < entries.len() ==> path::components((#[trigger] entries[i]).target())
            != path::components((#[trigger] entries[j]).target())
}

proof fn lemma_each_resolved(
    written: Seq<EntryView>,
    repository: Seq<u8>,
    home: Option<Seq<u8>>,
    world: World,
)
    ensures
        forall|entries: Seq<EntryView>|
            all_resolved_in(written, repository, home, world) == Ok::<Seq<EntryView>, ErrorView>(
                entries,
            ) <==> #[trigger] each_resolved(written, entries, repository, home, world),
    decreases written.len(),
{
    let result = all_resolved_in(written, repository, home, world);
    assert forall|entries: Seq<EntryView>|
        result == Ok::<Seq<EntryView>, ErrorView>(entries) <==> #[trigger] each_resolved(
            written,
            entries,
            repository,
            home,
            world,
        ) by {
        if written.len() == 0 {
            assert(entries.len() == 0 ==> entries =~= Seq::empty());
        } else {
            let others = written.drop_first();
            lemma_each_resolved(others, repository, home, world);
            let first = resolved_in(written[0], repository, home, world);
            let rest = all_resolved_in(others, repository, home, world);
            if each_resolved(written, entries, repository, home, world) {
                let tail = entries.drop_first();
                assert forall|i: int| 0 <= i < others.len() implies resolved_in(
                    #[trigger] others[i],
                    repository,
                    home,
                    world,
                ) == Ok::<EntryView, ErrorView>(tail[i]) by {
                    assert(others[i] == written[i + 1]);
                }
                assert(each_resolved(others, tail, repository, home, world));
                assert(first == Ok::<EntryView, ErrorView>(entries[0]));
                assert(seq![entries[0]] + tail =~= entries);
            }
            if result == Ok::<Seq<EntryView>, ErrorView>(entries) {
                let tail = rest->Ok_0;
                assert(each_resolved(others, tail, repository, home, world));
                assert(entries == seq![first->Ok_0] + tail);
                assert forall|i: int| 0 <= i < written.len() implies resolved_in(
                    #[trigger] written[i],
                    repository,
                    home,
                    world,
                ) == Ok::<EntryView, ErrorView>(entries[i]) by {
                    if i > 0 {
                        assert(others[i - 1] == written[i]);
                    }
                }
            }
        }
    }
}

proof fn lemma_each_checked(checked: Seq<EntryView>, rest: Seq<EntryView>, world: World)
    requires
        targets_differ(checked),
    ensures
        checked_in(checked, rest, world) is Ok <==> each_accepted(rest, world) && targets_differ(
            checked + rest,
        ),
        checked_in(checked, rest, world) is Ok ==> checked_in(checked, rest, world) == Ok::<
            Seq<EntryView>,
            ErrorView,
        >(checked + rest),
    decreases rest.len(),
{
    let all = checked + rest;
    if rest.len() == 0 {
        assert(all =~= checked);
    } else {
        let current = rest[0];
        let others = rest.drop_first();
        let more = checked.push(current);
        assert(more + others =~= all);
        assert(all[checked.len() as int] == current);
        if load::duplicates(checked, current) {
            let i = choose|i: int|
                0 <= i < checked.len() && load::same_target(#[trigger] checked[i], current);
            assert(all[i] == checked[i]);
            assert(!targets_differ(all));
        } else {
            assert forall|i: int, j: int| 0 <= i < j < more.len() implies path::components(
                (#[trigger] more[i]).target(),
            ) != path::components((#[trigger] more[j]).target()) by {
                assert(more[i] == checked[i]);
                if j < checked.len() {
                    assert(more[j] == checked[j]);
                } else {
                    assert(!load::same_target(checked[i], current));
                }
            }
            lemma_each_checked(more, others, world);
            if each_accepted(rest, world) {
                assert(entry::entry_fault(rest[0], statuses::source_present(rest[0], world))
                    is None);
                assert forall|i: int| 0 <= i < others.len() implies entry::entry_fault(
                    #[trigger] others[i],
                    statuses::source_present(others[i], world),
                ) is None by {
                    assert(others[i] == rest[i + 1]);
                }
            } else {
                let i = choose|i: int|
                    0 <= i < rest.len() && entry::entry_fault(
                        #[trigger] rest[i],
                        statuses::source_present(rest[i], world),
                    ) is Some;
                if i > 0 {
                    assert(others[i - 1] == rest[i]);
                    assert(!each_accepted(others, world));
                }
            }
        }
        if each_accepted(rest, world) {
            assert(entry::entry_fault(rest[0], statuses::source_present(rest[0], world)) is None);
        }
    }
}

/// When loading succeeds, and with what: exactly when the file is read and parsed, its directory
/// has a canonical form, every entry resolves and is accepted, and no two targets have the same
/// steps. It then gives the resolved entries, all of them and in order.
pub proof fn law_loading_succeeds(config_path: Seq<u8>, world: World, entries: Seq<EntryView>)
    ensures
        loaded_in(config_path, world) == Ok::<Seq<EntryView>, ErrorView>(entries) <==> {
            &&& world(RequestView::ReadText(config_path))->Text_0 matches Ok(text) && world(
                RequestView::ParseConfig(text),
            )->Config_0 matches Ok(config) && world(
                RequestView::Canonicalize(load::repository_of(config_path)),
            )->Path_0 matches Ok(repository) && each_resolved(
                config.links + config.configs + config.scripts,
                entries,
                repository,
                world(RequestView::HomeDirectory)->Home_0,
                world,
            )
            &&& each_accepted(entries, world)
            &&& targets_differ(entries)
        },
{
    if let Ok(text) = world(RequestView::ReadText(config_path))->Text_0 {
        if let Ok(config) = world(RequestView::ParseConfig(text))->Config_0 {
            if let Ok(repository) = world(
                RequestView::Canonicalize(load::repository_of(config_path)),
            )->Path_0 {
                let home = world(RequestView::HomeDirectory)->Home_0;
                lemma_each_resolved(config.entries(), repository, home, world);
                assert(each_resolved(config.entries(), entries, repository, home, world)
                    == each_resolved(config.entries(), entries, repository, home, world));
                if let Ok(resolved) = all_resolved_in(
                    config.entries(),
                    repository,
                    home,
                    world,
                ) {
                    lemma_each_checked(Seq::empty(), resolved, world);
                    assert(Seq::<EntryView>::empty() + resolved =~= resolved);
                }
            }
        }
    }
}

/// What a written entry resolves to: the same entry with its accepted source, which has to be a
/// regular file unless it is that of a link, and with its expanded target.
pub proof fn law_resolved_entry(
    written: EntryView,
    repository: Seq<u8>,
    home: Option<Seq<u8>>,
    world: World,
)
    ensures
        ({
            let asked = RequestView::Canonicalize(path::joined(repository, written.source()));
            let source = load::resolved_source(
                repository,
                written.source(),
                world(asked)->Path_0,
            );
            let target = entry::expanded_target(written.target(), home);
            let result = resolved_in(written, repository, home, world);
            let wrong_kind = !(written is Link) && !world(
                RequestView::IsFile(source->Ok_0),
            )->Flag_0;
            &&& source is Err ==> result == Err::<EntryView, ErrorView>(source->Err_0)
            &&& source is Ok && wrong_kind ==> result == Err::<EntryView, ErrorView>(
                ErrorView::Invalid(
                    "source is not a regular file: "@ + text::lossy_text(source->Ok_0),
                ),
            )
            &&& source is Ok && !wrong_kind && target is Err ==> result == Err::<
                EntryView,
                ErrorView,
            >(target->Err_0)
            &&& source is Ok && !wrong_kind && target is Ok ==> result == Ok::<
                EntryView,
                ErrorView,
            >(written.with_paths(source->Ok_0, target->Ok_0))
        }),
{
}

/// The first entry that cannot be resolved decides how loading fails.
pub proof fn law_first_unresolved(
    written: Seq<EntryView>,
    repository: Seq<u8>,
    home: Option<Seq<u8>>,
    world: World,
    at: int,
)
    requires
        0 <= at < written.len(),
        resolved_in(written[at], repository, home, world) is Err,
        forall|i: int|
            0 <= i < at ==> resolved_in(#[trigger] written[i], repository, home, world) is Ok,
    ensures
        all_resolved_in(written, repository, home, world) == Err::<Seq<EntryView>, ErrorView>(
            resolved_in(written[at], repository, home, world)->Err_0,
        ),
    decreases at,
{
    if at > 0 {
        let others = written.drop_first();
        assert(resolved_in(written[0], repository, home, world) is Ok);
        assert forall|i: int| 0 <= i < at - 1 implies resolved_in(
            #[trigger] others[i],
            repository,
            home,
            world,
        ) is Ok by {
            assert(others[i] == written[i + 1]);
        }
        law_first_unresolved(others, repository, home, world, at - 1);
    }
}

proof fn lemma_first_unaccepted(
    checked: Seq<EntryView>,
    rest: Seq<EntryView>,
    world: World,
    at: int,
)
    requires
        0 <= at < rest.len(),
        each_accepted(rest.take(at), world),
        targets_differ(checked + rest.take(at)),
    ensures
        ({
            let current = rest[at];
            let fault = entry::entry_fault(current, statuses::source_present(current, world));
            let result = checked_in(checked, rest, world);
            &&& fault is Some ==> result == Err::<Seq<EntryView>, ErrorView>(fault->0)
            &&& fault is None && !targets_differ(checked + rest.take(at + 1)) ==> result == Err::<
                Seq<EntryView>,
                ErrorView,
            >(
                ErrorView::Invalid(
                    "duplicate target in configuration: "@ + text::lossy_text(current.target()),
                ),
            )
        }),
    decreases at,
{
    let before = rest.take(at);
    let current = rest[at];
    if at == 0 {
        assert(checked + before =~= checked);
        assert(checked + rest.take(1) =~= checked.push(current));
        if !targets_differ(checked.push(current)) {
            let all = checked.push(current);
            let (i, j) = choose|i: int, j: int|
                0 <= i < j < all.len() && path::components((#[trigger] all[i]).target())
                    == path::components((#[trigger] all[j]).target());
            assert(all[i] == checked[i]);
            if j < checked.len() {
                assert(all[j] == checked[j]);
            }
            assert(load::same_target(checked[i], current));
        }
    } else {
        let first = rest[0];
        let others = rest.drop_first();
        let more = checked.push(first);
        assert(before[0] == first);
        assert(others.take(at - 1) =~= before.drop_first());
        assert(others.take(at) =~= rest.take(at + 1).drop_first());
        assert(more + others.take(at - 1) =~= checked + before);
        assert(more + others.take(at) =~= checked + rest.take(at + 1));
        assert forall|i: int| 0 <= i < at - 1 implies entry::entry_fault(
            #[trigger] others.take(at - 1)[i],
            statuses::source_present(others.take(at - 1)[i], world),
        ) is None by {
            assert(others.take(at - 1)[i] == before[i + 1]);
        }
        if load::duplicates(checked, first) {
            let i = choose|i: int|
                0 <= i < checked.len() && load::same_target(#[trigger] checked[i], first);
            let all = checked + before;
            assert(all[i] == checked[i]);
            assert(all[checked.len() as int] == first);
        }
        lemma_first_unaccepted(more, others, world, at - 1);
    }
}

/// The first entry that is not accepted, or whose target another before it has, decides how
/// loading fails.
pub proof fn law_first_unaccepted(entries: Seq<EntryView>, world: World, at: int)
    requires
        0 <= at < entries.len(),
        each_accepted(entries.take(at), world),
        targets_differ(entries.take(at)),
    ensures
        ({
            let current = entries[at];
            let fault = entry::entry_fault(current, statuses::source_present(current, world));
            let result = checked_in(Seq::empty(), entries, world);
            &&& fault is Some ==> result == Err::<Seq<EntryView>, ErrorView>(fault->0)
            &&& fault is None && !targets_differ(entries.take(at + 1)) ==> result == Err::<
                Seq<EntryView>,
                ErrorView,
            >(
                ErrorView::Invalid(
                    "duplicate target in configuration: "@ + text::lossy_text(current.target()),
                ),
            )
        }),
{
    assert(Seq::<EntryView>::empty() + entries.take(at) =~= entries.take(at));
    assert(Seq::<EntryView>::empty() + entries.take(at + 1) =~= entries.take(at + 1));
    lemma_first_unaccepted(Seq::empty(), entries, world, at);
}

} // verus!
