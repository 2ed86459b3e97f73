//! Which blueprint an `Xargo.toml` stands for, given what is on disk, and that drafts lead to it.
use vstd::prelude::*;

use crate::blueprint::{fresh, in_order, lemma_in_order_lists, pushed, BlueprintModel, StageModel};
use crate::document::{
    holds_key, inserted, law_inserted, law_removed, lemma_rank_unique, lemma_sorted_front, lookup,
    rank, removed, sorted, Doc, Entries,
};
use crate::draft::{
    advanced, asked, at_path, job_of, joined, library_query, path_of, settled_draft, stage_of,
    started, taken, told_absolute, told_found, workspace_query, DraftModel, JobModel, QueryModel,
    WaitModel,
};
use crate::error::Fault;
use crate::listing::{
    default_dependencies, first_fault, lemma_listed_sorted, listed, options_of, silent,
    staged_api_disabled, tracked_by, with_options, TomlModel,
};
use crate::text::{key_lt, lemma_key_lt_irreflexive};

verus! {

/// The answers to all questions that a draft may ask.
pub struct World {
    pub absolute: spec_fn(QueryModel) -> bool,
    pub found: spec_fn(QueryModel) -> Option<Seq<char>>,
}

/// The table of a crate once its path is known. A relative path becomes canonical; a crate without
/// a path that does not come from git is taken from the sources, if they have it.
pub open spec fn located(
    krate: Seq<char>,
    table: Entries,
    path: Option<Seq<char>>,
    world: World,
) -> Result<Entries, Fault> {
    match path {
        Some(path) => if (world.absolute)(QueryModel::IsAbsolute { krate, path }) {
            Ok(table)
        } else {
            canonical(krate, table, path, world)
        },
        None => if holds_key(table, "git"@) {
            Ok(table)
        } else {
            Ok(from_sources(krate, table, world))
        },
    }
}

/// The table of a crate with a relative path.
pub open spec fn canonical(
    krate: Seq<char>,
    table: Entries,
    path: Seq<char>,
    world: World,
) -> Result<Entries, Fault> {
    match (world.found)(QueryModel::Canonicalize { krate, path }) {
        None => Err(Fault::NotCanonical { path }),
        Some(p) => Ok(at_path(table, p)),
    }
}

/// The table of a crate with neither a path nor a git repository.
pub open spec fn from_sources(krate: Seq<char>, table: Entries, world: World) -> Entries {
    match (world.found)(library_query(krate)) {
        None => table,
        Some(path) => at_path(table, path),
    }
}

/// The stage and the table of a crate.
pub open spec fn settled(
    krate: Seq<char>,
    doc: Doc,
    target: Seq<char>,
    world: World,
) -> Result<(i64, Entries), Fault> {
    match doc {
        Doc::Table(entry) => match stage_of(krate, entry) {
            Err(fault) => Err(fault),
            Ok(stage) => {
                let table = removed(entry, "stage"@);
                match path_of(krate, table) {
                    Err(fault) => Err(fault),
                    Ok(path) => match located(krate, table, path, world) {
                        Err(fault) => Err(fault),
                        Ok(table) => Ok((stage, table)),
                    },
                }
            },
        },
        _ => Err(Fault::DependencyNotTable { target, krate }),
    }
}

/// A blueprint with one more crate in the stage of that crate.
pub open spec fn placed(
    blueprint: BlueprintModel,
    krate: Seq<char>,
    doc: Doc,
    target: Seq<char>,
    world: World,
) -> Result<BlueprintModel, Fault> {
    match settled(krate, doc, target, world) {
        Err(fault) => Err(fault),
        Ok((stage, table)) => Ok(
            pushed(blueprint, stage, krate, table, (world.found)(workspace_query(stage))),
        ),
    }
}

/// A blueprint with all these crates in their stages.
pub open spec fn all_placed(
    blueprint: BlueprintModel,
    entries: Entries,
    target: Seq<char>,
    world: World,
) -> Result<BlueprintModel, Fault>
    decreases entries.len(),
{
    if entries.len() == 0 {
        Ok(blueprint)
    } else {
        match all_placed(blueprint, entries.drop_last(), target, world) {
            Err(fault) => Err(fault),
            Ok(front) => placed(front, entries.last().0, entries.last().1, target, world),
        }
    }
}

/// The blueprint that an `Xargo.toml` stands for.
pub open spec fn blueprint_of(toml: TomlModel, target: Seq<char>, world: World) -> Result<
    BlueprintModel,
    Fault,
> {
    match listed(toml.dependencies, toml.target_dependencies, target) {
        Err(fault) => Err(fault),
        Ok(list) => match tracked_by(toml.xargo) {
            Err(fault) => Err(fault),
            Ok(track_sysroot) => match all_placed(
                BlueprintModel { track_sysroot, stages: Map::empty() },
                list,
                target,
                world,
            ) {
                Err(fault) => Err(fault),
                Ok(blueprint) => with_options(blueprint, toml.xargo),
            },
        },
    }
}

/// Looking at the first entry first, or at the last entry last, is the same.
proof fn lemma_all_placed_front(
    blueprint: BlueprintModel,
    entries: Entries,
    target: Seq<char>,
    world: World,
)
    requires
        entries.len() > 0,
    ensures
        all_placed(blueprint, entries, target, world) == match placed(
            blueprint,
            entries[0].0,
            entries[0].1,
            target,
            world,
        ) {
            Err(fault) => Err(fault),
            Ok(next) => all_placed(next, entries.drop_first(), target, world),
        },
    decreases entries.len(),
{
    reveal_with_fuel(all_placed, 2);
    let front = entries.drop_last();
    if front.len() > 0 {
        lemma_all_placed_front(blueprint, front, target, world);
        assert(front.drop_first() =~= entries.drop_first().drop_last());
        assert(entries.drop_first().last() == entries.last());
        assert(front[0] == entries[0]);
    } else {
        assert(entries.drop_first().len() == 0);
        assert(entries.last() == entries[0]);
    }
}

/// Where a draft whose crate gets this table ends.
pub open spec fn resumed(
    draft: DraftModel,
    job: JobModel,
    table: Result<Entries, Fault>,
    world: World,
) -> Result<BlueprintModel, Fault> {
    match table {
        Err(fault) => Err(fault),
        Ok(table) => all_placed(
            pushed(
                draft.blueprint,
                job.stage,
                job.krate,
                table,
                (world.found)(workspace_query(job.stage)),
            ),
            draft.pending,
            draft.target,
            world,
        ),
    }
}

/// Where a draft ends, before the options of the stages.
pub open spec fn ending(draft: DraftModel, world: World) -> Result<BlueprintModel, Fault> {
    match draft.wait {
        WaitModel::Ready => all_placed(draft.blueprint, draft.pending, draft.target, world),
        WaitModel::Absolute { job, path } => resumed(
            draft,
            job,
            located(job.krate, job.table, Some(path), world),
            world,
        ),
        WaitModel::Canonical { job, path } => resumed(
            draft,
            job,
            canonical(job.krate, job.table, path, world),
            world,
        ),
        WaitModel::Library { job } => resumed(
            draft,
            job,
            Ok(from_sources(job.krate, job.table, world)),
            world,
        ),
        WaitModel::Workspace { job } => resumed(draft, job, Ok(job.table), world),
    }
}

/// The blueprint that a draft leads to.
pub open spec fn promised(draft: DraftModel, world: World) -> Result<BlueprintModel, Fault> {
    match ending(draft, world) {
        Err(fault) => Err(fault),
        Ok(blueprint) => with_options(blueprint, draft.xargo),
    }
}

/// What a draft that may have been refused leads to.
pub open spec fn promise_of(draft: Result<DraftModel, Fault>, world: World) -> Result<
    BlueprintModel,
    Fault,
> {
    match draft {
        Err(fault) => Err(fault),
        Ok(d) => promised(d, world),
    }
}

proof fn lemma_joined_keeps(draft: DraftModel, job: JobModel, world: World)
    ensures
        ending(joined(draft, job), world) == resumed(draft, job, Ok(job.table), world),
{
}

proof fn lemma_advanced_keeps(draft: DraftModel, world: World)
    ensures
        promise_of(advanced(draft), world) == promised(draft, world),
        advanced(draft) matches Ok(d) ==> settled_draft(d),
    decreases draft.pending.len(),
{
    if draft.wait is Ready && draft.pending.len() > 0 {
        let (krate, doc) = draft.pending[0];
        let rest = DraftModel { pending: draft.pending.drop_first(), ..draft };
        lemma_all_placed_front(draft.blueprint, draft.pending, draft.target, world);
        if let Ok(next) = taken(draft) {
            let entry = doc->Table_0;
            let job = JobModel {
                krate,
                stage: stage_of(krate, entry)->Ok_0,
                table: removed(entry, "stage"@),
            };
            lemma_joined_keeps(rest, job, world);
            lemma_advanced_keeps(next, world);
        }
    }
}

/// A started draft leads to the blueprint that the `Xargo.toml` stands for; it is refused at the
/// start only if there is none.
pub proof fn law_start_keeps_promise(toml: TomlModel, target: Seq<char>, world: World)
    ensures
        promise_of(started(toml, target), world) == blueprint_of(toml, target, world),
        started(toml, target) matches Ok(d) ==> settled_draft(d),
{
    if let Ok(list) = listed(toml.dependencies, toml.target_dependencies, target) {
        if let Ok(track_sysroot) = tracked_by(toml.xargo) {
            lemma_advanced_keeps(
                DraftModel {
                    target,
                    xargo: toml.xargo,
                    pending: list,
                    blueprint: BlueprintModel { track_sysroot, stages: Map::empty() },
                    wait: WaitModel::Ready,
                },
                world,
            );
        }
    }
}

/// A true answer on whether a path is absolute changes nothing about where a draft leads.
pub proof fn law_absolute_keeps_promise(draft: DraftModel, world: World)
    requires
        settled_draft(draft),
        asked(draft) matches Some(QueryModel::IsAbsolute { .. }),
    ensures
        promise_of(told_absolute(draft, (world.absolute)(asked(draft)->0)), world) == promised(
            draft,
            world,
        ),
        told_absolute(draft, (world.absolute)(asked(draft)->0)) matches Ok(d) ==> settled_draft(d),
{
    let job = job_of(draft.wait)->0;
    lemma_joined_keeps(draft, job, world);
    lemma_advanced_keeps(joined(draft, job), world);
}

/// A true answer on what is on disk changes nothing about where a draft leads.
pub proof fn law_found_keeps_promise(draft: DraftModel, world: World)
    requires
        settled_draft(draft),
        asked(draft) is Some,
        !(asked(draft) matches Some(QueryModel::IsAbsolute { .. })),
    ensures
        promise_of(told_found(draft, (world.found)(asked(draft)->0)), world) == promised(
            draft,
            world,
        ),
        told_found(draft, (world.found)(asked(draft)->0)) matches Ok(d) ==> settled_draft(d),
{
    let found = (world.found)(asked(draft)->0);
    let job = job_of(draft.wait)->0;
    let moved = JobModel { table: at_path(job.table, found->0), ..job };
    let done = DraftModel {
        blueprint: pushed(draft.blueprint, job.stage, job.krate, job.table, found),
        wait: WaitModel::Ready,
        ..draft
    };
    lemma_joined_keeps(draft, job, world);
    lemma_joined_keeps(draft, moved, world);
    lemma_advanced_keeps(joined(draft, job), world);
    lemma_advanced_keeps(joined(draft, moved), world);
    lemma_advanced_keeps(done, world);
}

/// How many questions a draft may still ask.
pub open spec fn questions_left(draft: DraftModel) -> nat {
    3 * draft.pending.len() + match draft.wait {
        WaitModel::Ready => 0,
        WaitModel::Absolute { .. } => 3,
        WaitModel::Canonical { .. } => 2,
        WaitModel::Library { .. } => 2,
        WaitModel::Workspace { .. } => 1nat,
    }
}

proof fn lemma_advanced_asks_no_more(draft: DraftModel)
    ensures
        advanced(draft) matches Ok(d) ==> questions_left(d) <= questions_left(draft),
    decreases draft.pending.len(),
{
    if draft.wait is Ready && draft.pending.len() > 0 {
        if let Ok(next) = taken(draft) {
            lemma_advanced_asks_no_more(next);
        }
    }
}

/// Every answer brings a draft closer to its end, so that it asks at most three questions for each
/// dependency.
pub proof fn law_answers_make_progress(draft: DraftModel, absolute: bool, found: Option<Seq<char>>)
    requires
        asked(draft) is Some,
    ensures
        asked(draft)->0 is IsAbsolute ==> (told_absolute(draft, absolute) matches Ok(d)
            ==> questions_left(d) < questions_left(draft)),
        !(asked(draft)->0 is IsAbsolute) ==> (told_found(draft, found) matches Ok(d)
            ==> questions_left(d) < questions_left(draft)),
{
    let job = job_of(draft.wait)->0;
    let moved = JobModel { table: at_path(job.table, found->0), ..job };
    let done = DraftModel {
        blueprint: pushed(draft.blueprint, job.stage, job.krate, job.table, found),
        wait: WaitModel::Ready,
        ..draft
    };
    lemma_advanced_asks_no_more(joined(draft, job));
    lemma_advanced_asks_no_more(joined(draft, moved));
    lemma_advanced_asks_no_more(done);
}

/// The end of a draft whose questions are all answered as the world has it.
pub open spec fn driven(draft: DraftModel, world: World) -> Result<BlueprintModel, Fault>
    decreases questions_left(draft),
    via driven_ends
{
    match asked(draft) {
        None => with_options(draft.blueprint, draft.xargo),
        Some(QueryModel::IsAbsolute { krate, path }) => match told_absolute(
            draft,
            (world.absolute)(QueryModel::IsAbsolute { krate, path }),
        ) {
            Err(fault) => Err(fault),
            Ok(next) => driven(next, world),
        },
        Some(query) => match told_found(draft, (world.found)(query)) {
            Err(fault) => Err(fault),
            Ok(next) => driven(next, world),
        },
    }
}

#[via_fn]
proof fn driven_ends(draft: DraftModel, world: World) {
    if asked(draft) is Some {
        law_answers_make_progress(
            draft,
            (world.absolute)(asked(draft)->0),
            (world.found)(asked(draft)->0),
        );
    }
}

proof fn lemma_driven_keeps(draft: DraftModel, world: World)
    requires
        settled_draft(draft),
    ensures
        driven(draft, world) == promised(draft, world),
    decreases questions_left(draft),
{
    if asked(draft) is Some {
        law_answers_make_progress(
            draft,
            (world.absolute)(asked(draft)->0),
            (world.found)(asked(draft)->0),
        );
        if asked(draft)->0 is IsAbsolute {
            law_absolute_keeps_promise(draft, world);
            if let Ok(next) = told_absolute(draft, (world.absolute)(asked(draft)->0)) {
                lemma_driven_keeps(next, world);
            }
        } else {
            law_found_keeps_promise(draft, world);
            if let Ok(next) = told_found(draft, (world.found)(asked(draft)->0)) {
                lemma_driven_keeps(next, world);
            }
        }
    }
}

/// Starting a draft and answering each of its questions truly ends in the blueprint that the
/// `Xargo.toml` stands for, or in the fault for which there is none.
pub proof fn law_draft_ends_in_blueprint(toml: TomlModel, target: Seq<char>, world: World)
    ensures
        match started(toml, target) {
            Err(fault) => blueprint_of(toml, target, world) == Err::<BlueprintModel, Fault>(fault),
            Ok(draft) => driven(draft, world) == blueprint_of(toml, target, world),
        },
{
    law_start_keeps_promise(toml, target, world);
    if let Ok(draft) = started(toml, target) {
        lemma_driven_keeps(draft, world);
    }
}

/// The keys of a table, in order.
pub open spec fn keys_of(entries: Entries) -> Seq<Seq<char>> {
    Seq::new(entries.len(), |i: int| entries[i].0)
}

/// The crates of a list that belong to a stage, with their settled tables, in the order of the
/// list.
pub open spec fn members(entries: Entries, target: Seq<char>, world: World, stage: i64) -> Entries
    decreases entries.len(),
{
    if entries.len() == 0 {
        Seq::empty()
    } else {
        let front = members(entries.drop_last(), target, world, stage);
        let (krate, doc) = entries.last();
        match settled(krate, doc, target, world) {
            Ok((number, table)) => if number == stage {
                front.push((krate, Doc::Table(table)))
            } else {
                front
            },
            Err(_) => front,
        }
    }
}

proof fn lemma_members_from_list(entries: Entries, target: Seq<char>, world: World, stage: i64)
    ensures
        forall|i: int|
            0 <= i < members(entries, target, world, stage).len() ==> exists|j: int|
                0 <= j < entries.len() && (#[trigger] entries[j]).0 == (#[trigger] members(
                    entries,
                    target,
                    world,
                    stage,
                )[i]).0,
    decreases entries.len(),
{
    if entries.len() > 0 {
        let front = entries.drop_last();
        let all = members(entries, target, world, stage);
        let some = members(front, target, world, stage);
        lemma_members_from_list(front, target, world, stage);
        assert forall|i: int| 0 <= i < all.len() implies exists|j: int|
            0 <= j < entries.len() && (#[trigger] entries[j]).0 == (#[trigger] all[i]).0 by {
            if i < some.len() {
                assert(all[i] == some[i]);
                let j = choose|j: int|
                    0 <= j < front.len() && (#[trigger] front[j]).0 == some[i].0;
                assert(entries[j] == front[j]);
            } else {
                assert(entries[entries.len() - 1].0 == all[i].0);
            }
        }
    }
}

/// A key above all keys of a table goes to the end of the table.
proof fn lemma_inserted_last(entries: Entries, key: Seq<char>, value: Doc)
    requires
        forall|i: int| 0 <= i < entries.len() ==> key_lt((#[trigger] entries[i]).0, key),
    ensures
        inserted(entries, key, value) == entries.push((key, value)),
{
    lemma_rank_unique(entries, key, entries.len() as int);
    assert(inserted(entries, key, value) =~= entries.push((key, value)));
}

/// Each stage of a blueprint holds the crates of the list that belong to it, in the order of the
/// list, and their tables; there is a stage where there is such a crate; and a stage is patched
/// when the sources have a `rustc-std-workspace-core`.
pub proof fn law_stages_hold_their_members(
    track_sysroot: bool,
    entries: Entries,
    target: Seq<char>,
    world: World,
    stage: i64,
)
    requires
        sorted(entries),
    ensures
        all_placed(
            BlueprintModel { track_sysroot, stages: Map::empty() },
            entries,
            target,
            world,
        ) matches Ok(blueprint) ==> {
            let list = members(entries, target, world, stage);
            &&& blueprint.track_sysroot == track_sysroot
            &&& blueprint.stages.contains_key(stage) <==> list.len() > 0
            &&& blueprint.stages.contains_key(stage) ==> blueprint.stages[stage] == StageModel {
                crates: keys_of(list),
                dependencies: list,
                ..fresh((world.found)(workspace_query(stage)))
            }
        },
    decreases entries.len(),
{
    let empty = BlueprintModel { track_sysroot, stages: Map::<i64, StageModel>::empty() };
    if entries.len() > 0 {
        let front = entries.drop_last();
        let (krate, doc) = entries.last();
        lemma_sorted_front(entries);
        law_stages_hold_their_members(track_sysroot, front, target, world, stage);
        if let Ok(blueprint) = all_placed(empty, entries, target, world) {
            let before = all_placed(empty, front, target, world)->Ok_0;
            let (number, table) = settled(krate, doc, target, world)->Ok_0;
            let some = members(front, target, world, stage);
            let list = members(entries, target, world, stage);
            if number == stage {
                lemma_members_from_list(front, target, world, stage);
                assert forall|i: int| 0 <= i < some.len() implies key_lt(
                    (#[trigger] some[i]).0,
                    krate,
                ) by {
                    let j = choose|j: int|
                        0 <= j < front.len() && (#[trigger] front[j]).0 == some[i].0;
                    assert(entries[j] == front[j]);
                    assert(key_lt(entries[j].0, entries[entries.len() - 1].0));
                }
                lemma_inserted_last(some, krate, Doc::Table(table));
                assert(keys_of(list) =~= keys_of(some).push(krate));
                if !before.stages.contains_key(stage) {
                    assert(some =~= Seq::empty());
                    assert(keys_of(some) =~= Seq::empty());
                }
            }
        }
    }
}

/// The crate of an entry is in the stage that its entry gives, and in no other.
pub proof fn law_each_crate_in_its_stage(
    entries: Entries,
    target: Seq<char>,
    world: World,
    stage: i64,
    i: int,
)
    requires
        sorted(entries),
        0 <= i < entries.len(),
        settled(entries[i].0, entries[i].1, target, world) is Ok,
    ensures
        keys_of(members(entries, target, world, stage)).contains(entries[i].0) <==> settled(
            entries[i].0,
            entries[i].1,
            target,
            world,
        )->Ok_0.0 == stage,
    decreases entries.len(),
{
    let front = entries.drop_last();
    let (krate, doc) = entries.last();
    let some = members(front, target, world, stage);
    let list = members(entries, target, world, stage);
    lemma_sorted_front(entries);
    if i < front.len() {
        assert(front[i] == entries[i]);
        law_each_crate_in_its_stage(front, target, world, stage, i);
        lemma_key_lt_irreflexive(krate);
        assert(key_lt(entries[i].0, entries[entries.len() - 1].0));
        if keys_of(some).contains(entries[i].0) {
            let j = choose|j: int| 0 <= j < some.len() && keys_of(some)[j] == entries[i].0;
            assert(keys_of(list)[j] == entries[i].0);
        }
        if keys_of(list).contains(entries[i].0) {
            let j = choose|j: int| 0 <= j < list.len() && keys_of(list)[j] == entries[i].0;
            assert(list[j].0 == entries[i].0);
            if j < some.len() {
                assert(keys_of(some)[j] == entries[i].0);
            }
        }
    } else {
        lemma_members_from_list(front, target, world, stage);
        if keys_of(some).contains(krate) {
            let j = choose|j: int| 0 <= j < some.len() && keys_of(some)[j] == krate;
            assert(some[j].0 == krate);
            let k = choose|k: int| 0 <= k < front.len() && (#[trigger] front[k]).0 == some[j].0;
            assert(entries[k] == front[k]);
            assert(key_lt(entries[k].0, entries[entries.len() - 1].0));
            lemma_key_lt_irreflexive(krate);
        }
        if settled(krate, doc, target, world)->Ok_0.0 == stage {
            assert(keys_of(list)[some.len() as int] == krate);
        } else {
            assert(list == some);
        }
    }
}

/// The settled table of a crate says nothing of stages.
pub proof fn law_stage_is_not_passed_on(
    krate: Seq<char>,
    doc: Doc,
    target: Seq<char>,
    world: World,
)
    requires
        doc matches Doc::Table(entry) ==> sorted(entry),
    ensures
        settled(krate, doc, target, world) matches Ok((_, table)) ==> lookup(table, "stage"@)
            is None,
{
    if let Ok((_, table)) = settled(krate, doc, target, world) {
        let entry = doc->Table_0;
        let rest = removed(entry, "stage"@);
        law_removed(entry, "stage"@, "stage"@);
        reveal_strlit("stage");
        reveal_strlit("path");
        assert("stage"@ != "path"@);
        assert forall|path: Seq<char>| lookup(#[trigger] at_path(rest, path), "stage"@) is None by {
            law_inserted(rest, "path"@, Doc::String(path), "stage"@);
        }
    }
}

/// The settled table of a crate holds what its entry holds under every key but `stage` and `path`.
pub proof fn law_other_keys_are_passed_on(
    krate: Seq<char>,
    doc: Doc,
    target: Seq<char>,
    world: World,
    key: Seq<char>,
)
    requires
        doc matches Doc::Table(entry) ==> sorted(entry),
        key != "stage"@,
        key != "path"@,
    ensures
        settled(krate, doc, target, world) matches Ok((_, table)) ==> (doc matches Doc::Table(entry)
            && lookup(table, key) == lookup(entry, key)),
{
    if let Ok((_, table)) = settled(krate, doc, target, world) {
        let entry = doc->Table_0;
        let rest = removed(entry, "stage"@);
        law_removed(entry, "stage"@, key);
        assert forall|path: Seq<char>|
            lookup(#[trigger] at_path(rest, path), key) == lookup(entry, key) by {
            law_inserted(rest, "path"@, Doc::String(path), key);
        }
    }
}

proof fn lemma_no_options_no_fault(stages: Seq<i64>)
    ensures
        first_fault(None, stages) is None,
    decreases stages.len(),
{
    if stages.len() > 0 {
        lemma_no_options_no_fault(stages.drop_first());
    }
}

/// A project without an `Xargo.toml` gets `core` in stage 0 and `compiler_builtins`, with its
/// `mem` feature, in stage 1. Both come from the sources, if they are there, and the sysroot is not
/// tracked.
pub proof fn law_default_sysroot(target: Seq<char>, world: World)
    ensures
        blueprint_of(silent(), target, world) matches Ok(blueprint) && {
            let features = seq![("features"@, Doc::Array(seq![Doc::String("mem"@)]))];
            let core = from_sources("core"@, Seq::empty(), world);
            let builtins = from_sources("compiler_builtins"@, features, world);
            &&& !blueprint.track_sysroot
            &&& blueprint.stages.dom() == set![0i64, 1i64]
            &&& blueprint.stages[0] == StageModel {
                crates: seq!["core"@],
                dependencies: seq![("core"@, Doc::Table(core))],
                ..fresh((world.found)(workspace_query(0)))
            }
            &&& blueprint.stages[1] == StageModel {
                crates: seq!["compiler_builtins"@],
                dependencies: seq![("compiler_builtins"@, Doc::Table(builtins))],
                ..fresh((world.found)(workspace_query(1)))
            }
        },
{
    let list = default_dependencies();
    let empty = BlueprintModel { track_sysroot: false, stages: Map::<i64, StageModel>::empty() };
    let features = seq![("features"@, Doc::Array(seq![Doc::String("mem"@)]))];
    let core = from_sources("core"@, Seq::empty(), world);
    let builtins = from_sources("compiler_builtins"@, features, world);
    reveal_strlit("stage");
    reveal_strlit("path");
    reveal_strlit("git");
    reveal_strlit("features");
    reveal_with_fuel(rank, 3);
    reveal_with_fuel(all_placed, 3);
    assert("features"@ != "path"@ && "features"@ != "git"@ && "features"@ != "stage"@);
    assert(settled("compiler_builtins"@, list[0].1, target, world) == Ok::<(i64, Entries), Fault>(
        (1i64, builtins),
    )) by {
        let entry = list[0].1->Table_0;
        lemma_key_lt_irreflexive("stage"@);
        assert(key_lt("features"@, "stage"@));
        assert(rank(entry, "stage"@) == 1) by {
            assert(entry.drop_first()[0].0 == "stage"@);
        }
        assert(removed(entry, "stage"@) =~= features);
    }
    assert(settled("core"@, list[1].1, target, world) == Ok::<(i64, Entries), Fault>(
        (0i64, core),
    )) by {
        let entry = list[1].1->Table_0;
        lemma_key_lt_irreflexive("stage"@);
        assert(removed(entry, "stage"@) =~= Seq::empty());
    }
    assert(list.drop_last().drop_last() =~= Seq::empty());
    assert(list.drop_last().last() == list[0]);
    assert(list.last() == list[1]);
    let one = pushed(
        empty,
        1,
        "compiler_builtins"@,
        builtins,
        (world.found)(workspace_query(1)),
    );
    let two = pushed(one, 0, "core"@, core, (world.found)(workspace_query(0)));
    assert(all_placed(empty, list, target, world) == Ok::<BlueprintModel, Fault>(two));
    assert(two.stages[0].crates =~= seq!["core"@]);
    assert(two.stages[0].dependencies =~= seq![("core"@, Doc::Table(core))]);
    assert(two.stages[1].crates =~= seq!["compiler_builtins"@]);
    assert(two.stages[1].dependencies =~= seq![("compiler_builtins"@, Doc::Table(builtins))]);
    lemma_no_options_no_fault(in_order(two.stages.dom()));
    let result = with_options(two, None)->Ok_0;
    assert(result.stages.dom() =~= set![0i64, 1i64]);
    assert(result.stages[0] == two.stages[0]);
    assert(result.stages[1] == two.stages[1]);
}

/// The crates of a list are placed exactly if each of them can be settled; else the fault is that
/// of the first that cannot.
pub proof fn law_first_fault_counts(
    blueprint: BlueprintModel,
    entries: Entries,
    target: Seq<char>,
    world: World,
)
    ensures
        match all_placed(blueprint, entries, target, world) {
            Ok(_) => forall|i: int|
                0 <= i < entries.len() ==> settled(
                    (#[trigger] entries[i]).0,
                    entries[i].1,
                    target,
                    world,
                ) is Ok,
            Err(fault) => exists|i: int|
                {
                    &&& 0 <= i < entries.len()
                    &&& settled((#[trigger] entries[i]).0, entries[i].1, target, world) == Err::<
                        (i64, Entries),
                        Fault,
                    >(fault)
                    &&& forall|j: int|
                        0 <= j < i ==> settled(
                            (#[trigger] entries[j]).0,
                            entries[j].1,
                            target,
                            world,
                        ) is Ok
                },
        },
    decreases entries.len(),
{
    if entries.len() > 0 {
        let front = entries.drop_last();
        let n = entries.len() - 1;
        law_first_fault_counts(blueprint, front, target, world);
        assert(entries[n] == entries.last());
        match all_placed(blueprint, front, target, world) {
            Ok(_) => {
                assert forall|i: int| 0 <= i < n implies settled(
                    (#[trigger] entries[i]).0,
                    entries[i].1,
                    target,
                    world,
                ) is Ok by {
                    assert(front[i] == entries[i]);
                }
            },
            Err(fault) => {
                let i = choose|i: int|
                    {
                        &&& 0 <= i < front.len()
                        &&& settled((#[trigger] front[i]).0, front[i].1, target, world) == Err::<
                            (i64, Entries),
                            Fault,
                        >(fault)
                        &&& forall|j: int|
                            0 <= j < i ==> settled(
                                (#[trigger] front[j]).0,
                                front[j].1,
                                target,
                                world,
                            ) is Ok
                    };
                assert(front[i] == entries[i]);
                assert forall|j: int| 0 <= j < i implies settled(
                    (#[trigger] entries[j]).0,
                    entries[j].1,
                    target,
                    world,
                ) is Ok by {
                    assert(front[j] == entries[j]);
                }
            },
        }
    }
}

/// The blueprint that an `Xargo.toml` stands for: it is tracked if the file says so; there is a
/// stage where a listed crate belongs to it; and that stage holds these crates in the order of the
/// list, their tables, the patch and the options of its number.
pub proof fn law_blueprint_contents(
    toml: TomlModel,
    target: Seq<char>,
    world: World,
    stage: i64,
)
    requires
        toml.dependencies matches Some(Doc::Table(general)) ==> sorted(general),
        toml.target_dependencies matches Some(Doc::Table(specific)) ==> sorted(specific),
    ensures
        blueprint_of(toml, target, world) matches Ok(blueprint) ==> {
            let list = listed(toml.dependencies, toml.target_dependencies, target)->Ok_0;
            let own = members(list, target, world, stage);
            let options = options_of(toml.xargo, stage);
            &&& listed(toml.dependencies, toml.target_dependencies, target) is Ok
            &&& tracked_by(toml.xargo) == Ok::<bool, Fault>(blueprint.track_sysroot)
            &&& blueprint.stages.contains_key(stage) <==> own.len() > 0
            &&& blueprint.stages.contains_key(stage) ==> {
                &&& blueprint.stages[stage].crates == keys_of(own)
                &&& blueprint.stages[stage].dependencies == own
                &&& blueprint.stages[stage].patch == fresh(
                    (world.found)(workspace_query(stage)),
                ).patch
                &&& staged_api_disabled(options, stage, false) == Ok::<bool, Fault>(
                    blueprint.stages[stage].disable_staged_api,
                )
            }
        },
{
    if let Ok(blueprint) = blueprint_of(toml, target, world) {
        let list = listed(toml.dependencies, toml.target_dependencies, target)->Ok_0;
        let track_sysroot = tracked_by(toml.xargo)->Ok_0;
        let empty = BlueprintModel { track_sysroot, stages: Map::<i64, StageModel>::empty() };
        let placed = all_placed(empty, list, target, world)->Ok_0;
        lemma_listed_sorted(toml, target);
        law_stages_hold_their_members(track_sysroot, list, target, world, stage);
        lemma_all_placed_finite(empty, list, target, world);
        if placed.stages.contains_key(stage) {
            let numbers = in_order(placed.stages.dom());
            lemma_in_order_lists(placed.stages.dom());
            assert(numbers.to_set().contains(stage));
            let i = choose|i: int| 0 <= i < numbers.len() && numbers[i] == stage;
            lemma_no_fault(toml.xargo, numbers, i);
        }
    }
}

/// Placing crates makes finitely many stages.
pub proof fn lemma_all_placed_finite(
    blueprint: BlueprintModel,
    entries: Entries,
    target: Seq<char>,
    world: World,
)
    requires
        blueprint.stages.dom().finite(),
    ensures
        all_placed(blueprint, entries, target, world) matches Ok(b) ==> b.stages.dom().finite(),
    decreases entries.len(),
{
    if entries.len() > 0 {
        lemma_all_placed_finite(blueprint, entries.drop_last(), target, world);
    }
}

proof fn lemma_no_fault(xargo: Option<Doc>, stages: Seq<i64>, i: int)
    requires
        first_fault(xargo, stages) is None,
        0 <= i < stages.len(),
    ensures
        staged_api_disabled(options_of(xargo, stages[i]), stages[i], false) is Ok,
    decreases stages.len(),
{
    if i > 0 {
        assert(stages.drop_first()[i - 1] == stages[i]);
        lemma_no_fault(xargo, stages.drop_first(), i - 1);
    }
}

/// The path in the settled table of a crate: an absolute path as it was given, the canonical form
/// of a relative one, none for a crate that comes from git, and else the path in the sources, if
/// the crate is there.
pub proof fn law_path_of_crate(krate: Seq<char>, entry: Entries, target: Seq<char>, world: World)
    requires
        sorted(entry),
    ensures
        settled(krate, Doc::Table(entry), target, world) matches Ok((_, table)) ==> match lookup(
            entry,
            "path"@,
        ) {
            Some(Doc::String(given)) => if (world.absolute)(
                QueryModel::IsAbsolute { krate, path: given },
            ) {
                lookup(table, "path"@) == Some(Doc::String(given))
            } else {
                &&& (world.found)(QueryModel::Canonicalize { krate, path: given }) matches Some(path)
                &&& lookup(table, "path"@) == Some(Doc::String(path))
            },
            Some(_) => false,
            None => match (world.found)(
                QueryModel::FindLibrary { krate, name: "lib"@ + krate },
            ) {
                Some(path) if !holds_key(entry, "git"@) => lookup(table, "path"@) == Some(
                    Doc::String(path),
                ),
                _ => lookup(table, "path"@) is None,
            },
        },
{
    if let Ok((_, table)) = settled(krate, Doc::Table(entry), target, world) {
        let rest = removed(entry, "stage"@);
        reveal_strlit("stage");
        reveal_strlit("path");
        reveal_strlit("git");
        assert("stage"@ != "path"@);
        assert("stage"@[0] != "git"@[0]);
        law_removed(entry, "stage"@, "path"@);
        law_removed(entry, "stage"@, "git"@);
        assert forall|path: Seq<char>|
            lookup(#[trigger] at_path(rest, path), "path"@) == Some(Doc::String(path)) by {
            law_inserted(rest, "path"@, Doc::String(path), "path"@);
        }
    }
}

} // verus!
