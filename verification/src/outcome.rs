//! What a user finds in the blueprint of an `Xargo.toml`, entry by entry, and why one is refused.
use vstd::prelude::*;

use crate::blueprint::{in_order, lemma_in_order_lists, BlueprintModel, StageModel};
use crate::document::{
    holds_key, law_lookup_finds, law_removed, lemma_rank, lemma_sorted_front, lookup, rank, removed,
    sorted, Doc, Entries,
};
use crate::draft::QueryModel;
use crate::error::Fault;
use crate::listing::{first_fault, lemma_listed_tidy, listed, tidy_toml, tracked_by, TomlModel};
use crate::meaning::{
    all_placed, blueprint_of, keys_of, law_blueprint_contents, law_first_fault_counts,
    law_other_keys_are_passed_on, law_path_of_crate, law_stage_is_not_passed_on,
    law_stages_hold_their_members, lemma_all_placed_finite, members, settled, World,
};
use crate::text::{key_lt, signed_decimal};

verus! {

/// The stage that the entry of a crate asks for: the integer under `stage`, or the first.
pub open spec fn stage_asked(entry: Entries) -> i64 {
    match lookup(entry, "stage"@) {
        Some(Doc::Integer(n)) => n,
        _ => 0,
    }
}

/// Whether there is nothing wrong with the entry of a crate: it is a table, its stage is an integer
/// if there is one, and so is its path a string, which is absolute or can be made canonical.
pub open spec fn acceptable(krate: Seq<char>, doc: Doc, world: World) -> bool {
    &&& doc is Table
    &&& lookup(doc->Table_0, "stage"@) matches Some(stage) ==> stage is Integer
    &&& lookup(doc->Table_0, "path"@) matches Some(path) ==> {
        &&& path is String
        &&& (world.absolute)(QueryModel::IsAbsolute { krate, path: path->String_0 }) || (
        world.found)(QueryModel::Canonicalize { krate, path: path->String_0 }) is Some
    }
}

/// The options that the settings give for a stage, under its number.
pub open spec fn options_under(xargo: Option<Doc>, n: i64) -> Option<Doc> {
    if xargo is Some && xargo->0 is Table {
        lookup(xargo->0->Table_0, "stage"@ + signed_decimal(n as int))
    } else {
        None
    }
}

/// Whether there is nothing wrong with the options of a stage.
pub open spec fn options_fine(xargo: Option<Doc>, n: i64) -> bool {
    options_under(xargo, n) matches Some(options) ==> {
        &&& options is Table
        &&& lookup(options->Table_0, "disable-staged-api"@) matches Some(b) ==> b is Boolean
    }
}

/// A crate is in the stage that its entry asks for, whatever else the entry holds.
pub proof fn law_stage_of_crate(krate: Seq<char>, entry: Entries, target: Seq<char>, world: World)
    ensures
        settled(krate, Doc::Table(entry), target, world) matches Ok((n, _)) ==> {
            ||| lookup(entry, "stage"@) == Some(Doc::Integer(n))
            ||| lookup(entry, "stage"@) is None && n == 0
        },
{
}

/// An entry is taken exactly if there is nothing wrong with it. Else the fault is that it is no
/// table; if it is one, that its stage is no integer; if it is one, that its path is no string; and
/// if it is one, that the path is relative and cannot be made canonical.
pub proof fn law_entry_faults(krate: Seq<char>, doc: Doc, target: Seq<char>, world: World)
    requires
        doc matches Doc::Table(entry) ==> sorted(entry),
    ensures
        settled(krate, doc, target, world) is Ok <==> acceptable(krate, doc, world),
        settled(krate, doc, target, world) matches Err(fault) ==> match doc {
            Doc::Table(entry) => {
                let stage = lookup(entry, "stage"@);
                let path = lookup(entry, "path"@);
                if stage is Some && !(stage->0 is Integer) {
                    fault == (Fault::StageNotInteger { krate })
                } else if path is Some && !(path->0 is String) {
                    fault == (Fault::PathNotString { krate })
                } else {
                    path matches Some(Doc::String(given)) && fault == (Fault::NotCanonical {
                        path: given,
                    })
                }
            },
            _ => fault == (Fault::DependencyNotTable { target, krate }),
        },
{
    if let Doc::Table(entry) = doc {
        reveal_strlit("stage");
        reveal_strlit("path");
        assert("stage"@.len() != "path"@.len());
        law_removed(entry, "stage"@, "path"@);
        let rest = removed(entry, "stage"@);
        assert(lookup(rest, "path"@) == lookup(entry, "path"@));
    }
}

/// The members of a stage are sorted, and each comes from an entry of the list that asks for that
/// stage.
proof fn lemma_members(list: Entries, target: Seq<char>, world: World, n: i64)
    requires
        sorted(list),
    ensures
        sorted(members(list, target, world, n)),
        forall|j: int|
            0 <= j < members(list, target, world, n).len() ==> exists|i: int|
                0 <= i < list.len() && member_from(
                    #[trigger] list[i],
                    #[trigger] members(list, target, world, n)[j],
                    target,
                    world,
                    n,
                ),
    decreases list.len(),
{
    if list.len() > 0 {
        let front = list.drop_last();
        let some = members(front, target, world, n);
        let all = members(list, target, world, n);
        lemma_sorted_front(list);
        lemma_members(front, target, world, n);
        assert(list[list.len() - 1] == list.last());
        assert forall|j: int| 0 <= j < all.len() implies exists|i: int|
            0 <= i < list.len() && member_from(
                #[trigger] list[i],
                #[trigger] all[j],
                target,
                world,
                n,
            ) by {
            if j < some.len() {
                assert(all[j] == some[j]);
                let i = choose|i: int|
                    0 <= i < front.len() && member_from(
                        #[trigger] front[i],
                        some[j],
                        target,
                        world,
                        n,
                    );
                assert(list[i] == front[i]);
            } else {
                assert(member_from(list[list.len() - 1], all[j], target, world, n));
            }
        }
        assert forall|a: int, b: int| 0 <= a < b < all.len() implies key_lt(
            #[trigger] all[a].0,
            #[trigger] all[b].0,
        ) by {
            assert(all[a] == some[a]);
            if b < some.len() {
                assert(all[b] == some[b]);
            } else {
                let i = choose|i: int|
                    0 <= i < front.len() && member_from(
                        #[trigger] front[i],
                        some[a],
                        target,
                        world,
                        n,
                    );
                assert(list[i] == front[i]);
                assert(key_lt(list[i].0, list[list.len() - 1].0));
            }
        }
    }
}

/// Whether a member of a stage comes from an entry of a list.
spec fn member_from(
    entry: (Seq<char>, Doc),
    member: (Seq<char>, Doc),
    target: Seq<char>,
    world: World,
    n: i64,
) -> bool {
    &&& member.0 == entry.0
    &&& settled(entry.0, entry.1, target, world) matches Ok((stage, table)) && stage == n
        && member.1 == Doc::Table(table)
}

/// An entry that asks for a stage is among its members.
proof fn lemma_is_member(list: Entries, target: Seq<char>, world: World, n: i64, i: int)
    requires
        0 <= i < list.len(),
        settled(list[i].0, list[i].1, target, world) is Ok,
        settled(list[i].0, list[i].1, target, world)->Ok_0.0 == n,
    ensures
        exists|j: int|
            0 <= j < members(list, target, world, n).len() && #[trigger] members(
                list,
                target,
                world,
                n,
            )[j] == (list[i].0, Doc::Table(settled(list[i].0, list[i].1, target, world)->Ok_0.1)),
    decreases list.len(),
{
    let front = list.drop_last();
    let some = members(front, target, world, n);
    let all = members(list, target, world, n);
    if i < front.len() {
        assert(front[i] == list[i]);
        lemma_is_member(front, target, world, n, i);
        let j = choose|j: int|
            0 <= j < some.len() && #[trigger] some[j] == (
                list[i].0,
                Doc::Table(settled(list[i].0, list[i].1, target, world)->Ok_0.1),
            );
        assert(all[j] == some[j]);
    } else {
        assert(all[some.len() as int].0 == list[i].0);
    }
}

/// What is found under a key is the value of an entry of that key.
proof fn lemma_found_at(entries: Entries, key: Seq<char>)
    ensures
        lookup(entries, key) matches Some(doc) ==> exists|i: int|
            0 <= i < entries.len() && #[trigger] entries[i] == (key, doc),
{
    lemma_rank(entries, key);
    if holds_key(entries, key) {
        assert(entries[rank(entries, key)] == (key, entries[rank(entries, key)].1));
    }
}

/// In a blueprint every listed crate is in the stage that its entry asks for, and in no other. Its
/// table says nothing of stages; it has the path that was given if that is absolute, its canonical
/// form if it is relative, and where none was given that in the sources, if the crate is there and
/// does not come from git; and it holds all else that the entry holds.
pub proof fn law_listed_crate(
    toml: TomlModel,
    target: Seq<char>,
    world: World,
    i: int,
    other: i64,
    key: Seq<char>,
)
    requires
        tidy_toml(toml),
        blueprint_of(toml, target, world) is Ok,
        listed(toml.dependencies, toml.target_dependencies, target) matches Ok(list) && 0 <= i
            < list.len(),
        key != "stage"@,
        key != "path"@,
    ensures
        ({
            let stages = blueprint_of(toml, target, world)->Ok_0.stages;
            let (krate, doc) = listed(toml.dependencies, toml.target_dependencies, target)->Ok_0[i];
            &&& doc matches Doc::Table(entry) && {
                let n = stage_asked(entry);
                &&& stages.contains_key(n)
                &&& stages[n].crates.contains(krate)
                &&& lookup(stages[n].dependencies, krate) matches Some(Doc::Table(table)) && {
                    &&& lookup(table, "stage"@) is None
                    &&& lookup(table, key) == lookup(entry, key)
                    &&& match lookup(entry, "path"@) {
                        Some(Doc::String(given)) => if (world.absolute)(
                            QueryModel::IsAbsolute { krate, path: given },
                        ) {
                            lookup(table, "path"@) == Some(Doc::String(given))
                        } else {
                            &&& (world.found)(
                                QueryModel::Canonicalize { krate, path: given },
                            ) matches Some(path)
                            &&& lookup(table, "path"@) == Some(Doc::String(path))
                        },
                        Some(_) => false,
                        None => match (world.found)(
                            QueryModel::FindLibrary { krate, name: "lib"@ + krate },
                        ) {
                            Some(path) if lookup(entry, "git"@) is None => lookup(table, "path"@)
                                == Some(Doc::String(path)),
                            _ => lookup(table, "path"@) is None,
                        },
                    }
                }
                &&& other != n && stages.contains_key(other) ==> {
                    &&& !stages[other].crates.contains(krate)
                    &&& lookup(stages[other].dependencies, krate) is None
                }
            }
        }),
{
    let blueprint = blueprint_of(toml, target, world)->Ok_0;
    let list = listed(toml.dependencies, toml.target_dependencies, target)->Ok_0;
    let (krate, doc) = list[i];
    lemma_listed_tidy(toml, target);
    let track_sysroot = tracked_by(toml.xargo)->Ok_0;
    let empty = BlueprintModel { track_sysroot, stages: Map::<i64, StageModel>::empty() };
    law_first_fault_counts(empty, list, target, world);
    assert(settled(list[i].0, list[i].1, target, world) is Ok);
    let entry = doc->Table_0;
    let (n, table) = settled(krate, doc, target, world)->Ok_0;
    law_stage_of_crate(krate, entry, target, world);
    law_stage_is_not_passed_on(krate, doc, target, world);
    law_other_keys_are_passed_on(krate, doc, target, world, key);
    law_path_of_crate(krate, entry, target, world);
    law_blueprint_contents(toml, target, world, n);
    law_blueprint_contents(toml, target, world, other);
    let own = members(list, target, world, n);
    lemma_members(list, target, world, n);
    lemma_is_member(list, target, world, n, i);
    let j = choose|j: int|
        0 <= j < own.len() && #[trigger] own[j] == (krate, Doc::Table(table));
    assert(keys_of(own)[j] == krate);
    law_lookup_finds(own, j);
    if other != n && blueprint.stages.contains_key(other) {
        let others = members(list, target, world, other);
        lemma_members(list, target, world, other);
        assert forall|k: int| 0 <= k < others.len() implies (#[trigger] others[k]).0 != krate by {
            let m = choose|m: int|
                0 <= m < list.len() && member_from(
                    #[trigger] list[m],
                    others[k],
                    target,
                    world,
                    other,
                );
            if others[k].0 == krate {
                law_lookup_finds(list, m);
                law_lookup_finds(list, i);
            }
        }
        if keys_of(others).contains(krate) {
            let k = choose|k: int| 0 <= k < others.len() && keys_of(others)[k] == krate;
            assert(others[k].0 == krate);
        }
        lemma_found_at(others, krate);
    }
}

/// A stage of a blueprint holds listed crates only, in the order of their names, and its table of
/// dependencies names the same crates. There is no stage without a crate.
pub proof fn law_crates_of_stage(
    toml: TomlModel,
    target: Seq<char>,
    world: World,
    n: i64,
    j: int,
)
    requires
        tidy_toml(toml),
        blueprint_of(toml, target, world) is Ok,
        blueprint_of(toml, target, world)->Ok_0.stages.contains_key(n),
    ensures
        ({
            let stage = blueprint_of(toml, target, world)->Ok_0.stages[n];
            &&& stage.crates.len() > 0
            &&& stage.crates.len() == stage.dependencies.len()
            &&& sorted(stage.dependencies)
            &&& 0 <= j < stage.crates.len() ==> {
                &&& stage.crates[j] == stage.dependencies[j].0
                &&& listed(toml.dependencies, toml.target_dependencies, target) matches Ok(list)
                    && lookup(list, stage.crates[j]) matches Some(Doc::Table(entry)) && stage_asked(
                    entry,
                ) == n
            }
        }),
{
    let list = listed(toml.dependencies, toml.target_dependencies, target)->Ok_0;
    lemma_listed_tidy(toml, target);
    law_blueprint_contents(toml, target, world, n);
    lemma_members(list, target, world, n);
    let own = members(list, target, world, n);
    if 0 <= j < own.len() {
        let i = choose|i: int|
            0 <= i < list.len() && member_from(#[trigger] list[i], own[j], target, world, n);
        law_lookup_finds(list, i);
        law_stage_of_crate(list[i].0, list[i].1->Table_0, target, world);
    }
}

/// A blueprint is tracked exactly if the settings say so. The staged API is disabled in a stage
/// exactly if the options under its number say so. A stage is patched exactly if the sources have a
/// `rustc-std-workspace-core`, to its path.
pub proof fn law_settings_of_blueprint(toml: TomlModel, target: Seq<char>, world: World, n: i64)
    requires
        tidy_toml(toml),
        blueprint_of(toml, target, world) is Ok,
    ensures
        ({
            let blueprint = blueprint_of(toml, target, world)->Ok_0;
            let stage = blueprint.stages[n];
            let workspace = (world.found)(
                QueryModel::FindWorkspace { stage: n, name: "tools/rustc-std-workspace-core"@ },
            );
            &&& blueprint.track_sysroot <==> (toml.xargo matches Some(Doc::Table(settings)) && lookup(
                settings,
                "track-sysroot"@,
            ) == Some(Doc::Boolean(true)))
            &&& blueprint.stages.contains_key(n) ==> {
                &&& stage.disable_staged_api <==> (options_under(toml.xargo, n) matches Some(
                    Doc::Table(options),
                ) && lookup(options, "disable-staged-api"@) == Some(Doc::Boolean(true)))
                &&& stage.patch is Some <==> workspace is Some
                &&& workspace matches Some(path) ==> stage.patch == Some(
                    seq![
                        (
                            "crates-io"@,
                            Doc::Table(
                                seq![
                                    (
                                        "rustc-std-workspace-core"@,
                                        Doc::Table(seq![("path"@, Doc::String(path))]),
                                    ),
                                ],
                            ),
                        ),
                    ],
                )
            }
        }),
{
    law_blueprint_contents(toml, target, world, n);
}

/// The first of some stages whose options have a fault.
proof fn lemma_first_fault(xargo: Option<Doc>, stages: Seq<i64>)
    ensures
        match first_fault(xargo, stages) {
            None => forall|i: int|
                0 <= i < stages.len() ==> options_fine(xargo, #[trigger] stages[i]),
            Some(fault) => exists|i: int|
                {
                    &&& 0 <= i < stages.len()
                    &&& !options_fine(xargo, #[trigger] stages[i])
                    &&& option_fault(xargo, stages[i], fault)
                    &&& forall|j: int| 0 <= j < i ==> options_fine(xargo, #[trigger] stages[j])
                },
        },
    decreases stages.len(),
{
    if stages.len() > 0 {
        let rest = stages.drop_first();
        lemma_first_fault(xargo, rest);
        if options_fine(xargo, stages[0]) {
            match first_fault(xargo, rest) {
                None => {
                    assert forall|i: int| 0 <= i < stages.len() implies options_fine(
                        xargo,
                        #[trigger] stages[i],
                    ) by {
                        if i > 0 {
                            assert(rest[i - 1] == stages[i]);
                        }
                    }
                },
                Some(fault) => {
                    let k = choose|k: int|
                        {
                            &&& 0 <= k < rest.len()
                            &&& !options_fine(xargo, #[trigger] rest[k])
                            &&& option_fault(xargo, rest[k], fault)
                            &&& forall|j: int|
                                0 <= j < k ==> options_fine(xargo, #[trigger] rest[j])
                        };
                    assert(stages[k + 1] == rest[k]);
                    assert forall|j: int| 0 <= j < k + 1 implies options_fine(
                        xargo,
                        #[trigger] stages[j],
                    ) by {
                        if j > 0 {
                            assert(rest[j - 1] == stages[j]);
                        }
                    }
                },
            }
        } else {
            assert(option_fault(xargo, stages[0], first_fault(xargo, stages)->0));
        }
    }
}

/// Whether a fault tells what is wrong with the options of a stage.
pub open spec fn option_fault(xargo: Option<Doc>, n: i64, fault: Fault) -> bool {
    if options_under(xargo, n)->0 is Table {
        fault == (Fault::StagedApiNotBoolean { stage: n })
    } else {
        fault == (Fault::StageOptionsNotTable { stage: n })
    }
}

/// There is a blueprint exactly if there is nothing wrong: with the lists, with the setting that
/// tracks the sysroot, with any entry, and with the options of any stage that a listed crate asks
/// for. These are looked at in that order, entries in the order of their names and stages in that of
/// their numbers, and what is wrong first is the fault.
pub proof fn law_first_thing_wrong(toml: TomlModel, target: Seq<char>, world: World)
    requires
        tidy_toml(toml),
    ensures
        match (listed(toml.dependencies, toml.target_dependencies, target), tracked_by(toml.xargo))
        {
            (Err(fault), _) => blueprint_of(toml, target, world) == Err::<BlueprintModel, Fault>(
                fault,
            ),
            (Ok(_), Err(fault)) => blueprint_of(toml, target, world) == Err::<
                BlueprintModel,
                Fault,
            >(fault),
            (Ok(list), Ok(_)) => match blueprint_of(toml, target, world) {
                Ok(_) => forall|i: int|
                    0 <= i < list.len() ==> acceptable((#[trigger] list[i]).0, list[i].1, world)
                        && options_fine(toml.xargo, stage_asked(list[i].1->Table_0)),
                Err(fault) => exists|i: int|
                    0 <= i < list.len() && wrong_at(
                        list,
                        #[trigger] list[i],
                        i,
                        toml.xargo,
                        target,
                        world,
                        fault,
                    ),
            },
        },
{
    let listing = listed(toml.dependencies, toml.target_dependencies, target);
    if listing is Ok && tracked_by(toml.xargo) is Ok {
        let list = listing->Ok_0;
        let track_sysroot = tracked_by(toml.xargo)->Ok_0;
        let empty = BlueprintModel { track_sysroot, stages: Map::<i64, StageModel>::empty() };
        lemma_listed_tidy(toml, target);
        law_first_fault_counts(empty, list, target, world);
        assert forall|i: int| 0 <= i < list.len() implies (settled(
            (#[trigger] list[i]).0,
            list[i].1,
            target,
            world,
        ) is Ok <==> acceptable(list[i].0, list[i].1, world)) by {
            law_entry_faults(list[i].0, list[i].1, target, world);
        }
        match all_placed(empty, list, target, world) {
            Err(fault) => {
                let i = choose|i: int|
                    {
                        &&& 0 <= i < list.len()
                        &&& settled((#[trigger] list[i]).0, list[i].1, target, world) == Err::<
                            (i64, Entries),
                            Fault,
                        >(fault)
                        &&& forall|j: int|
                            0 <= j < i ==> settled(
                                (#[trigger] list[j]).0,
                                list[j].1,
                                target,
                                world,
                            ) is Ok
                    };
                law_entry_faults(list[i].0, list[i].1, target, world);
                assert(wrong_at(list, list[i], i, toml.xargo, target, world, fault));
            },
            Ok(placed) => {
                lemma_all_placed_finite(empty, list, target, world);
                let numbers = in_order(placed.stages.dom());
                lemma_in_order_lists(placed.stages.dom());
                lemma_first_fault(toml.xargo, numbers);
                assert forall|i: int| 0 <= i < list.len() implies numbers.contains(
                    stage_asked((#[trigger] list[i]).1->Table_0),
                ) by {
                    let n = stage_asked(list[i].1->Table_0);
                    law_stage_of_crate(list[i].0, list[i].1->Table_0, target, world);
                    law_stages_hold_their_members(track_sysroot, list, target, world, n);
                    lemma_is_member(list, target, world, n, i);
                    assert(placed.stages.contains_key(n));
                    assert(numbers.to_set().contains(n));
                }
                match first_fault(toml.xargo, numbers) {
                    None => {
                        assert forall|i: int| 0 <= i < list.len() implies acceptable(
                            (#[trigger] list[i]).0,
                            list[i].1,
                            world,
                        ) && options_fine(toml.xargo, stage_asked(list[i].1->Table_0)) by {
                            let n = stage_asked(list[i].1->Table_0);
                            assert(numbers.contains(n));
                            let k = choose|k: int| 0 <= k < numbers.len() && numbers[k] == n;
                            assert(options_fine(toml.xargo, numbers[k]));
                        }
                    },
                    Some(fault) => {
                        let k = choose|k: int|
                            {
                                &&& 0 <= k < numbers.len()
                                &&& !options_fine(toml.xargo, #[trigger] numbers[k])
                                &&& option_fault(toml.xargo, numbers[k], fault)
                                &&& forall|j: int|
                                    0 <= j < k ==> options_fine(toml.xargo, #[trigger] numbers[j])
                            };
                        let n = numbers[k];
                        assert(numbers.to_set().contains(n));
                        law_stages_hold_their_members(track_sysroot, list, target, world, n);
                        lemma_members(list, target, world, n);
                        let own = members(list, target, world, n);
                        let i = choose|i: int|
                            0 <= i < list.len() && member_from(
                                #[trigger] list[i],
                                own[0],
                                target,
                                world,
                                n,
                            );
                        law_stage_of_crate(list[i].0, list[i].1->Table_0, target, world);
                        assert forall|j: int|
                            0 <= j < list.len() && stage_asked((#[trigger] list[j]).1->Table_0)
                                < n implies options_fine(
                            toml.xargo,
                            stage_asked(list[j].1->Table_0),
                        ) by {
                            let m = stage_asked(list[j].1->Table_0);
                            assert(numbers.contains(m));
                            let q = choose|q: int| 0 <= q < numbers.len() && numbers[q] == m;
                            assert(q < k);
                            assert(options_fine(toml.xargo, numbers[q]));
                        }
                        assert(wrong_at(list, list[i], i, toml.xargo, target, world, fault));
                    },
                }
            },
        }
    }
}

/// Whether a fault tells the first thing that is wrong with a list: something in the entry at that
/// position, if nothing is wrong with the entries before it; or, if there is nothing wrong with any
/// entry, something in the options of the stage that it asks for, if nothing is wrong with those of
/// any stage before that.
pub open spec fn wrong_at(
    list: Entries,
    entry: (Seq<char>, Doc),
    i: int,
    xargo: Option<Doc>,
    target: Seq<char>,
    world: World,
    fault: Fault,
) -> bool {
    let (krate, doc) = entry;
    if !acceptable(krate, doc, world) {
        &&& forall|j: int|
            0 <= j < i ==> acceptable((#[trigger] list[j]).0, list[j].1, world)
        &&& if !(doc is Table) {
            fault == (Fault::DependencyNotTable { target, krate })
        } else {
            let stage = lookup(doc->Table_0, "stage"@);
            let path = lookup(doc->Table_0, "path"@);
            if stage is Some && !(stage->0 is Integer) {
                fault == (Fault::StageNotInteger { krate })
            } else if path is Some && !(path->0 is String) {
                fault == (Fault::PathNotString { krate })
            } else {
                fault == (Fault::NotCanonical { path: path->0->String_0 })
            }
        }
    } else {
        let n = stage_asked(doc->Table_0);
        &&& forall|j: int|
            0 <= j < list.len() ==> acceptable((#[trigger] list[j]).0, list[j].1, world)
        &&& !options_fine(xargo, n)
        &&& forall|j: int|
            0 <= j < list.len() && stage_asked((#[trigger] list[j]).1->Table_0) < n
                ==> options_fine(xargo, stage_asked(list[j].1->Table_0))
        &&& option_fault(xargo, n, fault)
    }
}

} // verus!
