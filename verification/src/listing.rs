//! What an `Xargo.toml` asks for.
use vstd::prelude::*;
use vstd::string::*;

use crate::blueprint::{in_order, lists, Blueprint, BlueprintModel, StageModel};
use crate::document::{
    doc_of, entries_of, holds_key, inserted, law_inserted, law_lookup_finds, lemma_inserted_valid,
    lemma_rank, lemma_rank_unique, lemma_sorted_front, lookup, mixed, rank, sorted, valid, Doc, Entries, Item, Table,
};
use crate::error::{Error, Fault};
use crate::text::{key_lt, render_i64, signed_decimal};

verus! {

/// What an `Xargo.toml` says about the sysroot of one target.
#[derive(Debug)]
pub struct Toml {
    /// `dependencies`
    pub dependencies: Option<Item>,
    /// `target.<triple>.dependencies`, for the triple of the target
    pub target_dependencies: Option<Item>,
    /// `xargo`, the settings of the sysroot and of its stages
    pub xargo: Option<Item>,
}

/// What a `Toml` says.
pub struct TomlModel {
    pub dependencies: Option<Doc>,
    pub target_dependencies: Option<Doc>,
    pub xargo: Option<Doc>,
}

impl View for Toml {
    type V = TomlModel;

    open spec fn view(&self) -> TomlModel {
        TomlModel {
            dependencies: doc_of(self.dependencies),
            target_dependencies: doc_of(self.target_dependencies),
            xargo: doc_of(self.xargo),
        }
    }
}

/// What a project without an `Xargo.toml` says.
pub open spec fn silent() -> TomlModel {
    TomlModel { dependencies: None, target_dependencies: None, xargo: None }
}

/// What an optional `Xargo.toml` says.
pub open spec fn said(toml: Option<Toml>) -> TomlModel {
    match toml {
        Some(t) => t@,
        None => silent(),
    }
}

/// Whether the lists of dependencies are valid.
pub open spec fn valid_toml(toml: TomlModel) -> bool {
    &&& toml.dependencies matches Some(d) ==> valid(d)
    &&& toml.target_dependencies matches Some(d) ==> valid(d)
}

/// The dependencies of a project that lists none.
pub open spec fn default_dependencies() -> Entries {
    seq![
        (
            "compiler_builtins"@,
            Doc::Table(
                seq![
                    ("features"@, Doc::Array(seq![Doc::String("mem"@)])),
                    ("stage"@, Doc::Integer(1)),
                ],
            ),
        ),
        ("core"@, Doc::Table(seq![("stage"@, Doc::Integer(0))])),
    ]
}

/// Two lists of dependencies in one, unless a crate is in both.
pub open spec fn combined(general: Entries, specific: Entries) -> Result<Entries, Fault>
    decreases specific.len(),
{
    if specific.len() == 0 {
        Ok(general)
    } else {
        match combined(general, specific.drop_last()) {
            Err(fault) => Err(fault),
            Ok(list) => {
                let entry = specific.last();
                if holds_key(list, entry.0) {
                    Err(Fault::DuplicateDependency { krate: entry.0 })
                } else {
                    Ok(inserted(list, entry.0, entry.1))
                }
            },
        }
    }
}

/// The dependencies of a sysroot.
pub open spec fn listed(
    general: Option<Doc>,
    specific: Option<Doc>,
    target: Seq<char>,
) -> Result<Entries, Fault> {
    match (general, specific) {
        (Some(g), Some(s)) => match g {
            Doc::Table(general) => match s {
                Doc::Table(specific) => combined(general, specific),
                _ => Err(Fault::TargetDependenciesNotTable { target }),
            },
            _ => Err(Fault::DependenciesNotTable),
        },
        (Some(Doc::Table(list)), None) => Ok(list),
        (None, Some(Doc::Table(list))) => Ok(list),
        (None, None) => Ok(default_dependencies()),
        _ => Err(Fault::ListNotTable { target }),
    }
}

/// A setting of the sysroot.
pub open spec fn setting(xargo: Option<Doc>, key: Seq<char>) -> Option<Doc> {
    match xargo {
        Some(Doc::Table(table)) => lookup(table, key),
        _ => None,
    }
}

/// Whether the sysroot is tracked.
pub open spec fn tracked_by(xargo: Option<Doc>) -> Result<bool, Fault> {
    match setting(xargo, "track-sysroot"@) {
        None => Ok(false),
        Some(Doc::Boolean(b)) => Ok(b),
        Some(_) => Err(Fault::TrackSysrootNotBoolean),
    }
}

/// The keys of the default dependencies and of their tables ascend.
proof fn lemma_default_order()
    ensures
        key_lt("compiler_builtins"@, "core"@),
        !key_lt("core"@, "compiler_builtins"@),
        "compiler_builtins"@ != "core"@,
        key_lt("features"@, "stage"@),
        "features"@ != "stage"@,
{
    reveal_strlit("core");
    reveal_strlit("compiler_builtins");
    reveal_strlit("features");
    reveal_strlit("stage");
    let a = "compiler_builtins"@;
    let b = "core"@;
    reveal_with_fuel(key_lt, 4);
    assert(a.drop_first().drop_first()[0] == 'm');
    assert(b.drop_first().drop_first()[0] == 'r');
}

fn default_list() -> (r: Table)
    ensures
        r@ == default_dependencies(),
{
    let mut core: Table = Table::new();
    core.insert("stage".to_owned(), Item::Integer(0));
    let mut features: Vec<Item> = Vec::new();
    features.push(Item::String("mem".to_owned()));
    let mut builtins: Table = Table::new();
    let features: Item = Item::Array(features);
    assert(features@ == Doc::Array(seq![Doc::String("mem"@)])) by {
        reveal_with_fuel(Item::view, 2);
        assert(features@->Array_0 =~= seq![Doc::String("mem"@)]);
    }
    builtins.insert("features".to_owned(), features);
    builtins.insert("stage".to_owned(), Item::Integer(1));
    proof {
        lemma_default_order();
        reveal_with_fuel(rank, 2);
        assert(core@ =~= seq![("stage"@, Doc::Integer(0))]);
        assert(builtins@ =~= seq![
            ("features"@, Doc::Array(seq![Doc::String("mem"@)])),
            ("stage"@, Doc::Integer(1)),
        ]);
    }
    let mut r: Table = Table::new();
    r.insert("core".to_owned(), Item::Table(core));
    r.insert("compiler_builtins".to_owned(), Item::Table(builtins));
    proof {
        lemma_default_order();
        reveal_with_fuel(rank, 2);
        assert(r@ =~= default_dependencies());
    }
    r
}

/// Collects the dependencies of a sysroot from the general list and the one of the target.
pub fn list_dependencies(general: Option<Item>, specific: Option<Item>, target: &str) -> (r: Result<
    Table,
    Error,
>)
    ensures
        match r {
            Ok(list) => listed(doc_of(general), doc_of(specific), target@) == Ok::<Entries, Fault>(
                list@,
            ),
            Err(e) => listed(doc_of(general), doc_of(specific), target@) == Err::<Entries, Fault>(
                e@,
            ),
        },
{
    match (general, specific) {
        (Some(g), Some(s)) => {
            let mut list: Table = match g {
                Item::Table(list) => list,
                _ => return Err(Error::DependenciesNotTable),
            };
            let mut more: Vec<(String, Item)> = match s {
                Item::Table(more) => more.into_entries(),
                _ => return Err(Error::TargetDependenciesNotTable { target: target.to_owned() }),
            };
            let ghost first = list@;
            let ghost all = entries_of(more@);
            let ghost mut done: int = 0;
            assert(all.take(0) =~= Entries::empty());
            assert(all.skip(0) =~= all);
            while more.len() > 0
                invariant
                    0 <= done <= all.len(),
                    entries_of(more@) == all.skip(done),
                    combined(first, all.take(done)) == Ok::<Entries, Fault>(list@),
                    general == Some(g),
                    specific == Some(s),
                    g@ == Doc::Table(first),
                    s@ == Doc::Table(all),
                decreases more@.len(),
            {
                let ghost before = more@;
                let entry: (String, Item) = more.remove(0);
                let name: String = entry.0.clone();
                proof {
                    assert(entries_of(before).len() == before.len());
                    assert(entries_of(before)[0] == all.skip(done)[0]);
                    assert(all.take(done + 1).drop_last() =~= all.take(done));
                    assert(all.take(done + 1).last() == all[done]);
                    assert(entries_of(more@) =~= entries_of(before).drop_first());
                    assert(all.skip(done).drop_first() =~= all.skip(done + 1));
                }
                let earlier: Option<Item> = list.insert(entry.0, entry.1);
                if earlier.is_some() {
                    proof {
                        lemma_combined_refused(
                            first,
                            all,
                            done + 1,
                            Fault::DuplicateDependency { krate: name@ },
                        );
                    }
                    return Err(Error::DuplicateDependency { krate: name });
                }
                proof {
                    done = done + 1;
                }
            }
            assert(all.take(done) =~= all) by {
                assert(entries_of(more@).len() == 0);
            }
            Ok(list)
        },
        (Some(value), None) => match value {
            Item::Table(list) => Ok(list),
            _ => Err(Error::ListNotTable { target: target.to_owned() }),
        },
        (None, Some(value)) => match value {
            Item::Table(list) => Ok(list),
            _ => Err(Error::ListNotTable { target: target.to_owned() }),
        },
        (None, None) => Ok(default_list()),
    }
}

proof fn lemma_combined_refused(general: Entries, specific: Entries, n: int, fault: Fault)
    requires
        0 <= n <= specific.len(),
        combined(general, specific.take(n)) == Err::<Entries, Fault>(fault),
    ensures
        combined(general, specific) == Err::<Entries, Fault>(fault),
    decreases specific.len() - n,
{
    if n == specific.len() {
        assert(specific.take(n) =~= specific);
    } else {
        assert(specific.take(n + 1).drop_last() =~= specific.take(n));
        lemma_combined_refused(general, specific, n + 1, fault);
    }
}

fn find_setting<'a>(xargo: &'a Option<Item>, key: &str) -> (r: Option<&'a Item>)
    ensures
        match r {
            Some(item) => setting(doc_of(*xargo), key@) == Some(item@),
            None => setting(doc_of(*xargo), key@) is None,
        },
{
    match xargo {
        Some(Item::Table(table)) => table.get(key),
        _ => None,
    }
}

/// Reads whether the sysroot is tracked.
pub fn read_track_sysroot(xargo: &Option<Item>) -> (r: Result<bool, Error>)
    ensures
        match r {
            Ok(b) => tracked_by(doc_of(*xargo)) == Ok::<bool, Fault>(b),
            Err(e) => tracked_by(doc_of(*xargo)) == Err::<bool, Fault>(e@),
        },
{
    match find_setting(xargo, "track-sysroot") {
        Some(Item::Boolean(b)) => Ok(*b),
        Some(_) => Err(Error::TrackSysrootNotBoolean),
        None => Ok(false),
    }
}

/// The options of a stage.
pub open spec fn options_of(xargo: Option<Doc>, stage: i64) -> Option<Doc> {
    setting(xargo, "stage"@ + signed_decimal(stage as int))
}

/// Whether the staged API is disabled in a stage that has these options. A stage without options
/// keeps its `default`.
pub open spec fn staged_api_disabled(options: Option<Doc>, stage: i64, default: bool) -> Result<
    bool,
    Fault,
> {
    match options {
        None => Ok(default),
        Some(Doc::Table(table)) => match lookup(table, "disable-staged-api"@) {
            None => Ok(false),
            Some(Doc::Boolean(b)) => Ok(b),
            Some(_) => Err(Fault::StagedApiNotBoolean { stage }),
        },
        Some(_) => Err(Fault::StageOptionsNotTable { stage }),
    }
}

/// The fault in the options of the first of these stages that has one.
pub open spec fn first_fault(xargo: Option<Doc>, stages: Seq<i64>) -> Option<Fault>
    decreases stages.len(),
{
    if stages.len() == 0 {
        None
    } else {
        match staged_api_disabled(options_of(xargo, stages[0]), stages[0], false) {
            Err(fault) => Some(fault),
            Ok(_) => first_fault(xargo, stages.drop_first()),
        }
    }
}

/// A stage with the options that are given for its number.
pub open spec fn stage_with_options(
    xargo: Option<Doc>,
    number: i64,
    stage: StageModel,
) -> StageModel {
    StageModel {
        disable_staged_api: staged_api_disabled(
            options_of(xargo, number),
            number,
            stage.disable_staged_api,
        )->Ok_0,
        ..stage
    }
}

/// A blueprint whose stages have the options that are given for their numbers.
pub open spec fn with_options(blueprint: BlueprintModel, xargo: Option<Doc>) -> Result<
    BlueprintModel,
    Fault,
> {
    match first_fault(xargo, in_order(blueprint.stages.dom())) {
        Some(fault) => Err(fault),
        None => Ok(
            BlueprintModel {
                stages: Map::new(
                    |n: i64| blueprint.stages.contains_key(n),
                    |n: i64| stage_with_options(xargo, n, blueprint.stages[n]),
                ),
                ..blueprint
            },
        ),
    }
}

fn find_options(xargo: &Option<Item>, stage: i64) -> (r: Option<&Item>)
    ensures
        match r {
            Some(item) => options_of(doc_of(*xargo), stage) == Some(item@),
            None => options_of(doc_of(*xargo), stage) is None,
        },
{
    let mut key: String = "stage".to_owned();
    let number: String = render_i64(stage);
    key.append(number.as_str());
    find_setting(xargo, key.as_str())
}

/// Gives the stages of a blueprint their options.
pub fn apply_stage_options(blueprint: Blueprint, xargo: &Option<Item>) -> (r: Result<
    Blueprint,
    Error,
>)
    ensures
        match r {
            Ok(b) => with_options(blueprint@, doc_of(*xargo)) == Ok::<BlueprintModel, Fault>(
                b@,
            ),
            Err(e) => with_options(blueprint@, doc_of(*xargo)) == Err::<BlueprintModel, Fault>(
                e@,
            ),
        },
{
    let ghost first = blueprint@;
    let ghost all = doc_of(*xargo);
    let mut work: Blueprint = blueprint;
    let numbers: Vec<i64> = work.stage_numbers();
    let mut i: usize = 0;
    assert(numbers@.skip(0) =~= numbers@);
    assert(work@.stages =~= half_way(first.stages, all, numbers@.take(0)));
    while i < numbers.len()
        invariant
            i <= numbers@.len(),
            all == doc_of(*xargo),
            first == blueprint@,
            numbers@ == in_order(first.stages.dom()),
            lists(numbers@, first.stages.dom()),
            work@.track_sysroot == first.track_sysroot,
            work@.stages == half_way(first.stages, all, numbers@.take(i as int)),
            first_fault(all, numbers@) == first_fault(all, numbers@.skip(i as int)),
        decreases numbers@.len() - i,
    {
        let n: i64 = numbers[i];
        assert(numbers@.skip(i as int).drop_first() =~= numbers@.skip(i + 1));
        assert(numbers@.to_set().contains(n));
        assert(!numbers@.take(i as int).contains(n));
        assert(work@.stages.contains_key(n));
        assert(work@.stages[n] == first.stages[n]);
        let ghost before = work@.stages;
        if let Some(item) = find_options(xargo, n) {
            let disabled: bool = match item {
                Item::Table(table) => match table.get("disable-staged-api") {
                    Some(Item::Boolean(b)) => *b,
                    Some(_) => return Err(Error::StagedApiNotBoolean { stage: n }),
                    None => false,
                },
                _ => return Err(Error::StageOptionsNotTable { stage: n }),
            };
            if let Some(mut stage) = work.stages.remove(&n) {
                stage.stage_options.disable_staged_api = disabled;
                work.stages.insert(n, stage);
            }
        }
        proof {
            let next = numbers@.take(i + 1);
            assert(next =~= numbers@.take(i as int).push(n));
            assert forall|k: i64| next.contains(k) <==> numbers@.take(i as int).contains(k) || k
                == n by {
                if numbers@.take(i as int).contains(k) {
                    let j = choose|j: int|
                        0 <= j < i && numbers@.take(i as int)[j] == k;
                    assert(next[j] == k);
                }
                if k == n {
                    assert(next[i as int] == k);
                }
            }
            assert(work@.stages.contains_key(n));
            assert(work@.stages[n] =~= stage_with_options(all, n, first.stages[n]));
            let goal = half_way(first.stages, all, next);
            assert forall|k: i64| work@.stages.contains_key(k) <==> goal.contains_key(k) by {
                assert(work@.stages.contains_key(k) <==> before.contains_key(k));
            }
            assert forall|k: i64| goal.contains_key(k) implies work@.stages[k] == goal[k] by {
                if k != n {
                    assert(work@.stages[k] == before[k]);
                    assert(next.contains(k) <==> numbers@.take(i as int).contains(k));
                } else {
                    assert(next.contains(n));
                }
            }
            assert(work@.stages =~= half_way(first.stages, all, next));
        }
        i = i + 1;
    }
    proof {
        assert(numbers@.take(i as int) =~= numbers@);
        assert forall|k: i64| first.stages.contains_key(k) implies numbers@.contains(k) by {
            assert(numbers@.to_set().contains(k));
        }
        assert(work@.stages =~= with_options(first, all)->Ok_0.stages);
    }
    Ok(work)
}

spec fn half_way(
    stages: Map<i64, StageModel>,
    xargo: Option<Doc>,
    done: Seq<i64>,
) -> Map<i64, StageModel> {
    Map::new(
        |n: i64| stages.contains_key(n),
        |n: i64|
            if done.contains(n) {
                stage_with_options(xargo, n, stages[n])
            } else {
                stages[n]
            },
    )
}

proof fn lemma_combined_valid(general: Entries, specific: Entries)
    requires
        valid(Doc::Table(general)),
        valid(Doc::Table(specific)),
    ensures
        combined(general, specific) matches Ok(list) ==> valid(Doc::Table(list)),
    decreases specific.len(),
{
    if specific.len() > 0 {
        let front = specific.drop_last();
        assert(valid(Doc::Table(front))) by {
            assert forall|i: int| 0 <= i < front.len() implies valid((#[trigger] front[i]).1)
                && !mixed(front[i].1) by {
                assert(front[i] == specific[i]);
            }
        }
        lemma_combined_valid(general, front);
        if let Ok(list) = combined(general, front) {
            assert(specific[specific.len() - 1] == specific.last());
            lemma_inserted_valid(list, specific.last().0, specific.last().1);
        }
    }
}

proof fn lemma_default_valid()
    ensures
        valid(Doc::Table(default_dependencies())),
{
    lemma_default_order();
    reveal_with_fuel(valid, 4);
    let list = default_dependencies();
    assert(valid(list[0].1));
    assert(valid(list[1].1));
}

/// The dependencies of a sysroot are valid if the lists are.
pub proof fn lemma_listed_valid(toml: TomlModel, target: Seq<char>)
    requires
        valid_toml(toml),
    ensures
        listed(toml.dependencies, toml.target_dependencies, target) matches Ok(list) ==> valid(
            Doc::Table(list),
        ),
{
    lemma_default_valid();
    if let (Some(Doc::Table(general)), Some(Doc::Table(specific))) = (
        toml.dependencies,
        toml.target_dependencies,
    ) {
        lemma_combined_valid(general, specific);
    }
}

/// The dependencies of a sysroot are sorted if the lists are.
pub proof fn lemma_listed_sorted(toml: TomlModel, target: Seq<char>)
    requires
        toml.dependencies matches Some(Doc::Table(general)) ==> sorted(general),
        toml.target_dependencies matches Some(Doc::Table(specific)) ==> sorted(specific),
    ensures
        listed(toml.dependencies, toml.target_dependencies, target) matches Ok(list) ==> sorted(
            list,
        ),
{
    lemma_default_valid();
    if let (Some(Doc::Table(general)), Some(Doc::Table(specific))) = (
        toml.dependencies,
        toml.target_dependencies,
    ) {
        law_lists_combine(general, specific, target);
    }
}

/// Two lists of dependencies make one that is sorted and holds what either of them holds. That is
/// refused if a crate is in both, and then the first such crate is named.
pub proof fn law_lists_combine(general: Entries, specific: Entries, krate: Seq<char>)
    requires
        sorted(general),
        sorted(specific),
    ensures
        match combined(general, specific) {
            Ok(list) => {
                &&& sorted(list)
                &&& !(holds_key(general, krate) && holds_key(specific, krate))
                &&& lookup(list, krate) == if holds_key(specific, krate) {
                    lookup(specific, krate)
                } else {
                    lookup(general, krate)
                }
            },
            Err(fault) => exists|i: int|
                {
                    &&& 0 <= i < specific.len()
                    &&& fault == (Fault::DuplicateDependency { krate: (#[trigger] specific[i]).0 })
                    &&& holds_key(general, specific[i].0)
                    &&& forall|j: int|
                        0 <= j < i ==> !holds_key(general, (#[trigger] specific[j]).0)
                },
        },
    decreases specific.len(),
{
    if specific.len() > 0 {
        let front = specific.drop_last();
        let (last, value) = specific.last();
        let n = specific.len() - 1;
        lemma_sorted_front(specific);
        law_lists_combine(general, front, krate);
        law_lists_combine(general, front, last);
        law_lookup_finds(specific, n);
        lemma_has_in_front(specific, krate);
        lemma_has_in_front(specific, last);
        match combined(general, front) {
            Ok(list) => {
                law_inserted(list, last, value, krate);
                if holds_key(list, last) {
                    assert forall|j: int| 0 <= j < n implies !holds_key(
                        general,
                        (#[trigger] specific[j]).0,
                    ) by {
                        assert(front[j] == specific[j]);
                        law_lookup_finds(front, j);
                        law_lists_combine(general, front, front[j].0);
                    }
                    assert(specific[n].0 == last);
                }
            },
            Err(fault) => {
                let i = choose|i: int|
                    {
                        &&& 0 <= i < front.len()
                        &&& fault == (Fault::DuplicateDependency { krate: (#[trigger] front[i]).0 })
                        &&& holds_key(general, front[i].0)
                        &&& forall|j: int|
                            0 <= j < i ==> !holds_key(general, (#[trigger] front[j]).0)
                    };
                assert(specific[i] == front[i]);
                assert forall|j: int| 0 <= j < i implies !holds_key(
                    general,
                    (#[trigger] specific[j]).0,
                ) by {
                    assert(front[j] == specific[j]);
                }
            },
        }
    }
}

/// A sorted list has the keys that it has without its last entry, and the key of that entry.
proof fn lemma_has_in_front(entries: Entries, key: Seq<char>)
    requires
        sorted(entries),
        entries.len() > 0,
    ensures
        key != entries.last().0 ==> lookup(entries, key) == lookup(entries.drop_last(), key),
        !holds_key(entries.drop_last(), entries.last().0),
{
    let front = entries.drop_last();
    let last = entries.last().0;
    let n = entries.len() - 1;
    assert forall|i: int| 0 <= i < n implies key_lt((#[trigger] front[i]).0, last) by {
        assert(key_lt(entries[i].0, entries[n].0));
    }
    lemma_rank_unique(front, last, n);
    lemma_rank(front, key);
    let r = rank(front, key);
    assert forall|i: int| 0 <= i < r implies key_lt((#[trigger] entries[i]).0, key) by {
        assert(front[i] == entries[i]);
    }
    if r < n {
        assert(entries[r] == front[r]);
        lemma_rank_unique(entries, key, r);
    } else if key_lt(last, key) {
        lemma_rank_unique(entries, key, n + 1);
    } else {
        lemma_rank_unique(entries, key, n);
    }
}

/// A list that is given alone counts as it is, be it the general one or that of the target.
pub proof fn law_one_list(list: Entries, target: Seq<char>)
    ensures
        listed(Some(Doc::Table(list)), None, target) == Ok::<Entries, Fault>(list),
        listed(None, Some(Doc::Table(list)), target) == Ok::<Entries, Fault>(list),
{
}

/// A list that is not a table is refused, the general one first.
pub proof fn law_lists_are_tables(general: Doc, specific: Doc, target: Seq<char>)
    ensures
        !(general is Table) ==> {
            &&& listed(Some(general), Some(specific), target) == Err::<Entries, Fault>(
                Fault::DependenciesNotTable,
            )
            &&& listed(Some(general), None, target) == Err::<Entries, Fault>(
                Fault::ListNotTable { target },
            )
            &&& listed(None, Some(general), target) == Err::<Entries, Fault>(
                Fault::ListNotTable { target },
            )
        },
        general is Table && !(specific is Table) ==> listed(Some(general), Some(specific), target)
            == Err::<Entries, Fault>(Fault::TargetDependenciesNotTable { target }),
{
}

/// Where both lists are given, each crate has the entry that one of them gives. A crate in both is
/// refused, and the first such crate is named.
pub proof fn law_both_lists(
    general: Entries,
    specific: Entries,
    target: Seq<char>,
    krate: Seq<char>,
)
    requires
        sorted(general),
        sorted(specific),
    ensures
        match listed(Some(Doc::Table(general)), Some(Doc::Table(specific)), target) {
            Ok(list) => {
                &&& sorted(list)
                &&& lookup(general, krate) is None || lookup(specific, krate) is None
                &&& lookup(list, krate) == if lookup(specific, krate) is Some {
                    lookup(specific, krate)
                } else {
                    lookup(general, krate)
                }
            },
            Err(fault) => exists|i: int|
                {
                    &&& 0 <= i < specific.len()
                    &&& fault == (Fault::DuplicateDependency { krate: (#[trigger] specific[i]).0 })
                    &&& lookup(general, specific[i].0) is Some
                    &&& forall|j: int|
                        0 <= j < i ==> lookup(general, (#[trigger] specific[j]).0) is None
                },
        },
{
    law_lists_combine(general, specific, krate);
}

/// Without a list the dependencies are `core` in stage 0 and `compiler_builtins`, with its `mem`
/// feature, in stage 1, for whatever target.
pub proof fn law_default_list(target: Seq<char>)
    ensures
        listed(None, None, target) matches Ok(list) && {
            &&& list.len() == 2
            &&& lookup(list, "core"@) == Some(Doc::Table(seq![("stage"@, Doc::Integer(0))]))
            &&& lookup(list, "compiler_builtins"@) == Some(
                Doc::Table(
                    seq![
                        ("features"@, Doc::Array(seq![Doc::String("mem"@)])),
                        ("stage"@, Doc::Integer(1)),
                    ],
                ),
            )
        },
{
    lemma_default_valid();
    law_lookup_finds(default_dependencies(), 0);
    law_lookup_finds(default_dependencies(), 1);
}

/// A sysroot is tracked exactly if the settings say so with a boolean; anything but a boolean is
/// refused.
pub proof fn law_tracking(settings: Entries, other: Doc)
    ensures
        tracked_by(None) == Ok::<bool, Fault>(false),
        !(other is Table) ==> tracked_by(Some(other)) == Ok::<bool, Fault>(false),
        tracked_by(Some(Doc::Table(settings))) == match lookup(settings, "track-sysroot"@) {
            Some(Doc::Boolean(b)) => Ok::<bool, Fault>(b),
            Some(_) => Err(Fault::TrackSysrootNotBoolean),
            None => Ok(false),
        },
{
}

/// A crate list whose keys ascend, as do the keys of the tables in it.
pub open spec fn tidy(list: Entries) -> bool {
    &&& sorted(list)
    &&& forall|i: int|
        0 <= i < list.len() ==> ((#[trigger] list[i]).1 matches Doc::Table(entry) ==> sorted(entry))
}

/// Whether the lists of dependencies are tidy.
pub open spec fn tidy_toml(toml: TomlModel) -> bool {
    &&& toml.dependencies matches Some(Doc::Table(list)) ==> tidy(list)
    &&& toml.target_dependencies matches Some(Doc::Table(list)) ==> tidy(list)
}

proof fn lemma_combined_tidy(general: Entries, specific: Entries)
    requires
        tidy(general),
        tidy(specific),
    ensures
        combined(general, specific) matches Ok(list) ==> tidy(list),
    decreases specific.len(),
{
    if specific.len() > 0 {
        let front = specific.drop_last();
        lemma_sorted_front(specific);
        assert forall|i: int| 0 <= i < front.len() implies ((#[trigger] front[i]).1 matches
            Doc::Table(entry) ==> sorted(entry)) by {
            assert(front[i] == specific[i]);
        }
        lemma_combined_tidy(general, front);
        if let Ok(list) = combined(general, front) {
            let (krate, doc) = specific.last();
            assert(specific[specific.len() - 1] == specific.last());
            if !holds_key(list, krate) {
                let new = inserted(list, krate, doc);
                let r = rank(list, krate);
                lemma_rank(list, krate);
                law_inserted(list, krate, doc, krate);
                assert forall|i: int| 0 <= i < new.len() implies ((#[trigger] new[i]).1 matches
                    Doc::Table(entry) ==> sorted(entry)) by {
                    if i < r {
                        assert(new[i] == list[i]);
                    } else if i > r {
                        assert(new[i] == list[i - 1]);
                    }
                }
            }
        }
    }
}

/// The dependencies of a sysroot are tidy if the lists are.
pub proof fn lemma_listed_tidy(toml: TomlModel, target: Seq<char>)
    requires
        tidy_toml(toml),
    ensures
        listed(toml.dependencies, toml.target_dependencies, target) matches Ok(list) ==> tidy(list),
{
    lemma_default_order();
    lemma_listed_sorted(toml, target);
    if let (Some(Doc::Table(general)), Some(Doc::Table(specific))) = (
        toml.dependencies,
        toml.target_dependencies,
    ) {
        lemma_combined_tidy(general, specific);
    }
}

/// A file says what its items say; a file that is not there says nothing.
pub proof fn law_contents_of_toml(toml: Toml, item: Item)
    ensures
        doc_of(Some(item)) == Some(item@),
        doc_of(None) is None,
        said(Some(toml)).dependencies == doc_of(toml.dependencies),
        said(Some(toml)).target_dependencies == doc_of(toml.target_dependencies),
        said(Some(toml)).xargo == doc_of(toml.xargo),
        said(None).dependencies is None,
        said(None).target_dependencies is None,
        said(None).xargo is None,
{
}

} // verus!
