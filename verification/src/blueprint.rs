//! The stages in which a sysroot is built.
use std::collections::BTreeMap;

use vstd::prelude::*;
use vstd::std_specs::cmp::OrdSpec;
use vstd::std_specs::iter::IteratorSpec;

use crate::document::{inserted, law_inserted, lookup, sorted, valid, Doc, Entries, Item, Table};
use crate::text::{text_of, texts_of};

verus! {

/// How a stage is built.
#[derive(Debug)]
pub struct StageOptions {
    /// Builds the stage without forcing unmarked items to be unstable.
    pub disable_staged_api: bool,
}

impl Default for StageOptions {
    fn default() -> (r: StageOptions)
        ensures
            !r.disable_staged_api,
    {
        StageOptions { disable_staged_api: false }
    }
}

/// What is built together: the crates in the order in which they are compiled, and the tables of
/// the manifest that names them.
#[derive(Debug)]
pub struct Stage {
    pub crates: Vec<String>,
    pub dependencies: Table,
    pub patch: Option<Table>,
    pub stage_options: StageOptions,
}

/// A sysroot that is built in stages, in the order of their numbers.
#[derive(Debug)]
pub struct Blueprint {
    /// Keeps the directories in which the stages are built, and recompiles every time.
    pub track_sysroot: bool,
    pub stages: BTreeMap<i64, Stage>,
}

/// What a stage holds.
#[verifier::ext_equal]
pub struct StageModel {
    pub crates: Seq<Seq<char>>,
    pub dependencies: Entries,
    pub patch: Option<Entries>,
    pub disable_staged_api: bool,
}

/// What a blueprint holds.
#[verifier::ext_equal]
pub struct BlueprintModel {
    pub track_sysroot: bool,
    pub stages: Map<i64, StageModel>,
}

impl View for Stage {
    type V = StageModel;

    open spec fn view(&self) -> StageModel {
        StageModel {
            crates: texts_of(self.crates@),
            dependencies: self.dependencies@,
            patch: match self.patch {
                Some(t) => Some(t@),
                None => None,
            },
            disable_staged_api: self.stage_options.disable_staged_api,
        }
    }
}

impl View for Blueprint {
    type V = BlueprintModel;

    open spec fn view(&self) -> BlueprintModel {
        BlueprintModel {
            track_sysroot: self.track_sysroot,
            stages: Map::new(
                |n: i64| self.stages@.contains_key(n),
                |n: i64| self.stages@[n]@,
            ),
        }
    }
}

/// The patch that points `rustc-std-workspace-core` to a path.
pub open spec fn workspace_patch(path: Seq<char>) -> Entries {
    seq![
        (
            "crates-io"@,
            Doc::Table(
                seq![
                    (
                        "rustc-std-workspace-core"@,
                        Doc::Table(seq![("path"@, Doc::String(path))]),
                    ),
                ],
            ),
        ),
    ]
}

/// A stage without crates. It is patched if the sources have a `rustc-std-workspace-core`.
pub open spec fn fresh(workspace: Option<Seq<char>>) -> StageModel {
    StageModel {
        crates: Seq::empty(),
        dependencies: Seq::empty(),
        patch: match workspace {
            Some(path) => Some(workspace_patch(path)),
            None => None,
        },
        disable_staged_api: false,
    }
}

/// A stage with one more crate.
pub open spec fn extended(stage: StageModel, krate: Seq<char>, toml: Entries) -> StageModel {
    StageModel {
        crates: stage.crates.push(krate),
        dependencies: inserted(stage.dependencies, krate, Doc::Table(toml)),
        ..stage
    }
}

/// A blueprint with one more crate in a stage, which is a fresh one if it was not there.
pub open spec fn pushed(
    blueprint: BlueprintModel,
    stage: i64,
    krate: Seq<char>,
    toml: Entries,
    workspace: Option<Seq<char>>,
) -> BlueprintModel {
    let before = if blueprint.stages.contains_key(stage) {
        blueprint.stages[stage]
    } else {
        fresh(workspace)
    };
    BlueprintModel {
        stages: blueprint.stages.insert(stage, extended(before, krate, toml)),
        ..blueprint
    }
}

/// Whether the tables of a stage are valid.
pub open spec fn valid_stage(stage: StageModel) -> bool {
    &&& valid(Doc::Table(stage.dependencies))
    &&& stage.patch matches Some(patch) ==> valid(Doc::Table(patch))
}

/// Whether the tables of all stages are valid.
pub open spec fn valid_blueprint(blueprint: BlueprintModel) -> bool {
    forall|n: i64|
        #![trigger blueprint.stages[n]]
        blueprint.stages.contains_key(n) ==> valid_stage(blueprint.stages[n])
}

/// Whether numbers ascend.
pub open spec fn ascending(numbers: Seq<i64>) -> bool {
    forall|i: int, j: int| 0 <= i < j < numbers.len() ==> numbers[i] < numbers[j]
}

/// Whether `numbers` lists a set in ascending order.
pub open spec fn lists(numbers: Seq<i64>, set: Set<i64>) -> bool {
    ascending(numbers) && numbers.to_set() == set
}

/// A set of numbers in ascending order.
pub open spec fn in_order(set: Set<i64>) -> Seq<i64> {
    choose|numbers: Seq<i64>| lists(numbers, set)
}

/// There is one way to list a set in ascending order.
pub proof fn lemma_lists_unique(a: Seq<i64>, b: Seq<i64>, set: Set<i64>)
    requires
        lists(a, set),
        lists(b, set),
    ensures
        a == b,
    decreases a.len(),
{
    if a.len() == 0 {
        if b.len() > 0 {
            assert(b.to_set().contains(b[0]));
            assert(a.contains(b[0]));
        }
        assert(a =~= b);
    } else {
        assert(a.to_set().contains(a.last()));
        assert(b.contains(a.last()));
        assert(b.to_set().contains(b.last()));
        assert(a.contains(b.last()));
        assert(a.last() == b.last());
        let rest = set.remove(a.last());
        lemma_lists_without_last(a, set);
        lemma_lists_without_last(b, set);
        lemma_lists_unique(a.drop_last(), b.drop_last(), rest);
        assert(a =~= a.drop_last().push(a.last()));
        assert(b =~= b.drop_last().push(b.last()));
    }
}

proof fn lemma_lists_without_last(a: Seq<i64>, set: Set<i64>)
    requires
        lists(a, set),
        a.len() > 0,
    ensures
        lists(a.drop_last(), set.remove(a.last())),
{
    let rest = set.remove(a.last());
    assert forall|n: i64| #[trigger] a.drop_last().to_set().contains(n) <==> rest.contains(n) by {
        if a.drop_last().to_set().contains(n) {
            let i = choose|i: int| 0 <= i < a.drop_last().len() && a.drop_last()[i] == n;
            assert(a[i] == n);
            assert(a.to_set().contains(n));
        }
        if rest.contains(n) {
            assert(a.to_set().contains(n));
            let i = choose|i: int| 0 <= i < a.len() && a[i] == n;
            assert(a.drop_last()[i] == n);
        }
    }
    assert(a.drop_last().to_set() =~= rest);
}

/// Every finite set of numbers can be listed in ascending order.
pub proof fn lemma_in_order_lists(set: Set<i64>)
    requires
        set.finite(),
    ensures
        lists(in_order(set), set),
    decreases set.len(),
{
    if set.len() == 0 {
        assert(lists(Seq::<i64>::empty(), set)) by {
            assert(Seq::<i64>::empty().to_set() =~= set);
        }
    } else {
        let top = largest(set);
        let rest = set.remove(top);
        lemma_in_order_lists(rest);
        let front = in_order(rest);
        let all = front.push(top);
        assert(lists(all, set)) by {
            assert forall|i: int| 0 <= i < front.len() implies (#[trigger] front[i]) < top by {
                assert(front.to_set().contains(front[i]));
                assert(rest.contains(front[i]));
            }
            assert forall|n: i64| #[trigger] all.to_set().contains(n) <==> set.contains(n) by {
                if all.to_set().contains(n) {
                    let i = choose|i: int| 0 <= i < all.len() && all[i] == n;
                    if i < front.len() {
                        assert(front[i] == n);
                        assert(front.to_set().contains(n));
                    }
                }
                if set.contains(n) {
                    if n == top {
                        assert(all[front.len() as int] == n);
                    } else {
                        assert(front.to_set().contains(n));
                        let i = choose|i: int| 0 <= i < front.len() && front[i] == n;
                        assert(all[i] == n);
                    }
                }
            }
            assert(all.to_set() =~= set);
        }
    }
}

proof fn largest(set: Set<i64>) -> (r: i64)
    requires
        set.finite(),
        set.len() > 0,
    ensures
        set.contains(r),
        forall|n: i64| set.contains(n) ==> n <= r,
    decreases set.len(),
{
    let some = set.choose();
    let rest = set.remove(some);
    if rest.len() == 0 {
        assert forall|n: i64| set.contains(n) implies n <= some by {
            if n != some {
                assert(rest.contains(n));
            }
        }
        some
    } else {
        let top = largest(rest);
        assert forall|n: i64| set.contains(n) implies n <= some || n <= top by {
            if n != some {
                assert(rest.contains(n));
            }
        }
        if some > top {
            some
        } else {
            top
        }
    }
}

fn singleton(key: &str, value: Item) -> (r: Table)
    ensures
        r@ == seq![(key@, value@)],
{
    let mut r: Table = Table::new();
    r.insert(key.to_owned(), value);
    assert(r@ =~= seq![(key@, value@)]);
    r
}

impl Blueprint {
    /// A blueprint without stages.
    pub fn new() -> (r: Blueprint)
        ensures
            r@ == (BlueprintModel { track_sysroot: false, stages: Map::empty() }),
    {
        let r = Blueprint { track_sysroot: false, stages: BTreeMap::new() };
        assert(r@.stages =~= Map::empty());
        r
    }

    /// Tests whether there is a stage of that number.
    pub fn has_stage(&self, stage: i64) -> (r: bool)
        ensures
            r == self@.stages.contains_key(stage),
    {
        self.stages.contains_key(&stage)
    }

    /// Adds a crate to a stage. A stage that is not there yet is made, and then `workspace` is the
    /// path of the `rustc-std-workspace-core` of the sources, if they have one.
    pub fn push(&mut self, stage: i64, krate: String, toml: Table, workspace: Option<String>)
        ensures
            final(self)@ == pushed(old(self)@, stage, krate@, toml@, text_of(workspace)),
    {
        let mut entry: Stage = match self.stages.remove(&stage) {
            Some(entry) => entry,
            None => Stage {
                crates: Vec::new(),
                dependencies: Table::new(),
                patch: match workspace {
                    Some(path) => Some(
                        singleton(
                            "crates-io",
                            Item::Table(
                                singleton(
                                    "rustc-std-workspace-core",
                                    Item::Table(singleton("path", Item::String(path))),
                                ),
                            ),
                        ),
                    ),
                    None => None,
                },
                stage_options: StageOptions::default(),
            },
        };
        let ghost before = entry@;
        proof {
            if !old(self)@.stages.contains_key(stage) {
                assert(before.crates =~= Seq::empty());
                assert(before =~= fresh(text_of(workspace)));
            }
        }
        let name: String = krate.clone();
        entry.dependencies.insert(name, Item::Table(toml));
        entry.crates.push(krate);
        assert(entry@.crates =~= before.crates.push(krate@));
        self.stages.insert(stage, entry);
        assert(self@.stages =~= pushed(
            old(self)@,
            stage,
            krate@,
            toml@,
            text_of(workspace),
        ).stages);
    }

    /// Tests whether the tables of all stages are valid.
    pub fn is_valid(&self) -> (r: bool)
        ensures
            r == valid_blueprint(self@),
    {
        let numbers: Vec<i64> = self.stage_numbers();
        let mut i: usize = 0;
        while i < numbers.len()
            invariant
                i <= numbers@.len(),
                lists(numbers@, self@.stages.dom()),
                forall|k: int|
                    0 <= k < i ==> valid_stage(self@.stages[#[trigger] numbers@[k]]),
            decreases numbers@.len() - i,
        {
            let n: i64 = numbers[i];
            assert(numbers@.to_set().contains(n));
            assert(self@.stages.contains_key(n));
            if let Some(stage) = self.stages.get(&n) {
                assert(stage@ == self@.stages[n]);
                let patched: bool = match &stage.patch {
                    Some(patch) => patch.is_valid(),
                    None => true,
                };
                if !stage.dependencies.is_valid() || !patched {
                    return false;
                }
            }
            i = i + 1;
        }
        assert forall|n: i64| #[trigger] self@.stages.contains_key(n) implies valid_stage(
            self@.stages[n],
        ) by {
            assert(numbers@.to_set().contains(n));
            let k = choose|k: int| 0 <= k < numbers@.len() && numbers@[k] == n;
            assert(valid_stage(self@.stages[numbers@[k]]));
        }
        true
    }

    /// The numbers of the stages, in the order in which they are built.
    pub fn stage_numbers(&self) -> (r: Vec<i64>)
        ensures
            r@ == in_order(self@.stages.dom()),
            lists(r@, self@.stages.dom()),
    {
        let mut r: Vec<i64> = Vec::new();
        for number in it: self.stages.keys()
            invariant
                r@.len() == it.index(),
                forall|i: int| 0 <= i < r@.len() ==> r@[i] == *(#[trigger] it.seq()[i]),
        {
            r.push(*number);
        }
        proof {
            let keys = self.stages.keys().remaining();
            assert(r@ =~= keys.unref());
            assert(vstd::std_specs::btree::increasing_seq(keys));
            assert forall|i: int, j: int| 0 <= i < j < r@.len() implies r@[i] < r@[j] by {
                assert(OrdSpec::cmp_spec(&keys[i], &keys[j]) is Less);
            }
            assert(r@.to_set() =~= self@.stages.dom());
            lemma_lists_unique(r@, in_order(self@.stages.dom()), self@.stages.dom());
        }
        r
    }
}

/// The numbers of stages ascend, none is left out and none is added.
pub proof fn law_order_of_stages(set: Set<i64>, i: int, j: int, n: i64)
    requires
        set.finite(),
    ensures
        0 <= i < j < in_order(set).len() ==> in_order(set)[i] < in_order(set)[j],
        in_order(set).contains(n) <==> set.contains(n),
{
    lemma_in_order_lists(set);
    assert(in_order(set).to_set().contains(n) <==> set.contains(n));
}

/// The largest of a set of numbers comes last in its order.
pub proof fn lemma_in_order_last(set: Set<i64>, n: i64)
    requires
        set.finite(),
        set.contains(n),
        forall|m: i64| set.contains(m) ==> m <= n,
    ensures
        in_order(set) == in_order(set.remove(n)).push(n),
{
    let rest = set.remove(n);
    let front = in_order(rest);
    let all = front.push(n);
    lemma_in_order_lists(set);
    lemma_in_order_lists(rest);
    assert(lists(all, set)) by {
        assert forall|i: int| 0 <= i < front.len() implies (#[trigger] front[i]) < n by {
            assert(front.to_set().contains(front[i]));
            assert(rest.contains(front[i]));
        }
        assert forall|m: i64| #[trigger] all.to_set().contains(m) <==> set.contains(m) by {
            if all.to_set().contains(m) {
                let i = choose|i: int| 0 <= i < all.len() && all[i] == m;
                if i < front.len() {
                    assert(front[i] == m);
                    assert(front.to_set().contains(m));
                }
            }
            if set.contains(m) {
                if m == n {
                    assert(all[front.len() as int] == m);
                } else {
                    assert(front.to_set().contains(m));
                    let i = choose|i: int| 0 <= i < front.len() && front[i] == m;
                    assert(all[i] == m);
                }
            }
        }
        assert(all.to_set() =~= set);
    }
    lemma_lists_unique(all, in_order(set), set);
}

/// A crate that is added stands last among the crates of its stage, and its table is found under
/// its name. What the stage held besides, every other stage and the rest of the blueprint stay as
/// they were. A stage that was not there holds nothing else; it has the default options, and it is
/// patched exactly if there is a `rustc-std-workspace-core`, to its path.
pub proof fn law_push(
    blueprint: BlueprintModel,
    stage: i64,
    krate: Seq<char>,
    toml: Entries,
    workspace: Option<Seq<char>>,
    other: i64,
    name: Seq<char>,
)
    requires
        blueprint.stages.contains_key(stage) ==> sorted(blueprint.stages[stage].dependencies),
        name != krate,
        other != stage,
    ensures
        ({
            let after = pushed(blueprint, stage, krate, toml, workspace);
            let new = after.stages[stage];
            let old_stage = blueprint.stages[stage];
            &&& after.track_sysroot == blueprint.track_sysroot
            &&& after.stages.contains_key(stage)
            &&& new.crates.len() > 0 && new.crates.last() == krate
            &&& lookup(new.dependencies, krate) == Some(Doc::Table(toml))
            &&& blueprint.stages.contains_key(stage) ==> {
                &&& new.crates.drop_last() == old_stage.crates
                &&& lookup(new.dependencies, name) == lookup(old_stage.dependencies, name)
                &&& new.patch == old_stage.patch
                &&& new.disable_staged_api == old_stage.disable_staged_api
            }
            &&& !blueprint.stages.contains_key(stage) ==> {
                &&& new.crates.len() == 1
                &&& lookup(new.dependencies, name) is None
                &&& new.patch is Some <==> workspace is Some
                &&& workspace matches Some(path) ==> new.patch == Some(
                    seq![
                        (
                            "crates-io"@,
                            Doc::Table(
                                seq![
                                    (
                                        "rustc-std-workspace-core"@,
                                        Doc::Table(seq![("path"@, Doc::String(path))]),
                                    ),
                                ],
                            ),
                        ),
                    ],
                )
                &&& !new.disable_staged_api
            }
            &&& after.stages.contains_key(other) <==> blueprint.stages.contains_key(other)
            &&& after.stages[other] == blueprint.stages[other]
        }),
{
    let before = if blueprint.stages.contains_key(stage) {
        blueprint.stages[stage]
    } else {
        fresh(workspace)
    };
    law_inserted(before.dependencies, krate, Doc::Table(toml), krate);
    law_inserted(before.dependencies, krate, Doc::Table(toml), name);
    assert(before.crates.push(krate).drop_last() =~= before.crates);
}

/// What a blueprint holds: each stage under its number, with its crates, its tables and its options.
pub proof fn law_contents_of_blueprint(blueprint: Blueprint, n: i64)
    ensures
        blueprint@.track_sysroot == blueprint.track_sysroot,
        blueprint@.stages.contains_key(n) <==> blueprint.stages@.contains_key(n),
        blueprint.stages@.contains_key(n) ==> {
            let stage = blueprint.stages@[n];
            let model = blueprint@.stages[n];
            &&& model.crates == texts_of(stage.crates@)
            &&& model.dependencies == stage.dependencies@
            &&& stage.patch is None ==> model.patch is None
            &&& stage.patch matches Some(table) ==> model.patch == Some(table@)
            &&& model.disable_staged_api == stage.stage_options.disable_staged_api
        },
{
}

/// A blueprint is valid exactly if the tables of each of its stages are.
pub proof fn law_valid_blueprints(blueprint: BlueprintModel)
    ensures
        valid_blueprint(blueprint) <==> forall|n: i64|
            #![trigger blueprint.stages[n]]
            blueprint.stages.contains_key(n) ==> valid(
                Doc::Table(blueprint.stages[n].dependencies),
            ) && (blueprint.stages[n].patch matches Some(patch) ==> valid(Doc::Table(patch))),
{
}

} // verus!
