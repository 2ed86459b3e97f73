//! The hash that tells whether a sysroot is up to date.
use std::collections::hash_map::DefaultHasher;
use std::hash::Hasher;

use vstd::prelude::*;
use vstd::std_specs::hash::DefaultHasherAdditionalSpecFns;
use vstd::string::*;
use vstd::utf8::encode_utf8;

use crate::blueprint::{
    in_order, lemma_in_order_last, lemma_in_order_lists, lists, valid_blueprint, valid_stage, Blueprint, BlueprintModel,
    Stage, StageModel,
};
use crate::document::{print_value, valid, value_text, Doc, Entries, Item};
use crate::text::{decimal, law_decimal_round_trip, parse_u64, parsed_u64, text_of, texts_of};

verus! {

/// What a hasher is given for a string: its bytes, and a byte that no string holds.
pub open spec fn text_writes(text: Seq<char>) -> Seq<Seq<u8>> {
    seq![encode_utf8(text), seq![0xffu8]]
}

/// What a hasher is given for a sequence of strings.
pub open spec fn writes(texts: Seq<Seq<char>>) -> Seq<Seq<u8>>
    decreases texts.len(),
{
    if texts.len() == 0 {
        Seq::empty()
    } else {
        writes(texts.drop_last()) + text_writes(texts.last())
    }
}

/// The hash of a sequence of strings.
pub open spec fn hash_of(texts: Seq<Seq<char>>) -> u64 {
    DefaultHasher::spec_finish(writes(texts))
}

/// The names and the printed entries of a list of dependencies.
pub open spec fn dependency_texts(entries: Entries) -> Seq<Seq<char>>
    decreases entries.len(),
{
    if entries.len() == 0 {
        Seq::empty()
    } else {
        dependency_texts(entries.drop_last()) + seq![
            entries.last().0,
            value_text(entries.last().1),
        ]
    }
}

/// The dependencies of these stages, one stage after the other.
pub open spec fn dependencies_of(stages: Map<i64, StageModel>, numbers: Seq<i64>) -> Entries
    decreases numbers.len(),
{
    if numbers.len() == 0 {
        Seq::empty()
    } else {
        dependencies_of(stages, numbers.drop_last()) + stages[numbers.last()].dependencies
    }
}

/// All dependencies of a blueprint, in the order of the stages and of the names within each stage.
pub open spec fn all_dependencies(blueprint: BlueprintModel) -> Entries {
    dependencies_of(blueprint.stages, in_order(blueprint.stages.dom()))
}

/// The strings of a blueprint that are hashed.
pub open spec fn blueprint_texts(blueprint: BlueprintModel) -> Seq<Seq<char>> {
    dependency_texts(all_dependencies(blueprint))
}

/// All strings that are hashed: those of the blueprint, the flags, the target, the profile if there
/// is one, and the commit of the compiler if it is known.
pub open spec fn hashed_texts(
    blueprint: BlueprintModel,
    rustflags: Seq<Seq<char>>,
    target: Seq<Seq<char>>,
    profile: Option<Seq<Seq<char>>>,
    commit_hash: Option<Seq<char>>,
) -> Seq<Seq<char>> {
    blueprint_texts(blueprint) + rustflags + target + match profile {
        Some(texts) => texts,
        None => Seq::empty(),
    } + match commit_hash {
        Some(text) => seq![text],
        None => Seq::empty(),
    }
}

/// The strings of an optional list.
pub open spec fn optional_texts(list: Option<Vec<String>>) -> Option<Seq<Seq<char>>> {
    match list {
        Some(strings) => Some(texts_of(strings@)),
        None => None,
    }
}

proof fn lemma_writes_append(a: Seq<Seq<char>>, b: Seq<Seq<char>>)
    ensures
        writes(a + b) == writes(a) + writes(b),
    decreases b.len(),
{
    if b.len() == 0 {
        assert(a + b =~= a);
        assert(writes(a) + writes(b) =~= writes(a));
    } else {
        lemma_writes_append(a, b.drop_last());
        assert((a + b).drop_last() =~= a + b.drop_last());
        assert((a + b).last() == b.last());
        assert(writes(a + b) =~= writes(a) + writes(b));
    }
}

proof fn lemma_dependency_texts_append(a: Entries, b: Entries)
    ensures
        dependency_texts(a + b) == dependency_texts(a) + dependency_texts(b),
    decreases b.len(),
{
    if b.len() == 0 {
        assert(a + b =~= a);
        assert(dependency_texts(a) + dependency_texts(b) =~= dependency_texts(a));
    } else {
        lemma_dependency_texts_append(a, b.drop_last());
        assert((a + b).drop_last() =~= a + b.drop_last());
        assert((a + b).last() == b.last());
        assert(dependency_texts(a + b) =~= dependency_texts(a) + dependency_texts(b));
    }
}

/// Gives a string to a hasher, as a string hashes itself.
pub fn feed(hasher: &mut DefaultHasher, text: &str)
    ensures
        final(hasher)@ == old(hasher)@ + text_writes(text@),
{
    let mark: [u8; 1] = [0xff];
    hasher.write(text.as_bytes());
    hasher.write(&mark);
    assert(mark@ =~= seq![0xffu8]);
    assert(hasher@ =~= old(hasher)@ + text_writes(text@));
}

/// Gives strings to a hasher, one after the other.
pub fn feed_all(hasher: &mut DefaultHasher, texts: &Vec<String>)
    ensures
        final(hasher)@ == old(hasher)@ + writes(texts_of(texts@)),
{
    let ghost all = texts_of(texts@);
    let mut i: usize = 0;
    assert(hasher@ =~= old(hasher)@ + writes(all.take(0)));
    while i < texts.len()
        invariant
            i <= texts@.len(),
            all == texts_of(texts@),
            hasher@ == old(hasher)@ + writes(all.take(i as int)),
        decreases texts@.len() - i,
    {
        feed(hasher, texts[i].as_str());
        proof {
            assert(all.take(i + 1).drop_last() =~= all.take(i as int));
            assert(all.take(i + 1).last() == texts@[i as int]@);
            assert(hasher@ =~= old(hasher)@ + writes(all.take(i + 1)));
        }
        i = i + 1;
    }
    assert(all.take(i as int) =~= all);
}

impl Stage {
    fn hash_dependencies(&self, hasher: &mut DefaultHasher)
        requires
            valid(Doc::Table(self.dependencies@)),
        ensures
            final(hasher)@ == old(hasher)@ + writes(dependency_texts(self.dependencies@)),
    {
        let ghost all = self.dependencies@;
        let mut i: usize = 0;
        assert(hasher@ =~= old(hasher)@ + writes(dependency_texts(all.take(0))));
        while i < self.dependencies.len()
            invariant
                i <= all.len(),
                all == self.dependencies@,
                valid(Doc::Table(all)),
                hasher@ == old(hasher)@ + writes(dependency_texts(all.take(i as int))),
            decreases all.len() - i,
        {
            let key: &str = self.dependencies.key_at(i);
            let value: &Item = self.dependencies.value_at(i);
            assert(valid(all[i as int].1));
            feed(hasher, key);
            let text: String = print_value(value);
            feed(hasher, text.as_str());
            proof {
                let before = dependency_texts(all.take(i as int));
                let more = seq![key@, text@];
                assert(all.take(i + 1).drop_last() =~= all.take(i as int));
                assert(all.take(i + 1).last() == all[i as int]);
                lemma_writes_append(before, more);
                assert(writes(more) =~= text_writes(key@) + text_writes(text@)) by {
                    reveal_with_fuel(writes, 3);
                    assert(more.drop_last() =~= seq![key@]);
                    assert(more.drop_last().drop_last() =~= Seq::empty());
                }
                assert(hasher@ =~= old(hasher)@ + writes(before + more));
            }
            i = i + 1;
        }
        assert(all.take(i as int) =~= all);
    }
}

impl Blueprint {
    /// Gives the dependencies of all stages to a hasher.
    pub fn hash(&self, hasher: &mut DefaultHasher)
        requires
            valid_blueprint(self@),
        ensures
            final(hasher)@ == old(hasher)@ + writes(blueprint_texts(self@)),
    {
        let numbers: Vec<i64> = self.stage_numbers();
        let ghost stages = self@.stages;
        let mut i: usize = 0;
        assert(hasher@ =~= old(hasher)@ + writes(
            dependency_texts(dependencies_of(stages, numbers@.take(0))),
        ));
        while i < numbers.len()
            invariant
                i <= numbers@.len(),
                stages == self@.stages,
                valid_blueprint(self@),
                lists(numbers@, stages.dom()),
                hasher@ == old(hasher)@ + writes(
                    dependency_texts(dependencies_of(stages, numbers@.take(i as int))),
                ),
            decreases numbers@.len() - i,
        {
            let n: i64 = numbers[i];
            assert(numbers@.to_set().contains(n));
            assert(stages.contains_key(n));
            if let Some(stage) = self.stages.get(&n) {
                assert(valid_stage(stages[n]));
                stage.hash_dependencies(hasher);
                proof {
                    let front = dependencies_of(stages, numbers@.take(i as int));
                    let before = dependency_texts(front);
                    let more = dependency_texts(stages[n].dependencies);
                    lemma_dependency_texts_append(front, stages[n].dependencies);
                    assert(numbers@.take(i + 1).drop_last() =~= numbers@.take(i as int));
                    assert(numbers@.take(i + 1).last() == n);
                    lemma_writes_append(before, more);
                    assert(hasher@ =~= old(hasher)@ + writes(before + more));
                }
            }
            i = i + 1;
        }
        assert(numbers@.take(i as int) =~= numbers@);
    }
}

/// Computes the hash of the would-be target sysroot.
///
/// It covers the dependencies of the blueprint; `rustflags`, the compiler flags; `target`, the
/// target with its specification file; `profile`, the release profile of the project; and
/// `commit_hash`, the commit of the compiler.
pub fn hash(
    blueprint: &Blueprint,
    rustflags: &Vec<String>,
    target: &Vec<String>,
    profile: &Option<Vec<String>>,
    commit_hash: &Option<String>,
) -> (r: u64)
    requires
        valid_blueprint(blueprint@),
    ensures
        r == hash_of(
            hashed_texts(
                blueprint@,
                texts_of(rustflags@),
                texts_of(target@),
                optional_texts(*profile),
                text_of(*commit_hash),
            ),
        ),
{
    let mut hasher: DefaultHasher = DefaultHasher::new();
    blueprint.hash(&mut hasher);
    feed_all(&mut hasher, rustflags);
    feed_all(&mut hasher, target);
    if let Some(texts) = profile {
        feed_all(&mut hasher, texts);
    }
    if let Some(text) = commit_hash {
        feed(&mut hasher, text.as_str());
    }
    proof {
        let a = blueprint_texts(blueprint@);
        let b = texts_of(rustflags@);
        let c = texts_of(target@);
        let d = match optional_texts(*profile) {
            Some(texts) => texts,
            None => Seq::empty(),
        };
        let e = match text_of(*commit_hash) {
            Some(text) => seq![text],
            None => Seq::empty(),
        };
        lemma_writes_append(a, b);
        lemma_writes_append(a + b, c);
        lemma_writes_append(a + b + c, d);
        lemma_writes_append(a + b + c + d, e);
        assert(writes(e) =~= match text_of(*commit_hash) {
            Some(text) => text_writes(text),
            None => Seq::empty(),
        }) by {
            reveal_with_fuel(writes, 2);
        }
        assert(hasher@ =~= writes(a) + writes(b) + writes(c) + writes(d) + writes(e));
    }
    hasher.finish()
}

/// The hash that a hash file holds, if there is such a file and it holds a hash.
pub open spec fn stored_hash(contents: Option<Seq<char>>) -> Option<u64> {
    match contents {
        Some(text) => parsed_u64(text),
        None => None,
    }
}

/// Reads the hash of the sysroot that was built last from the contents of its hash file.
pub fn old_hash(contents: &Option<String>) -> (r: Option<u64>)
    ensures
        r == stored_hash(text_of(*contents)),
{
    match contents {
        Some(text) => parse_u64(text.as_str()),
        None => None,
    }
}

/// Of a blueprint only the dependencies matter for the hash, in the order in which they are built:
/// not the numbers of the stages, how the stages are patched, which options they have, or whether
/// the sysroot is tracked.
pub proof fn law_hash_covers_dependencies_only(
    a: BlueprintModel,
    b: BlueprintModel,
    rustflags: Seq<Seq<char>>,
    target: Seq<Seq<char>>,
    profile: Option<Seq<Seq<char>>>,
    commit_hash: Option<Seq<char>>,
)
    requires
        all_dependencies(a) == all_dependencies(b),
    ensures
        hash_of(hashed_texts(a, rustflags, target, profile, commit_hash)) == hash_of(
            hashed_texts(b, rustflags, target, profile, commit_hash),
        ),
{
}

proof fn lemma_same_stages_same_dependencies(
    a: Map<i64, StageModel>,
    b: Map<i64, StageModel>,
    numbers: Seq<i64>,
)
    requires
        forall|i: int|
            0 <= i < numbers.len() ==> a[#[trigger] numbers[i]].dependencies
                == b[numbers[i]].dependencies,
    ensures
        dependencies_of(a, numbers) == dependencies_of(b, numbers),
    decreases numbers.len(),
{
    if numbers.len() > 0 {
        let front = numbers.drop_last();
        assert forall|i: int| 0 <= i < front.len() implies a[#[trigger] front[i]].dependencies
            == b[front[i]].dependencies by {
            assert(front[i] == numbers[i]);
        }
        lemma_same_stages_same_dependencies(a, b, front);
        assert(numbers[numbers.len() - 1] == numbers.last());
    }
}

/// Blueprints whose stages have the same numbers and dependencies have the same dependencies in the
/// same order.
pub proof fn law_stages_give_dependencies(a: BlueprintModel, b: BlueprintModel)
    requires
        a.stages.dom() == b.stages.dom(),
        a.stages.dom().finite(),
        forall|n: i64|
            a.stages.contains_key(n) ==> (#[trigger] a.stages[n]).dependencies
                == b.stages[n].dependencies,
    ensures
        all_dependencies(a) == all_dependencies(b),
{
    let numbers = in_order(a.stages.dom());
    lemma_in_order_lists(a.stages.dom());
    assert forall|i: int| 0 <= i < numbers.len() implies a.stages[
        #[trigger] numbers[i]
    ].dependencies == b.stages[numbers[i]].dependencies by {
        assert(numbers.to_set().contains(numbers[i]));
        assert(a.stages.contains_key(numbers[i]));
    }
    lemma_same_stages_same_dependencies(a.stages, b.stages, numbers);
}

/// Every string is given to the hasher as its bytes and a byte that ends it, in order, and nothing
/// else is.
pub proof fn law_bytes_that_are_hashed(texts: Seq<Seq<char>>, i: int)
    requires
        0 <= i < texts.len(),
    ensures
        hash_of(texts) == DefaultHasher::spec_finish(writes(texts)),
        writes(texts).len() == 2 * texts.len(),
        writes(texts)[2 * i] == encode_utf8(texts[i]),
        writes(texts)[2 * i + 1] == seq![0xffu8],
        writes(Seq::empty()).len() == 0,
    decreases texts.len(),
{
    let front = texts.drop_last();
    if i < front.len() {
        law_bytes_that_are_hashed(front, i);
    } else if front.len() > 0 {
        law_bytes_that_are_hashed(front, 0);
    }
}

proof fn lemma_dependency_texts(entries: Entries)
    ensures
        dependency_texts(entries).len() == 2 * entries.len(),
        forall|i: int|
            #![trigger entries[i]]
            0 <= i < entries.len() ==> dependency_texts(entries)[2 * i] == entries[i].0
                && dependency_texts(entries)[2 * i + 1] == value_text(entries[i].1),
    decreases entries.len(),
{
    if entries.len() > 0 {
        let front = entries.drop_last();
        lemma_dependency_texts(front);
        assert forall|i: int|
            #![trigger entries[i]]
            0 <= i < entries.len() implies dependency_texts(entries)[2 * i] == entries[i].0
            && dependency_texts(entries)[2 * i + 1] == value_text(entries[i].1) by {
            if i < front.len() {
                assert(front[i] == entries[i]);
            }
        }
    }
}

/// The hash covers, one after the other and each whatever the others are: the name and the printed
/// table of every dependency, all strings of the flags, all strings of the target, all strings of
/// the profile if there is one, and the commit of the compiler if it is known. It covers nothing
/// else.
pub proof fn law_hash_covers_everything(
    blueprint: BlueprintModel,
    rustflags: Seq<Seq<char>>,
    target: Seq<Seq<char>>,
    profile: Option<Seq<Seq<char>>>,
    commit_hash: Option<Seq<char>>,
    i: int,
)
    ensures
        ({
            let all = hashed_texts(blueprint, rustflags, target, profile, commit_hash);
            let list = all_dependencies(blueprint);
            let flags = 2 * list.len() as int;
            let targets = flags + rustflags.len();
            let profiles = targets + target.len();
            let commit = profiles + match profile {
                Some(texts) => texts.len() as int,
                None => 0,
            };
            &&& 0 <= i < list.len() ==> all[2 * i] == list[i].0 && all[2 * i + 1] == value_text(
                list[i].1,
            )
            &&& all.len() == commit + match commit_hash {
                Some(_) => 1int,
                None => 0,
            }
            &&& all.subrange(flags, targets) == rustflags
            &&& all.subrange(targets, profiles) == target
            &&& profile matches Some(texts) ==> all.subrange(profiles, commit) == texts
            &&& commit_hash matches Some(text) ==> all[commit] == text
        }),
{
    let all = hashed_texts(blueprint, rustflags, target, profile, commit_hash);
    let list = all_dependencies(blueprint);
    lemma_dependency_texts(list);
    let flags = 2 * list.len() as int;
    let targets = flags + rustflags.len();
    let profiles = targets + target.len();
    assert(all.subrange(flags, targets) =~= rustflags);
    assert(all.subrange(targets, profiles) =~= target);
    if let Some(texts) = profile {
        assert(all.subrange(profiles, profiles + texts.len()) =~= texts);
    }
    if 0 <= i < list.len() {
        let entry = list[i];
        assert(dependency_texts(list)[2 * i] == entry.0);
    }
}

/// Two targets, two lists of flags, two profiles or two commits are never hashed as the same
/// strings, whatever the rest is. A profile without strings is hashed as none.
pub proof fn law_hashed_strings_tell_inputs_apart(
    blueprint: BlueprintModel,
    rustflags: Seq<Seq<char>>,
    target: Seq<Seq<char>>,
    profile: Option<Seq<Seq<char>>>,
    commit_hash: Option<Seq<char>>,
    other_flags: Seq<Seq<char>>,
    other_target: Seq<Seq<char>>,
    other_profile: Seq<Seq<char>>,
    other_commit: Option<Seq<char>>,
)
    ensures
        other_flags != rustflags ==> hashed_texts(
            blueprint,
            other_flags,
            target,
            profile,
            commit_hash,
        ) != hashed_texts(blueprint, rustflags, target, profile, commit_hash),
        other_target != target ==> hashed_texts(
            blueprint,
            rustflags,
            other_target,
            profile,
            commit_hash,
        ) != hashed_texts(blueprint, rustflags, target, profile, commit_hash),
        profile != Some(other_profile) && (profile is Some || other_profile.len() > 0)
            ==> hashed_texts(
            blueprint,
            rustflags,
            target,
            Some(other_profile),
            commit_hash,
        ) != hashed_texts(blueprint, rustflags, target, profile, commit_hash),
        other_commit != commit_hash ==> hashed_texts(
            blueprint,
            rustflags,
            target,
            profile,
            other_commit,
        ) != hashed_texts(blueprint, rustflags, target, profile, commit_hash),
{
    law_hash_covers_everything(blueprint, rustflags, target, profile, commit_hash, 0);
    law_hash_covers_everything(blueprint, other_flags, target, profile, commit_hash, 0);
    law_hash_covers_everything(blueprint, rustflags, other_target, profile, commit_hash, 0);
    law_hash_covers_everything(
        blueprint,
        rustflags,
        target,
        Some(other_profile),
        commit_hash,
        0,
    );
    law_hash_covers_everything(blueprint, rustflags, target, profile, other_commit, 0);
}

/// The dependencies of a blueprint are those of its stages, stage by stage: there are none without
/// a stage, and those of the last stage come after all others.
pub proof fn law_dependencies_stage_by_stage(blueprint: BlueprintModel, n: i64)
    requires
        blueprint.stages.dom().finite(),
    ensures
        blueprint.stages.dom() == Set::<i64>::empty() ==> all_dependencies(blueprint).len() == 0,
        blueprint.stages.contains_key(n) && (forall|m: i64|
            blueprint.stages.contains_key(m) ==> m <= n) ==> all_dependencies(blueprint)
            == all_dependencies(
            BlueprintModel { stages: blueprint.stages.remove(n), ..blueprint },
        ) + blueprint.stages[n].dependencies,
{
    let dom = blueprint.stages.dom();
    lemma_in_order_lists(dom);
    if dom == Set::<i64>::empty() {
        if in_order(dom).len() > 0 {
            assert(in_order(dom).to_set().contains(in_order(dom)[0]));
        }
    }
    if blueprint.stages.contains_key(n) && (forall|m: i64|
        blueprint.stages.contains_key(m) ==> m <= n) {
        let rest = blueprint.stages.remove(n);
        assert forall|m: i64| dom.contains(m) implies m <= n by {
            assert(blueprint.stages.contains_key(m));
        }
        lemma_in_order_last(dom, n);
        let front = in_order(dom.remove(n));
        lemma_in_order_lists(dom.remove(n));
        assert(rest.dom() =~= dom.remove(n));
        assert(front.push(n).drop_last() =~= front);
        assert forall|i: int| 0 <= i < front.len() implies blueprint.stages[
            #[trigger] front[i]
        ].dependencies == rest[front[i]].dependencies by {
            assert(front.to_set().contains(front[i]));
        }
        lemma_same_stages_same_dependencies(blueprint.stages, rest, front);
    }
}

/// A hash file gives the number that it holds, nothing if it holds none, and nothing if it is not
/// there. The file that a build writes gives the hash that it was written for, and no other.
pub proof fn law_hash_files(text: Seq<char>, hash: u64, other: u64)
    ensures
        stored_hash(None) is None,
        stored_hash(Some(text)) == parsed_u64(text),
        stored_hash(Some(decimal(hash as nat))) == Some(other) <==> hash == other,
{
    law_decimal_round_trip(hash);
}

/// A profile is hashed as the strings that it is given by, if there is one.
pub proof fn law_strings_of_profile(strings: Vec<String>)
    ensures
        optional_texts(Some(strings)) == Some(texts_of(strings@)),
        optional_texts(None) is None,
{
}

} // verus!
