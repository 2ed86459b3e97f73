//! TOML values and tables.
use vstd::prelude::*;

use crate::text::{compare, Side};
use crate::text::{key_lt, lemma_key_lt_irreflexive, lemma_key_lt_total, lemma_key_lt_transitive};

verus! {

/// `toml::Value`, the value that the `toml` crate prints.
#[verifier::external_type_specification]
#[verifier::external_body]
pub struct ExTomlValue(toml::Value);

/// A TOML value.
///
/// A float is held as its text, in a form that `str::parse` reads; other text stands for zero.
#[derive(Debug)]
pub enum Item {
    String(String),
    Integer(i64),
    Float(String),
    Boolean(bool),
    Datetime(String),
    Array(Vec<Item>),
    Table(Table),
}

/// A TOML table: entries in the order of their keys, no key twice.
#[derive(Debug)]
pub struct Table {
    entries: Vec<(String, Item)>,
}

/// What a TOML value says. A float is given by its bits, a table is the sequence of its entries.
pub enum Doc {
    String(Seq<char>),
    Integer(i64),
    Float(u64),
    Boolean(bool),
    Datetime(Seq<char>),
    Array(Seq<Doc>),
    Table(Seq<(Seq<char>, Doc)>),
}

/// The entries of a table.
pub type Entries = Seq<(Seq<char>, Doc)>;

impl Item {
    /// What this value says.
    pub open spec fn view(&self) -> Doc
        decreases self,
    {
        match self {
            Item::String(s) => Doc::String(s@),
            Item::Integer(i) => Doc::Integer(*i),
            Item::Float(s) => Doc::Float(float_bits(s@)),
            Item::Boolean(b) => Doc::Boolean(*b),
            Item::Datetime(s) => Doc::Datetime(s@),
            Item::Array(a) => Doc::Array(
                Seq::new(
                    a@.len(),
                    |i: int|
                        if 0 <= i < a@.len() {
                            a@[i].view()
                        } else {
                            arbitrary()
                        },
                ),
            ),
            Item::Table(t) => Doc::Table(t.view()),
        }
    }
}

impl Table {
    /// The entries of this table.
    pub closed spec fn view(&self) -> Entries
        decreases self,
    {
        Seq::new(
            self.entries@.len(),
            |i: int|
                if 0 <= i < self.entries@.len() {
                    (self.entries@[i].0@, self.entries@[i].1.view())
                } else {
                    arbitrary()
                },
        )
    }
}

/// What an optional value says.
pub open spec fn doc_of(item: Option<Item>) -> Option<Doc> {
    match item {
        Some(i) => Some(i@),
        None => None,
    }
}

/// The position of the first entry whose key is not below `key`.
pub open spec fn rank(entries: Entries, key: Seq<char>) -> int
    decreases entries.len(),
{
    if entries.len() == 0 || !key_lt(entries[0].0, key) {
        0
    } else {
        1 + rank(entries.drop_first(), key)
    }
}

/// Whether a table has an entry of that key.
pub open spec fn holds_key(entries: Entries, key: Seq<char>) -> bool {
    rank(entries, key) < entries.len() && entries[rank(entries, key)].0 == key
}

/// What a table holds under a key.
pub open spec fn lookup(entries: Entries, key: Seq<char>) -> Option<Doc> {
    if holds_key(entries, key) {
        Some(entries[rank(entries, key)].1)
    } else {
        None
    }
}

/// A table with `key` set to `value`.
pub open spec fn inserted(entries: Entries, key: Seq<char>, value: Doc) -> Entries {
    if holds_key(entries, key) {
        entries.update(rank(entries, key), (key, value))
    } else {
        entries.insert(rank(entries, key), (key, value))
    }
}

/// A table without the entry of `key`.
pub open spec fn removed(entries: Entries, key: Seq<char>) -> Entries {
    if holds_key(entries, key) {
        entries.remove(rank(entries, key))
    } else {
        entries
    }
}

/// Whether the keys of a table ascend.
pub open spec fn sorted(entries: Entries) -> bool {
    forall|i: int, j: int|
        0 <= i < j < entries.len() ==> key_lt(#[trigger] entries[i].0, #[trigger] entries[j].0)
}

/// Whether a value is an array that starts with a table and holds something else too.
pub open spec fn mixed(doc: Doc) -> bool {
    &&& doc is Array
    &&& doc->Array_0.len() > 0
    &&& doc->Array_0[0] is Table
    &&& exists|i: int| 0 <= i < doc->Array_0.len() && !(#[trigger] doc->Array_0[i] is Table)
}

/// Whether all tables within a value are sorted, and none of them has a mixed array as an entry.
/// There is no way to print such an array.
pub open spec fn valid(doc: Doc) -> bool
    decreases doc,
{
    match doc {
        Doc::Array(a) => forall|i: int| 0 <= i < a.len() ==> valid(#[trigger] a[i]),
        Doc::Table(t) => sorted(t) && forall|i: int|
            0 <= i < t.len() ==> valid((#[trigger] t[i]).1) && !mixed(t[i].1),
        _ => true,
    }
}

/// Whether a value may stand in a table.
pub open spec fn valid_entry(doc: Doc) -> bool {
    valid(doc) && !mixed(doc)
}

/// The entries before a key's rank have keys below it, and the entry at its rank has not.
pub proof fn lemma_rank(entries: Entries, key: Seq<char>)
    ensures
        0 <= rank(entries, key) <= entries.len(),
        forall|i: int|
            0 <= i < rank(entries, key) ==> key_lt((#[trigger] entries[i]).0, key),
        rank(entries, key) < entries.len() ==> !key_lt(entries[rank(entries, key)].0, key),
    decreases entries.len(),
{
    if entries.len() > 0 && key_lt(entries[0].0, key) {
        let rest = entries.drop_first();
        lemma_rank(rest, key);
        assert forall|i: int| 0 <= i < rank(entries, key) implies key_lt(
            (#[trigger] entries[i]).0,
            key,
        ) by {
            if i > 0 {
                assert(entries[i] == rest[i - 1]);
            }
        }
    }
}

/// The rank of a key is the only position with smaller keys before it and no smaller key at it.
pub proof fn lemma_rank_unique(entries: Entries, key: Seq<char>, p: int)
    requires
        0 <= p <= entries.len(),
        forall|i: int| 0 <= i < p ==> key_lt((#[trigger] entries[i]).0, key),
        p < entries.len() ==> !key_lt(entries[p].0, key),
    ensures
        rank(entries, key) == p,
{
    lemma_rank(entries, key);
    let r = rank(entries, key);
    if p < r {
        assert(key_lt(entries[p].0, key));
    }
    if r < p {
        assert(key_lt(entries[r].0, key));
    }
}

/// In a sorted table the entries from a key's rank on have keys above it, but for its own entry.
pub proof fn lemma_above(entries: Entries, key: Seq<char>)
    requires
        sorted(entries),
    ensures
        forall|i: int|
            rank(entries, key) <= i < entries.len() ==> (#[trigger] entries[i]).0 == key
                && i == rank(entries, key) || key_lt(key, entries[i].0),
{
    let r = rank(entries, key);
    lemma_rank(entries, key);
    assert forall|i: int| r <= i < entries.len() implies (#[trigger] entries[i]).0 == key && i == r
        || key_lt(key, entries[i].0) by {
        if !key_lt(key, entries[r].0) {
            lemma_key_lt_total(entries[r].0, key);
        }
        if r < i {
            assert(key_lt(entries[r].0, entries[i].0));
            if key_lt(key, entries[r].0) {
                lemma_key_lt_transitive(key, entries[r].0, entries[i].0);
            }
        }
    }
}

/// A sorted table stays sorted without its last entry.
pub proof fn lemma_sorted_front(entries: Entries)
    requires
        sorted(entries),
        entries.len() > 0,
    ensures
        sorted(entries.drop_last()),
{
    let front = entries.drop_last();
    assert forall|i: int, j: int| 0 <= i < j < front.len() implies key_lt(
        #[trigger] front[i].0,
        #[trigger] front[j].0,
    ) by {
        assert(front[i] == entries[i] && front[j] == entries[j]);
    }
}

/// Looking up the key of any entry of a sorted table gives that entry's value.
pub proof fn law_lookup_finds(entries: Entries, i: int)
    requires
        sorted(entries),
        0 <= i < entries.len(),
    ensures
        lookup(entries, entries[i].0) == Some(entries[i].1),
{
    let key = entries[i].0;
    lemma_key_lt_irreflexive(key);
    lemma_rank_unique(entries, key, i);
}

/// Setting a key keeps a table sorted; that key is found with the new value, every other key as
/// before.
pub proof fn law_inserted(entries: Entries, key: Seq<char>, value: Doc, other: Seq<char>)
    requires
        sorted(entries),
    ensures
        sorted(inserted(entries, key, value)),
        lookup(inserted(entries, key, value), other) == if other == key {
            Some(value)
        } else {
            lookup(entries, other)
        },
{
    let r = rank(entries, key);
    let new = inserted(entries, key, value);
    lemma_rank(entries, key);
    lemma_above(entries, key);
    lemma_key_lt_irreflexive(key);
    lemma_rank_unique(new, key, r);
    assert forall|i: int, j: int| 0 <= i < j < new.len() implies key_lt(
        #[trigger] new[i].0,
        #[trigger] new[j].0,
    ) by {
        if holds_key(entries, key) {
            assert(new[i].0 == entries[i].0);
            assert(new[j].0 == entries[j].0);
        } else {
            if i < r {
                assert(new[i] == entries[i]);
            } else if i > r {
                assert(new[i] == entries[i - 1]);
            }
            if j < r {
                assert(new[j] == entries[j]);
            } else if j > r {
                assert(new[j] == entries[j - 1]);
            }
        }
    }
    if other != key {
        let q = rank(entries, other);
        lemma_rank(entries, other);
        lemma_above(entries, other);
        if holds_key(entries, key) {
            assert forall|i: int| 0 <= i < q implies key_lt((#[trigger] new[i]).0, other) by {
                assert(new[i].0 == entries[i].0);
            }
            if q < new.len() {
                assert(new[q].0 == entries[q].0);
            }
            lemma_rank_unique(new, other, q);
        } else {
            if key_lt(other, key) {
                if q > r {
                    assert(key_lt(entries[r].0, other));
                    lemma_key_lt_transitive(entries[r].0, other, key);
                }
                assert forall|i: int| 0 <= i < q implies key_lt((#[trigger] new[i]).0, other) by {
                    assert(new[i] == entries[i]);
                }
                if q == r && key_lt(key, other) {
                    lemma_key_lt_transitive(key, other, key);
                }
                if q < r {
                    assert(new[q] == entries[q]);
                }
                lemma_rank_unique(new, other, q);
            } else {
                if !key_lt(key, other) {
                    lemma_key_lt_total(key, other);
                }
                if q < r {
                    assert(key_lt(entries[q].0, key));
                    lemma_key_lt_transitive(entries[q].0, key, other);
                }
                assert forall|i: int| 0 <= i < q + 1 implies key_lt(
                    (#[trigger] new[i]).0,
                    other,
                ) by {
                    if i < r {
                        assert(new[i] == entries[i]);
                    } else if i > r {
                        assert(new[i] == entries[i - 1]);
                    }
                }
                if q < entries.len() {
                    assert(new[q + 1] == entries[q]);
                }
                lemma_rank_unique(new, other, q + 1);
            }
        }
    }
}

/// Removing a key keeps a table sorted; that key is gone, every other key is found as before.
pub proof fn law_removed(entries: Entries, key: Seq<char>, other: Seq<char>)
    requires
        sorted(entries),
    ensures
        sorted(removed(entries, key)),
        lookup(removed(entries, key), other) == if other == key {
            None
        } else {
            lookup(entries, other)
        },
{
    let r = rank(entries, key);
    let new = removed(entries, key);
    lemma_rank(entries, key);
    lemma_above(entries, key);
    if holds_key(entries, key) {
        assert forall|i: int, j: int| 0 <= i < j < new.len() implies key_lt(
            #[trigger] new[i].0,
            #[trigger] new[j].0,
        ) by {
            assert(new[i] == entries[if i < r { i } else { i + 1 }]);
            assert(new[j] == entries[if j < r { j } else { j + 1 }]);
        }
        let q = rank(entries, other);
        lemma_rank(entries, other);
        lemma_above(entries, other);
        if other == key {
            assert forall|i: int| 0 <= i < r implies key_lt((#[trigger] new[i]).0, other) by {
                assert(new[i] == entries[i]);
            }
            if r < new.len() {
                assert(new[r] == entries[r + 1]);
                assert(key_lt(key, entries[r + 1].0));
                if key_lt(entries[r + 1].0, key) {
                    lemma_key_lt_transitive(key, entries[r + 1].0, key);
                    lemma_key_lt_irreflexive(key);
                }
                lemma_key_lt_irreflexive(key);
            }
            lemma_rank_unique(new, other, r);
        } else {
            let p = if q <= r {
                q
            } else {
                q - 1
            };
            assert forall|i: int| 0 <= i < p implies key_lt((#[trigger] new[i]).0, other) by {
                assert(new[i] == entries[if i < r { i } else { i + 1 }]);
            }
            if q == r {
                assert(key_lt(other, key));
                if r < new.len() {
                    assert(new[r] == entries[r + 1]);
                    assert(key_lt(other, entries[r + 1].0));
                    if key_lt(entries[r + 1].0, other) {
                        lemma_key_lt_transitive(other, entries[r + 1].0, other);
                        lemma_key_lt_irreflexive(other);
                    }
                    lemma_key_lt_irreflexive(other);
                }
            } else if p < new.len() {
                assert(new[p] == entries[q]);
            }
            lemma_rank_unique(new, other, p);
        }
    }
}

impl Table {
    #[verifier::type_invariant]
    spec fn inv(self) -> bool {
        sorted(self@)
    }

    /// A table without entries.
    pub fn new() -> (r: Table)
        ensures
            r@ == Entries::empty(),
    {
        let r = Table { entries: Vec::new() };
        assert(r@ =~= Entries::empty());
        r
    }

    /// The number of entries.
    pub fn len(&self) -> (r: usize)
        ensures
            r == self@.len(),
    {
        self.entries.len()
    }

    fn position(&self, key: &str) -> (r: (usize, bool))
        ensures
            r.0 == rank(self@, key@),
            r.0 <= self.entries@.len(),
            r.1 == holds_key(self@, key@),
    {
        let mut i: usize = 0;
        while i < self.entries.len()
            invariant
                i <= self.entries@.len(),
                forall|k: int| 0 <= k < i ==> key_lt((#[trigger] self@[k]).0, key@),
            decreases self.entries@.len() - i,
        {
            let side: Side = compare(self.entries[i].0.as_str(), key);
            assert(self@[i as int].0 == self.entries@[i as int].0@);
            match side {
                Side::Below => {},
                _ => {
                    proof {
                        lemma_key_lt_irreflexive(key@);
                        lemma_rank_unique(self@, key@, i as int);
                    }
                    return (i, side == Side::Same);
                },
            }
            i = i + 1;
        }
        proof {
            lemma_rank_unique(self@, key@, i as int);
        }
        (i, false)
    }

    /// The value under `key`.
    pub fn get(&self, key: &str) -> (r: Option<&Item>)
        ensures
            match r {
                Some(item) => lookup(self@, key@) == Some(item@),
                None => lookup(self@, key@) is None,
            },
    {
        let found = self.position(key);
        if found.1 {
            Some(&self.entries[found.0].1)
        } else {
            None
        }
    }

    /// Tests whether there is an entry of that key.
    pub fn contains_key(&self, key: &str) -> (r: bool)
        ensures
            r == holds_key(self@, key@),
    {
        self.position(key).1
    }

    /// Sets `key` to `value` and returns the value that it had.
    pub fn insert(&mut self, key: String, value: Item) -> (r: Option<Item>)
        ensures
            final(self)@ == inserted(old(self)@, key@, value@),
            doc_of(r) == lookup(old(self)@, key@),
            sorted(old(self)@),
            sorted(final(self)@),
    {
        proof {
            use_type_invariant(&*self);
            law_inserted(self@, key@, value@, key@);
        }
        let found = self.position(key.as_str());
        let mut entries: Vec<(String, Item)> = Vec::new();
        std::mem::swap(&mut entries, &mut self.entries);
        let ghost before = entries@;
        let ghost entry = (key, value);
        assert(entries_of(before) =~= old(self)@);
        if found.1 {
            let old_entry = entries.remove(found.0);
            entries.insert(found.0, (key, value));
            assert(entries@ =~= before.update(found.0 as int, entry));
            assert(entries_of(entries@) =~= inserted(old(self)@, key@, value@));
            *self = Table::from_entries(entries);
            Some(old_entry.1)
        } else {
            entries.insert(found.0, (key, value));
            assert(entries_of(entries@) =~= inserted(old(self)@, key@, value@));
            *self = Table::from_entries(entries);
            None
        }
    }

    /// Removes the entry of `key` and returns its value.
    pub fn remove(&mut self, key: &str) -> (r: Option<Item>)
        ensures
            final(self)@ == removed(old(self)@, key@),
            doc_of(r) == lookup(old(self)@, key@),
            sorted(old(self)@),
            sorted(final(self)@),
    {
        proof {
            use_type_invariant(&*self);
            law_removed(self@, key@, key@);
        }
        let found = self.position(key);
        if found.1 {
            let mut entries: Vec<(String, Item)> = Vec::new();
            std::mem::swap(&mut entries, &mut self.entries);
            assert(entries_of(entries@) =~= old(self)@);
            let entry = entries.remove(found.0);
            assert(entries_of(entries@) =~= removed(old(self)@, key@));
            *self = Table::from_entries(entries);
            Some(entry.1)
        } else {
            None
        }
    }

    fn from_entries(entries: Vec<(String, Item)>) -> (r: Table)
        requires
            sorted(entries_of(entries@)),
        ensures
            r@ == entries_of(entries@),
    {
        let ghost docs = entries_of(entries@);
        assert(Table { entries }@ =~= docs);
        Table { entries }
    }

    /// Takes the table apart into its entries, which are in the order of their keys.
    pub fn into_entries(self) -> (r: Vec<(String, Item)>)
        ensures
            entries_of(r@) == self@,
            sorted(self@),
    {
        proof {
            use_type_invariant(&self);
        }
        assert(entries_of(self.entries@) =~= self@);
        self.entries
    }

    /// The key of the entry at a position.
    pub fn key_at(&self, i: usize) -> (r: &str)
        requires
            i < self@.len(),
        ensures
            r@ == self@[i as int].0,
    {
        self.entries[i].0.as_str()
    }

    /// The value of the entry at a position.
    pub fn value_at(&self, i: usize) -> (r: &Item)
        requires
            i < self@.len(),
        ensures
            r@ == self@[i as int].1,
    {
        &self.entries[i].1
    }
}

/// What a sequence of keys and values says.
pub open spec fn entries_of(entries: Seq<(String, Item)>) -> Entries {
    Seq::new(entries.len(), |i: int| (entries[i].0@, entries[i].1@))
}

/// What a `toml::Value` says.
pub uninterp spec fn held(value: toml::Value) -> Doc;

/// The bits of the float that `str::parse` reads from a text; zero where it reads none.
pub uninterp spec fn float_bits(text: Seq<char>) -> u64;

/// The text that the `toml` crate prints for a value.
pub uninterp spec fn value_text(doc: Doc) -> Seq<char>;

/// What each of a sequence of `toml::Value`s says.
pub open spec fn all_held(values: Seq<toml::Value>) -> Seq<Doc> {
    Seq::new(values.len(), |i: int| held(values[i]))
}

/// What a sequence of keys and `toml::Value`s says.
pub open spec fn entries_held(entries: Seq<(String, toml::Value)>) -> Entries {
    Seq::new(entries.len(), |i: int| (entries[i].0@, held(entries[i].1)))
}

/// `toml::Value::String`: the value that says this string.
#[verifier::external_body]
fn toml_string(text: &str) -> (r: toml::Value)
    ensures
        held(r) == Doc::String(text@),
{
    toml::Value::String(text.to_string())
}

/// `toml::Value::Integer`: the value that says this integer.
#[verifier::external_body]
fn toml_integer(integer: i64) -> (r: toml::Value)
    ensures
        held(r) == Doc::Integer(integer),
{
    toml::Value::Integer(integer)
}

/// `toml::Value::Float`: the value that says the float that `str::parse` reads from a text, and
/// zero where it reads none.
#[verifier::external_body]
fn toml_float(text: &str) -> (r: toml::Value)
    ensures
        held(r) == Doc::Float(float_bits(text@)),
{
    toml::Value::Float(text.parse().unwrap_or_default())
}

/// `toml::Value::Boolean`: the value that says this boolean.
#[verifier::external_body]
fn toml_boolean(boolean: bool) -> (r: toml::Value)
    ensures
        held(r) == Doc::Boolean(boolean),
{
    toml::Value::Boolean(boolean)
}

/// `toml::Value::Datetime`: the value that says this date and time.
#[verifier::external_body]
fn toml_datetime(text: &str) -> (r: toml::Value)
    ensures
        held(r) == Doc::Datetime(text@),
{
    toml::Value::Datetime(text.to_string())
}

/// `toml::Value::Array`: the value that says what these items say, one after the other.
#[verifier::external_body]
fn toml_array(items: Vec<toml::Value>) -> (r: toml::Value)
    ensures
        held(r) == Doc::Array(all_held(items@)),
{
    toml::Value::Array(items)
}

/// `toml::Value::Table`: the value that says what these entries say. It keeps them in a `BTreeMap`,
/// that is in the order of their keys, in which they come already.
#[verifier::external_body]
fn toml_table(entries: Vec<(String, toml::Value)>) -> (r: toml::Value)
    requires
        sorted(entries_held(entries@)),
    ensures
        held(r) == Doc::Table(entries_held(entries@)),
{
    toml::Value::Table(entries.into_iter().collect())
}

/// `to_string` of `toml::Value`, that is its `Display`. The text is a function of what the value
/// says. The printer panics only on a mixed array among the entries of a table, and there is none
/// in a valid value.
#[verifier::external_body]
fn show(value: &toml::Value) -> (r: String)
    requires
        valid(held(*value)),
    ensures
        r@ == value_text(held(*value)),
{
    value.to_string()
}

impl Item {
    /// The `toml::Value` that says what this value says.
    fn to_toml(&self) -> (r: toml::Value)
        requires
            valid(self@),
        ensures
            held(r) == self@,
        decreases self,
    {
        match self {
            Item::String(s) => toml_string(s.as_str()),
            Item::Integer(i) => toml_integer(*i),
            Item::Float(s) => toml_float(s.as_str()),
            Item::Boolean(b) => toml_boolean(*b),
            Item::Datetime(s) => toml_datetime(s.as_str()),
            Item::Array(a) => {
                let ghost docs = self@->Array_0;
                let mut items: Vec<toml::Value> = Vec::new();
                let mut i: usize = 0;
                while i < a.len()
                    invariant
                        i <= a@.len(),
                        *self == Item::Array(*a),
                        self@ == Doc::Array(docs),
                        valid(self@),
                        docs.len() == a@.len(),
                        forall|k: int| 0 <= k < a@.len() ==> #[trigger] docs[k] == a@[k]@,
                        items@.len() == i,
                        forall|k: int| 0 <= k < i ==> held(#[trigger] items@[k]) == docs[k],
                    decreases a@.len() - i,
                {
                    proof {
                        lemma_valid_items(docs, i as int);
                    }
                    assert(docs[i as int] == a@[i as int]@);
                    let value: toml::Value = a[i].to_toml();
                    items.push(value);
                    i = i + 1;
                }
                assert(all_held(items@) =~= docs);
                toml_array(items)
            },
            Item::Table(t) => t.to_toml(),
        }
    }
}

impl Table {
    /// The `toml::Value` that says what this table says.
    fn to_toml(&self) -> (r: toml::Value)
        requires
            valid(Doc::Table(self@)),
        ensures
            held(r) == Doc::Table(self@),
        decreases self,
    {
        let mut entries: Vec<(String, toml::Value)> = Vec::new();
        let mut i: usize = 0;
        while i < self.entries.len()
            invariant
                i <= self.entries@.len(),
                valid(Doc::Table(self@)),
                entries@.len() == i,
                forall|k: int|
                    0 <= k < i ==> (#[trigger] entries@[k]).0@ == self@[k].0 && held(entries@[k].1)
                        == self@[k].1,
            decreases self.entries@.len() - i,
        {
            assert(valid(self@[i as int].1));
            assert(self@[i as int].1 == self.entries@[i as int].1@);
            let key: String = self.entries[i].0.clone();
            let value: toml::Value = self.entries[i].1.to_toml();
            entries.push((key, value));
            i = i + 1;
        }
        assert(entries_held(entries@) =~= self@);
        toml_table(entries)
    }
}

/// Prints a value.
pub(crate) fn print_value(item: &Item) -> (r: String)
    requires
        valid(item@),
    ensures
        r@ == value_text(item@),
{
    let value: toml::Value = item.to_toml();
    show(&value)
}

/// Setting a key to a value that may stand in a table keeps the table valid.
pub proof fn lemma_inserted_valid(entries: Entries, key: Seq<char>, value: Doc)
    requires
        valid(Doc::Table(entries)),
        valid_entry(value),
    ensures
        valid(Doc::Table(inserted(entries, key, value))),
{
    law_inserted(entries, key, value, key);
    lemma_rank(entries, key);
    let r = rank(entries, key);
    let new = inserted(entries, key, value);
    assert forall|i: int| 0 <= i < new.len() implies valid((#[trigger] new[i]).1) && !mixed(
        new[i].1,
    ) by {
        if holds_key(entries, key) || i < r {
            if i != r {
                assert(new[i] == entries[i]);
            }
        } else if i > r {
            assert(new[i] == entries[i - 1]);
        }
    }
}

/// Removing a key keeps a table valid.
pub proof fn lemma_removed_valid(entries: Entries, key: Seq<char>)
    requires
        valid(Doc::Table(entries)),
    ensures
        valid(Doc::Table(removed(entries, key))),
{
    law_removed(entries, key, key);
    lemma_rank(entries, key);
    let r = rank(entries, key);
    let new = removed(entries, key);
    if holds_key(entries, key) {
        assert forall|i: int| 0 <= i < new.len() implies valid((#[trigger] new[i]).1) && !mixed(
            new[i].1,
        ) by {
            assert(new[i] == entries[if i < r { i } else { i + 1 }]);
        }
    }
}

/// The items of a valid array are valid.
proof fn lemma_valid_items(items: Seq<Doc>, i: int)
    requires
        valid(Doc::Array(items)),
        0 <= i < items.len(),
    ensures
        valid(items[i]),
{
    assert(valid(Doc::Array(items)->Array_0[i]));
}

impl Item {
    /// Tests whether this value is an array that starts with a table and holds something else too.
    pub fn is_mixed(&self) -> (r: bool)
        ensures
            r == mixed(self@),
    {
        match self {
            Item::Array(a) => {
                let ghost docs = self@->Array_0;
                let mut tables: usize = 0;
                while tables < a.len()
                    invariant
                        tables <= a@.len(),
                        docs == self@->Array_0,
                        self@ is Array,
                        docs.len() == a@.len(),
                        forall|k: int| 0 <= k < a@.len() ==> #[trigger] docs[k] == a@[k]@,
                        forall|k: int| 0 <= k < tables ==> #[trigger] docs[k] is Table,
                    decreases a@.len() - tables,
                {
                    match &a[tables] {
                        Item::Table(_) => {},
                        _ => {
                            assert(docs[tables as int] == a@[tables as int]@);
                            assert(tables > 0 ==> docs[0] is Table);
                            return tables > 0;
                        },
                    }
                    assert(docs[tables as int] == a@[tables as int]@);
                    tables = tables + 1;
                }
                false
            },
            _ => false,
        }
    }

    /// Tests whether this value is valid.
    pub fn is_valid(&self) -> (r: bool)
        ensures
            r == valid(self@),
        decreases self,
    {
        match self {
            Item::Array(a) => {
                let ghost docs = self@->Array_0;
                let mut i: usize = 0;
                while i < a.len()
                    invariant
                        i <= a@.len(),
                        self@ == Doc::Array(docs),
                        *self == Item::Array(*a),
                        docs.len() == a@.len(),
                        forall|k: int| 0 <= k < a@.len() ==> #[trigger] docs[k] == a@[k]@,
                        forall|k: int| 0 <= k < i ==> valid(#[trigger] docs[k]),
                    decreases a@.len() - i,
                {
                    assert(docs[i as int] == a@[i as int]@);
                    if !a[i].is_valid() {
                        proof {
                            if valid(self@) {
                                lemma_valid_items(docs, i as int);
                            }
                        }
                        return false;
                    }
                    i = i + 1;
                }
                true
            },
            Item::Table(t) => t.is_valid(),
            _ => true,
        }
    }
}

impl Table {
    /// Tests whether this table is valid.
    pub fn is_valid(&self) -> (r: bool)
        ensures
            r == valid(Doc::Table(self@)),
        decreases self,
    {
        proof {
            use_type_invariant(self);
        }
        let mut i: usize = 0;
        while i < self.entries.len()
            invariant
                i <= self.entries@.len(),
                forall|k: int| 0 <= k < i ==> valid((#[trigger] self@[k]).1) && !mixed(self@[k].1),
            decreases self.entries@.len() - i,
        {
            assert(self@[i as int].1 == self.entries@[i as int].1@);
            if !self.entries[i].1.is_valid() || self.entries[i].1.is_mixed() {
                return false;
            }
            i = i + 1;
        }
        true
    }
}

/// An array may not stand in a table exactly if its first item is a table and a later one is not.
/// Whatever is no array may.
pub proof fn law_mixed_arrays(first: Doc, rest: Seq<Doc>, other: Doc)
    ensures
        mixed(Doc::Array(seq![first] + rest)) <==> first is Table && exists|i: int|
            0 <= i < rest.len() && !(#[trigger] rest[i] is Table),
        !mixed(Doc::Array(Seq::empty())),
        !(other is Array) ==> !mixed(other),
{
    let items = seq![first] + rest;
    assert(Doc::Array(items)->Array_0 == items);
    if mixed(Doc::Array(items)) {
        let i = choose|i: int| 0 <= i < items.len() && !(#[trigger] items[i] is Table);
        assert(rest[i - 1] == items[i]);
    }
    if first is Table && exists|i: int| 0 <= i < rest.len() && !(#[trigger] rest[i] is Table) {
        let i = choose|i: int| 0 <= i < rest.len() && !(#[trigger] rest[i] is Table);
        assert(items[i + 1] == rest[i]);
        assert(!(Doc::Array(items)->Array_0[i + 1] is Table));
    }
}

/// A table is valid exactly if its keys ascend and its values are valid and no mixed arrays; an
/// array if its items are valid; any other value always.
pub proof fn law_valid_values(entries: Entries, items: Seq<Doc>, other: Doc)
    ensures
        valid(Doc::Table(entries)) <==> sorted(entries) && forall|i: int|
            0 <= i < entries.len() ==> valid((#[trigger] entries[i]).1) && !mixed(entries[i].1),
        valid(Doc::Array(items)) <==> forall|i: int|
            0 <= i < items.len() ==> valid(#[trigger] items[i]),
        !(other is Table) && !(other is Array) ==> valid(other),
{
    if valid(Doc::Array(items)) {
        assert forall|i: int| 0 <= i < items.len() implies valid(#[trigger] items[i]) by {
            lemma_valid_items(items, i);
        }
    }
}

/// Entries that are taken out of a table are taken key by key and value by value.
pub proof fn law_contents_of_entries(entries: Seq<(String, Item)>, i: int)
    ensures
        entries_of(entries).len() == entries.len(),
        0 <= i < entries.len() ==> entries_of(entries)[i] == (entries[i].0@, entries[i].1@),
{
}

} // verus!
