//! JSON values.
use vstd::prelude::*;

use crate::number;
use crate::text;

verus! {

/// A JSON number.
#[verifier::external_type_specification]
#[verifier::external_body]
pub struct ExNumber(serde_json::Number);

/// A JSON value.
#[derive(Debug)]
pub enum Json {
    Null,
    Bool(bool),
    Number(serde_json::Number),
    Text(String),
    Array(Vec<Json>),
    Object(Fields),
}

/// The fields of a JSON object, in the order of their names.
#[derive(Debug)]
pub struct Fields {
    entries: Vec<(String, Json)>,
}

/// The meaning of a JSON value. A number is known by its text.
pub enum JsonTree {
    Null,
    Bool(bool),
    Number(Seq<char>),
    Text(Seq<char>),
    Array(Seq<JsonTree>),
    Object(Map<Seq<char>, JsonTree>),
}

/// The text of a number, as `serde_json::Number` writes it.
pub uninterp spec fn number_text(number: serde_json::Number) -> Seq<char>;

impl Json {
    /// The meaning of a value.
    pub open spec fn tree(self) -> JsonTree
        decreases self,
    {
        match self {
            Json::Null => JsonTree::Null,
            Json::Bool(b) => JsonTree::Bool(b),
            Json::Number(n) => JsonTree::Number(number_text(n)),
            Json::Text(s) => JsonTree::Text(s@),
            Json::Array(values) => JsonTree::Array(
                Seq::new(
                    values@.len(),
                    |i: int|
                        if 0 <= i < values@.len() {
                            values@[i].tree()
                        } else {
                            JsonTree::Null
                        },
                ),
            ),
            Json::Object(fields) => JsonTree::Object(fields.contents()),
        }
    }
}

/// The fields that a list of entries gives: of two with one name the later.
pub open spec fn fields_of(entries: Seq<(String, Json)>) -> Map<Seq<char>, JsonTree>
    decreases entries,
{
    if entries.len() == 0 {
        Map::empty()
    } else {
        fields_of(entries.drop_last()).insert(entries.last().0@, entries.last().1.tree())
    }
}

/// The texts stand in dictionary order, each once.
pub open spec fn increasing(names: Seq<Seq<char>>) -> bool {
    forall|i: int, j: int|
        0 <= i < j < names.len() ==> text::precedes(#[trigger] names[i], #[trigger] names[j])
}

/// The texts of a finite set, in dictionary order.
pub open spec fn ordered(names: Set<Seq<char>>) -> Seq<Seq<char>> {
    choose|s: Seq<Seq<char>>| increasing(s) && s.to_set() =~= names
}

/// Two lists in dictionary order that hold the same texts are the same list.
pub proof fn lemma_increasing_unique(a: Seq<Seq<char>>, b: Seq<Seq<char>>)
    requires
        increasing(a),
        increasing(b),
        a.to_set() =~= b.to_set(),
    ensures
        a == b,
    decreases a.len(),
{
    if a.len() == 0 {
        if b.len() > 0 {
            assert(b.to_set().contains(b[0]));
            assert(a.to_set().contains(b[0]));
        }
        assert(a =~= b);
    } else {
        assert(a.to_set().contains(a.last()));
        assert(b.to_set().contains(a.last()));
        assert(b.len() > 0);
        assert(b.to_set().contains(b.last()));
        let i = choose|i: int| 0 <= i < b.len() && b[i] == a.last();
        let j = choose|j: int| 0 <= j < a.len() && a[j] == b.last();
        if a.last() != b.last() {
            assert(text::precedes(a.last(), b.last()));
            assert(text::precedes(b.last(), a.last()));
            text::lemma_precedes_total(a.last(), b.last());
        }
        let x = a.drop_last();
        let y = b.drop_last();
        assert(increasing(x) && increasing(y));
        assert forall|t: Seq<char>| x.to_set().contains(t) implies y.to_set().contains(t) by {
            lemma_drop_last_set(a, b, t);
        }
        assert forall|t: Seq<char>| y.to_set().contains(t) implies x.to_set().contains(t) by {
            lemma_drop_last_set(b, a, t);
        }
        lemma_increasing_unique(x, y);
        assert(a =~= x.push(a.last()));
        assert(b =~= y.push(b.last()));
    }
}

/// What stands in `a` before its last text stands in `b` before it too.
proof fn lemma_drop_last_set(a: Seq<Seq<char>>, b: Seq<Seq<char>>, t: Seq<char>)
    requires
        a.len() > 0,
        b.len() > 0,
        increasing(a),
        a.to_set() =~= b.to_set(),
        a.last() == b.last(),
        a.drop_last().to_set().contains(t),
    ensures
        b.drop_last().to_set().contains(t),
{
    let i = choose|i: int| 0 <= i < a.drop_last().len() && a.drop_last()[i] == t;
    assert(a[i] == t);
    assert(text::precedes(a[i], a[a.len() - 1]));
    text::lemma_precedes_irreflexive(a.last());
    assert(a.to_set().contains(t));
    assert(b.to_set().contains(t));
    let j = choose|j: int| 0 <= j < b.len() && b[j] == t;
    assert(j < b.len() - 1);
    assert(b.drop_last()[j] == t);
}

/// A list in dictionary order is the ordered form of the set of its texts.
pub proof fn lemma_ordered(names: Seq<Seq<char>>)
    requires
        increasing(names),
    ensures
        ordered(names.to_set()) == names,
{
    let s = ordered(names.to_set());
    assert(increasing(s) && s.to_set() =~= names.to_set());
    lemma_increasing_unique(s, names);
}

/// A text put in its place in a list in dictionary order.
spec fn placed(names: Seq<Seq<char>>, name: Seq<char>) -> Seq<Seq<char>>
    decreases names.len(),
{
    if names.len() == 0 || text::precedes(names.last(), name) {
        names.push(name)
    } else {
        placed(names.drop_last(), name).push(names.last())
    }
}

/// A new text put in its place keeps the order.
proof fn lemma_placed(names: Seq<Seq<char>>, name: Seq<char>)
    requires
        increasing(names),
        !names.contains(name),
    ensures
        increasing(placed(names, name)),
        placed(names, name).len() == names.len() + 1,
        forall|t: Seq<char>|
            placed(names, name).contains(t) <==> (names.contains(t) || t == name),
        names.len() > 0 && text::precedes(name, names.last()) ==> placed(names, name).last()
            == names.last(),
    decreases names.len(),
{
    let r = placed(names, name);
    if names.len() == 0 || text::precedes(names.last(), name) {
        assert forall|i: int, j: int| 0 <= i < j < r.len() implies text::precedes(
            #[trigger] r[i],
            #[trigger] r[j],
        ) by {
            if j == names.len() && i < names.len() - 1 {
                text::lemma_precedes_transitive(names[i], names.last(), name);
            }
        }
        assert forall|t: Seq<char>| r.contains(t) <==> (names.contains(t) || t == name) by {
            if names.contains(t) {
                let i = choose|i: int| 0 <= i < names.len() && names[i] == t;
                assert(r[i] == t);
            }
            assert(r[names.len() as int] == name);
            if r.contains(t) && t != name {
                let i = choose|i: int| 0 <= i < r.len() && r[i] == t;
                assert(names[i] == t);
            }
        }
        if names.len() > 0 {
            text::lemma_precedes_total(name, names.last());
        }
    } else {
        let rest = names.drop_last();
        assert(names.contains(names.last()));
        text::lemma_precedes_total(name, names.last());
        assert forall|t: Seq<char>| rest.contains(t) implies names.contains(t) by {
            let i = choose|i: int| 0 <= i < rest.len() && rest[i] == t;
            assert(names[i] == t);
        }
        lemma_placed(rest, name);
        let inner = placed(rest, name);
        assert forall|i: int, j: int| 0 <= i < j < r.len() implies text::precedes(
            #[trigger] r[i],
            #[trigger] r[j],
        ) by {
            if j == inner.len() {
                assert(inner.contains(inner[i]));
                if inner[i] != name {
                    assert(rest.contains(inner[i]));
                    let k = choose|k: int| 0 <= k < rest.len() && rest[k] == inner[i];
                    assert(text::precedes(names[k], names[names.len() - 1]));
                }
            }
        }
        assert forall|t: Seq<char>| r.contains(t) <==> (names.contains(t) || t == name) by {
            assert(r[inner.len() as int] == names.last());
            if r.contains(t) && t != names.last() {
                let i = choose|i: int| 0 <= i < r.len() && r[i] == t;
                assert(inner[i] == t);
                assert(inner.contains(t));
            }
            if t == name || names.contains(t) {
                if t != names.last() {
                    if t != name {
                        let i = choose|i: int| 0 <= i < names.len() && names[i] == t;
                        assert(rest[i] == t);
                        assert(rest.contains(t));
                    }
                    assert(inner.contains(t));
                    let i = choose|i: int| 0 <= i < inner.len() && inner[i] == t;
                    assert(r[i] == t);
                }
            }
        }
    }
}

/// A finite set of texts has an ordered form.
pub proof fn lemma_ordered_finite(names: Set<Seq<char>>)
    requires
        names.finite(),
    ensures
        increasing(ordered(names)),
        ordered(names).to_set() =~= names,
    decreases names.len(),
{
    if names.is_empty() {
        let none = Seq::<Seq<char>>::empty();
        assert(increasing(none) && none.to_set() =~= names);
    } else {
        let name = names.choose();
        let rest = names.remove(name);
        lemma_ordered_finite(rest);
        let before = ordered(rest);
        if before.contains(name) {
            assert(before.to_set().contains(name));
        }
        lemma_placed(before, name);
        let after = placed(before, name);
        assert forall|t: Seq<char>| after.to_set().contains(t) <==> names.contains(t) by {
            assert(before.to_set().contains(t) <==> rest.contains(t));
        }
        assert(increasing(after) && after.to_set() =~= names);
    }
}

/// The names of a list of entries.
pub open spec fn names_of(entries: Seq<(String, Json)>) -> Seq<Seq<char>> {
    entries.map_values(|entry: (String, Json)| entry.0@)
}

/// The names of the entries are the names of the fields. Where each name stands
/// once, a field's value is that of its entry.
proof fn lemma_fields_of(entries: Seq<(String, Json)>)
    ensures
        fields_of(entries).dom() =~= names_of(entries).to_set(),
        fields_of(entries).dom().finite(),
        increasing(names_of(entries)) ==> forall|i: int|
            0 <= i < entries.len() ==> fields_of(entries)[(#[trigger] entries[i]).0@]
                == entries[i].1.tree(),
    decreases entries.len(),
{
    let names = names_of(entries);
    if entries.len() > 0 {
        let rest = entries.drop_last();
        lemma_fields_of(rest);
        assert(names_of(rest) =~= names.drop_last());
        assert(names.drop_last().push(names.last()) =~= names);
        assert forall|k: Seq<char>| names.to_set().contains(k) implies k == entries.last().0@
            || names.drop_last().to_set().contains(k) by {
            let i = choose|i: int| 0 <= i < names.len() && names[i] == k;
            if i < names.len() - 1 {
                assert(names.drop_last()[i] == k);
            }
        }
        assert forall|k: Seq<char>|
            k == entries.last().0@ || names.drop_last().to_set().contains(
                k,
            ) implies names.to_set().contains(k) by {
            if k == entries.last().0@ {
                assert(names[names.len() - 1] == k);
            } else {
                let i = choose|i: int| 0 <= i < names.len() - 1 && names.drop_last()[i] == k;
                assert(names[i] == k);
            }
        }
        if increasing(names) {
            assert(increasing(names.drop_last()));
            assert forall|i: int| 0 <= i < entries.len() implies fields_of(entries)[(
            #[trigger] entries[i]).0@] == entries[i].1.tree() by {
                if i < entries.len() - 1 {
                    assert(rest[i] == entries[i]);
                    assert(text::precedes(names[i], names[entries.len() - 1]));
                    text::lemma_precedes_irreflexive(names[i]);
                }
            }
        }
    } else {
        assert(names.to_set() =~= Set::empty());
    }
}

/// Setting an entry at its place keeps the order and sets the field.
proof fn lemma_insert(
    before: Seq<(String, Json)>,
    after: Seq<(String, Json)>,
    i: int,
    stands: bool,
    entry: (String, Json),
)
    requires
        increasing(names_of(before)),
        0 <= i <= before.len(),
        forall|j: int| 0 <= j < i ==> text::precedes((#[trigger] before[j]).0@, entry.0@),
        forall|j: int|
            i <= j < before.len() ==> !text::precedes((#[trigger] before[j]).0@, entry.0@),
        stands == (i < before.len() && before[i].0@ == entry.0@),
        after == (if stands {
            before.update(i, entry)
        } else {
            before.insert(i, entry)
        }),
    ensures
        increasing(names_of(after)),
        fields_of(after) == fields_of(before).insert(entry.0@, entry.1.tree()),
{
    let key = entry.0@;
    let tree = entry.1.tree();
    let old_names = names_of(before);
    let names = names_of(after);
    let shift: int = if stands {
        0
    } else {
        1
    };
    assert(names[i] == key);
    assert forall|j: int| 0 <= j < i implies names[j] == old_names[j] && after[j] == before[j] by {}
    assert forall|j: int| i < j < names.len() implies names[j] == old_names[j - shift] && after[j]
        == before[j - shift] && text::precedes(key, names[j]) by {
        let k = j - shift;
        assert(before[k].0@ == old_names[k]);
        if stands {
            assert(text::precedes(old_names[i], old_names[k]));
        } else {
            if old_names[k] == key {
                assert(i < before.len());
                if k > i {
                    assert(text::precedes(old_names[i], old_names[k]));
                    assert(before[i].0@ == old_names[i]);
                }
            }
            text::lemma_precedes_total(key, old_names[k]);
        }
    }
    assert forall|a: int, b: int| 0 <= a < b < names.len() implies text::precedes(
        #[trigger] names[a],
        #[trigger] names[b],
    ) by {
        if a < i && b < i {
            assert(text::precedes(old_names[a], old_names[b]));
        } else if a < i && b == i {
            assert(before[a].0@ == old_names[a]);
        } else if a < i {
            assert(before[a].0@ == old_names[a]);
            text::lemma_precedes_transitive(names[a], key, names[b]);
        } else if a > i {
            assert(text::precedes(old_names[a - shift], old_names[b - shift]));
        }
    }
    lemma_fields_of(before);
    lemma_fields_of(after);
    let left = fields_of(after);
    let right = fields_of(before).insert(key, tree);
    assert forall|k: Seq<char>| left.contains_key(k) implies right.contains_key(k) && left[k]
        == right[k] by {
        assert(names.to_set().contains(k));
        let j = choose|j: int| 0 <= j < names.len() && names[j] == k;
        assert(after[j].0@ == k);
        if j == i {
        } else {
            let m = if j < i {
                j
            } else {
                j - shift
            };
            assert(before[m] == after[j]);
            assert(old_names[m] == k);
            assert(old_names.to_set().contains(k));
            text::lemma_precedes_irreflexive(key);
            if j < i {
                assert(text::precedes(before[j].0@, key));
            }
        }
    }
    assert forall|k: Seq<char>| right.contains_key(k) implies left.contains_key(k) by {
        if k == key {
            assert(names.to_set().contains(names[i]));
        } else {
            assert(old_names.to_set().contains(k));
            let j = choose|j: int| 0 <= j < old_names.len() && old_names[j] == k;
            let m = if j < i {
                j
            } else {
                j + shift
            };
            assert(before[j].0@ == k);
            assert(after[m] == before[j]);
            assert(names[m] == k);
            assert(names.to_set().contains(k));
        }
    }
    assert(left =~= right);
}

impl Fields {
    /// The fields by name.
    pub closed spec fn contents(self) -> Map<Seq<char>, JsonTree>
        decreases self,
    {
        fields_of(self.entries@)
    }

    /// The names of the fields, in dictionary order.
    pub open spec fn names(self) -> Seq<Seq<char>> {
        ordered(self.contents().dom())
    }

    /// The names stand in order, each once.
    #[verifier::type_invariant]
    spec fn in_order(self) -> bool {
        increasing(names_of(self.entries@))
    }

    /// An object has finitely many fields.
    pub proof fn lemma_finite(self)
        ensures
            self.contents().dom().finite(),
    {
        lemma_fields_of(self.entries@);
    }

    /// An object without fields.
    pub fn new() -> (r: Fields)
        ensures
            r.contents() == Map::<Seq<char>, JsonTree>::empty(),
    {
        Fields { entries: Vec::new() }
    }

    /// How many fields there are.
    pub fn len(&self) -> (r: usize)
        ensures
            r == self.names().len(),
            increasing(self.names()),
            self.names().to_set() =~= self.contents().dom(),
    {
        proof {
            use_type_invariant(self);
            lemma_fields_of(self.entries@);
            lemma_ordered(names_of(self.entries@));
        }
        self.entries.len()
    }

    /// The field at a place in the order of the names.
    pub fn entry(&self, i: usize) -> (r: (&str, &Json))
        requires
            i < self.names().len(),
        ensures
            r.0@ == self.names()[i as int],
            self.contents().contains_key(r.0@),
            r.1.tree() == self.contents()[r.0@],
            decreases_to!(self => r.1),
    {
        proof {
            use_type_invariant(self);
            lemma_fields_of(self.entries@);
            lemma_ordered(names_of(self.entries@));
            assert(names_of(self.entries@).to_set().contains(names_of(self.entries@)[i as int]));
        }
        let pair = &self.entries[i];
        (pair.0.as_str(), &pair.1)
    }

    /// The number of fields whose names stand before `key`.
    fn place(&self, key: &str) -> (r: usize)
        ensures
            r <= self.entries@.len(),
            forall|j: int|
                0 <= j < r ==> text::precedes((#[trigger] self.entries@[j]).0@, key@),
            forall|j: int|
                r <= j < self.entries@.len() ==> !text::precedes(
                    (#[trigger] self.entries@[j]).0@,
                    key@,
                ),
    {
        proof {
            use_type_invariant(self);
        }
        let mut i: usize = 0;
        while i < self.entries.len() && text::less(self.entries[i].0.as_str(), key)
            invariant
                i <= self.entries.len(),
                forall|j: int|
                    0 <= j < i ==> text::precedes((#[trigger] self.entries@[j]).0@, key@),
            decreases self.entries.len() - i,
        {
            i += 1;
        }
        proof {
            let names = names_of(self.entries@);
            assert forall|j: int| i <= j < self.entries@.len() implies !text::precedes(
                (#[trigger] self.entries@[j]).0@,
                key@,
            ) by {
                if i < j && text::precedes(names[j], key@) {
                    assert(text::precedes(names[i as int], names[j]));
                    text::lemma_precedes_transitive(names[i as int], names[j], key@);
                }
            }
        }
        i
    }

    /// The value of a field.
    pub fn get(&self, key: &str) -> (r: Option<&Json>)
        ensures
            match r {
                Some(value) => self.contents().contains_key(key@) && value.tree()
                    == self.contents()[key@],
                None => !self.contents().contains_key(key@),
            },
    {
        let i = self.place(key);
        proof {
            use_type_invariant(self);
            lemma_fields_of(self.entries@);
        }
        let ghost names = names_of(self.entries@);
        if i < self.entries.len() && text::same(self.entries[i].0.as_str(), key) {
            proof {
                assert(names.to_set().contains(names[i as int]));
            }
            Some(&self.entries[i].1)
        } else {
            proof {
                if names.to_set().contains(key@) {
                    let j = choose|j: int| 0 <= j < names.len() && names[j] == key@;
                    assert(self.entries@[j].0@ == key@);
                    text::lemma_precedes_irreflexive(key@);
                    if j > i {
                        assert(text::precedes(names[i as int], names[j]));
                    }
                }
            }
            None
        }
    }

    /// Sets a field.
    pub fn insert(&mut self, key: &str, value: Json)
        ensures
            final(self).contents() == old(self).contents().insert(key@, value.tree()),
    {
        let i = self.place(key);
        proof {
            use_type_invariant(&*self);
        }
        let mut entries: Vec<(String, Json)> = Vec::new();
        std::mem::swap(&mut entries, &mut self.entries);
        let ghost before = entries@;
        let stands = i < entries.len() && text::same(entries[i].0.as_str(), key);
        let name = key.to_owned();
        let ghost entry = (name, value);
        if stands {
            entries.set(i, (name, value));
        } else {
            entries.insert(i, (name, value));
        }
        proof {
            lemma_insert(before, entries@, i as int, stands, entry);
        }
        self.entries = entries;
    }
}

impl Fields {
    /// The value of a field, taken out of its object.
    pub fn into_value(self, key: &str) -> (r: Option<Json>)
        ensures
            match r {
                Some(value) => self.contents().contains_key(key@) && value.tree()
                    == self.contents()[key@],
                None => !self.contents().contains_key(key@),
            },
    {
        proof {
            use_type_invariant(&self);
            lemma_fields_of(self.entries@);
        }
        let found = self.get(key).is_some();
        if !found {
            return None;
        }
        let i = self.place(key);
        let ghost names = names_of(self.entries@);
        proof {
            assert(names.to_set().contains(key@));
            let j = choose|j: int| 0 <= j < names.len() && names[j] == key@;
            assert(self.entries@[j].0@ == key@);
            text::lemma_precedes_irreflexive(key@);
            assert(i <= j);
            if i < j {
                assert(text::precedes(names[i as int], names[j]));
                assert(self.entries@[i as int].0@ == names[i as int]);
            }
        }
        let mut entries = self.entries;
        Some(entries.remove(i).1)
    }
}

/// The fields that pairs of texts give: of two with one name the later.
pub open spec fn text_fields(pairs: Seq<(Seq<char>, Seq<char>)>) -> Map<Seq<char>, JsonTree>
    decreases pairs.len(),
{
    if pairs.len() == 0 {
        Map::empty()
    } else {
        text_fields(pairs.drop_last()).insert(pairs.last().0, JsonTree::Text(pairs.last().1))
    }
}

impl Fields {
    /// The fields that pairs of texts give.
    pub fn of_texts(pairs: &Vec<(String, String)>) -> (r: Fields)
        ensures
            r.contents() == text_fields(pairs.deep_view()),
    {
        let mut fields = Fields::new();
        let mut i: usize = 0;
        assert(pairs.deep_view().take(0) =~= Seq::empty());
        while i < pairs.len()
            invariant
                i <= pairs.len(),
                fields.contents() == text_fields(pairs.deep_view().take(i as int)),
            decreases pairs.len() - i,
        {
            fields.insert(pairs[i].0.as_str(), Json::text(pairs[i].1.as_str()));
            assert(pairs.deep_view().take(i + 1).drop_last() =~= pairs.deep_view().take(i as int));
            i += 1;
        }
        assert(pairs.deep_view().take(i as int) =~= pairs.deep_view());
        fields
    }
}

/// What a text is in JSON: `null` where there is none.
pub open spec fn optional_text(value: Option<Seq<char>>) -> JsonTree {
    match value {
        Some(s) => JsonTree::Text(s),
        None => JsonTree::Null,
    }
}

/// What a whole number is in JSON.
pub open spec fn whole(n: int) -> JsonTree {
    JsonTree::Number(number::signed_decimal(n))
}

/// What a whole number is in JSON: `null` where there is none.
pub open spec fn optional_whole(value: Option<int>) -> JsonTree {
    match value {
        Some(n) => whole(n),
        None => JsonTree::Null,
    }
}

/// What an `i64` is in JSON: `null` where there is none.
pub open spec fn optional_i64(value: Option<i64>) -> JsonTree {
    match value {
        Some(n) => whole(n as int),
        None => JsonTree::Null,
    }
}

/// What a truth value is in JSON: `null` where there is none.
pub open spec fn optional_bool(value: Option<bool>) -> JsonTree {
    match value {
        Some(b) => JsonTree::Bool(b),
        None => JsonTree::Null,
    }
}

/// What a list of texts is in JSON.
pub open spec fn texts(values: Seq<Seq<char>>) -> JsonTree {
    JsonTree::Array(values.map_values(|s: Seq<char>| JsonTree::Text(s)))
}

/// What values mean, one by one.
pub open spec fn trees(values: Seq<Json>) -> Seq<JsonTree> {
    Seq::new(values.len(), |i: int| values[i].tree())
}

impl Json {
    /// A text.
    pub fn text(s: &str) -> (r: Json)
        ensures
            r.tree() == JsonTree::Text(s@),
    {
        Json::Text(s.to_owned())
    }

    /// A text, or `null` where there is none.
    pub fn optional_text(s: Option<&str>) -> (r: Json)
        ensures
            r.tree() == optional_text(s.deep_view()),
    {
        match s {
            Some(s) => Json::Text(s.to_owned()),
            None => Json::Null,
        }
    }

    /// A text, or `null` where there is none.
    pub fn optional_string(s: &Option<String>) -> (r: Json)
        ensures
            r.tree() == optional_text(s.deep_view()),
    {
        match s {
            Some(s) => Json::Text(s.clone()),
            None => Json::Null,
        }
    }

    /// A whole number.
    pub fn signed(n: i64) -> (r: Json)
        ensures
            r.tree() == whole(n as int),
    {
        Json::Number(number_of_i64(n))
    }

    /// A whole number that is not negative.
    pub fn unsigned(n: u64) -> (r: Json)
        ensures
            r.tree() == whole(n as int),
    {
        Json::Number(number_of_u64(n))
    }

    /// A whole number, or `null` where there is none.
    pub fn optional_signed(n: Option<i64>) -> (r: Json)
        ensures
            r.tree() == optional_i64(n),
    {
        match n {
            Some(n) => Json::signed(n),
            None => Json::Null,
        }
    }

    /// A truth value, or `null` where there is none.
    pub fn optional_bool(b: Option<bool>) -> (r: Json)
        ensures
            r.tree() == optional_bool(b),
    {
        match b {
            Some(b) => Json::Bool(b),
            None => Json::Null,
        }
    }

    /// A list of texts.
    pub fn texts(values: &Vec<String>) -> (r: Json)
        ensures
            r.tree() == texts(values.deep_view()),
    {
        let mut out: Vec<Json> = Vec::new();
        let mut i: usize = 0;
        while i < values.len()
            invariant
                i <= values.len(),
                out.len() == i,
                forall|j: int| 0 <= j < i
                    ==> (#[trigger] out@[j]).tree() == JsonTree::Text(values@[j]@),
            decreases values.len() - i,
        {
            out.push(Json::Text(values[i].clone()));
            i += 1;
        }
        let r = Json::Array(out);
        assert(r.tree()->Array_0 =~= texts(values.deep_view())->Array_0);
        r
    }

    /// A list.
    pub fn list(values: Vec<Json>) -> (r: Json)
        ensures
            r.tree() == JsonTree::Array(trees(values@)),
    {
        let r = Json::Array(values);
        assert(r.tree()->Array_0 =~= trees(values@));
        r
    }

    /// A list means the list of what its values mean.
    pub proof fn lemma_array(values: Vec<Json>)
        ensures
            Json::Array(values).tree() == JsonTree::Array(trees(values@)),
    {
        assert(Json::Array(values).tree()->Array_0 =~= trees(values@));
    }
}

/// `serde_json::Number` of an `i64`, whose text is the number in decimal.
#[verifier::external_body]
pub(crate) fn number_of_i64(n: i64) -> (r: serde_json::Number)
    ensures
        number_text(r) == number::signed_decimal(n as int),
{
    serde_json::Number::from(n)
}

/// `serde_json::Number` of a `u64`, whose text is the number in decimal.
#[verifier::external_body]
pub(crate) fn number_of_u64(n: u64) -> (r: serde_json::Number)
    ensures
        number_text(r) == number::signed_decimal(n as int),
{
    serde_json::Number::from(n)
}

/// What `serde_json::Number` shows of itself, which is a function of the number.
#[verifier::external_body]
pub(crate) fn number_string(number: &serde_json::Number) -> (r: String)
    ensures
        r@ == number_text(*number),
{
    number.to_string()
}

/// A copy of a `serde_json::Number`, which shows the same text.
#[verifier::external_body]
pub(crate) fn number_copy(number: &serde_json::Number) -> (r: serde_json::Number)
    ensures
        number_text(r) == number_text(*number),
{
    number.clone()
}

/// A JSON value as `serde_json` holds it.
#[verifier::external_type_specification]
#[verifier::external_body]
pub struct ExValue(serde_json::Value);

/// What a `serde_json::Value` holds.
pub uninterp spec fn value_tree(value: serde_json::Value) -> JsonTree;

/// The top of a `serde_json::Value`, with its parts as `serde_json` holds them.
pub enum Layer {
    Null,
    Bool(bool),
    Number(serde_json::Number),
    Text(String),
    Array(Vec<serde_json::Value>),
    Object(Vec<(String, serde_json::Value)>),
}

/// No name stands twice among entries.
pub open spec fn distinct_names(entries: Seq<(String, serde_json::Value)>) -> bool {
    forall|i: int, j: int|
        0 <= i < j < entries.len() ==> (#[trigger] entries[i]).0@ != (#[trigger] entries[j]).0@
}

/// The fields that a list of entries gives.
pub open spec fn value_fields(entries: Seq<(String, serde_json::Value)>) -> Map<
    Seq<char>,
    JsonTree,
>
    decreases entries.len(),
{
    if entries.len() == 0 {
        Map::empty()
    } else {
        value_fields(entries.drop_last()).insert(entries.last().0@, value_tree(entries.last().1))
    }
}

impl Layer {
    /// The meaning of the value.
    pub open spec fn tree(self) -> JsonTree {
        match self {
            Layer::Null => JsonTree::Null,
            Layer::Bool(b) => JsonTree::Bool(b),
            Layer::Number(n) => JsonTree::Number(number_text(n)),
            Layer::Text(s) => JsonTree::Text(s@),
            Layer::Array(values) => JsonTree::Array(
                Seq::new(values@.len(), |i: int| value_tree(values@[i])),
            ),
            Layer::Object(entries) => JsonTree::Object(value_fields(entries@)),
        }
    }
}

/// A `serde_json::Value` from its parts, by the variants of that type. An object's
/// entries, whose names differ, are collected into a `serde_json::Map`, which
/// holds each of them.
#[verifier::external_body]
pub(crate) fn assemble(layer: Layer) -> (r: serde_json::Value)
    requires
        layer matches Layer::Object(entries) ==> distinct_names(entries@),
    ensures
        value_tree(r) == layer.tree(),
{
    match layer {
        Layer::Null => serde_json::Value::Null,
        Layer::Bool(value) => serde_json::Value::Bool(value),
        Layer::Number(value) => serde_json::Value::Number(value),
        Layer::Text(value) => serde_json::Value::String(value),
        Layer::Array(values) => serde_json::Value::Array(values),
        Layer::Object(entries) => serde_json::Value::Object(entries.into_iter().collect()),
    }
}

/// The parts of a `serde_json::Value`, by the variants of that type. An object's
/// `serde_json::Map` hands out each of its entries once, and holds each name once.
#[verifier::external_body]
pub(crate) fn peel(value: serde_json::Value) -> (r: Layer)
    ensures
        r.tree() == value_tree(value),
        r matches Layer::Object(entries) ==> distinct_names(entries@),
{
    match value {
        serde_json::Value::Null => Layer::Null,
        serde_json::Value::Bool(value) => Layer::Bool(value),
        serde_json::Value::Number(value) => Layer::Number(value),
        serde_json::Value::String(value) => Layer::Text(value),
        serde_json::Value::Array(values) => Layer::Array(values),
        serde_json::Value::Object(entries) => Layer::Object(entries.into_iter().collect()),
    }
}

/// Where no name stands twice, each entry's value is that of its field.
proof fn lemma_value_fields(entries: Seq<(String, serde_json::Value)>)
    requires
        distinct_names(entries),
    ensures
        value_fields(entries).dom().finite(),
        forall|i: int|
            0 <= i < entries.len() ==> value_fields(entries).contains_key(
                (#[trigger] entries[i]).0@,
            ) && value_fields(entries)[entries[i].0@] == value_tree(entries[i].1),
    decreases entries.len(),
{
    if entries.len() > 0 {
        let rest = entries.drop_last();
        assert forall|i: int, j: int| 0 <= i < j < rest.len() implies (#[trigger] rest[i]).0@ != (
        #[trigger] rest[j]).0@ by {
            assert(entries[i].0@ != entries[j].0@);
        }
        lemma_value_fields(rest);
        assert forall|i: int| 0 <= i < entries.len() implies value_fields(entries).contains_key(
            (#[trigger] entries[i]).0@,
        ) && value_fields(entries)[entries[i].0@] == value_tree(entries[i].1) by {
            if i < rest.len() {
                assert(rest[i] == entries[i]);
                assert(entries[i].0@ != entries[entries.len() - 1].0@);
            }
        }
    }
}

/// A value as `serde_json` holds it.
pub(crate) fn to_value(json: &Json) -> (r: serde_json::Value)
    ensures
        value_tree(r) == json.tree(),
    decreases json,
{
    match json {
        Json::Null => assemble(Layer::Null),
        Json::Bool(b) => assemble(Layer::Bool(*b)),
        Json::Number(n) => assemble(Layer::Number(number_copy(n))),
        Json::Text(s) => assemble(Layer::Text(s.clone())),
        Json::Array(values) => {
            let parts = to_values(values);
            proof {
                Json::lemma_array(*values);
            }
            let layer = Layer::Array(parts);
            assert(layer.tree()->Array_0 =~= trees(values@));
            assemble(layer)
        },
        Json::Object(fields) => assemble(Layer::Object(to_entries(fields))),
    }
}

/// Values as `serde_json` holds them.
fn to_values(values: &Vec<Json>) -> (r: Vec<serde_json::Value>)
    ensures
        r@.len() == values@.len(),
        forall|i: int| 0 <= i < r@.len() ==> value_tree(#[trigger] r@[i]) == values@[i].tree(),
    decreases values,
{
    let mut out: Vec<serde_json::Value> = Vec::new();
    let mut i: usize = 0;
    while i < values.len()
        invariant
            i <= values.len(),
            out@.len() == i,
            forall|j: int| 0 <= j < i ==> value_tree(#[trigger] out@[j]) == values@[j].tree(),
        decreases values.len() - i,
    {
        assert(decreases_to!(values => values@));
        out.push(to_value(&values[i]));
        i += 1;
    }
    out
}

/// The fields of an object as `serde_json` holds them.
fn to_entries(fields: &Fields) -> (r: Vec<(String, serde_json::Value)>)
    ensures
        value_fields(r@) == fields.contents(),
        distinct_names(r@),
    decreases fields,
{
    proof {
        use_type_invariant(fields);
    }
    let ghost names = names_of(fields.entries@);
    let mut out: Vec<(String, serde_json::Value)> = Vec::new();
    let mut i: usize = 0;
    let entries = &fields.entries;
    assert(entries@.take(0) =~= Seq::empty());
    while i < entries.len()
        invariant
            *entries == fields.entries,
            names == names_of(entries@),
            i <= entries.len(),
            out@.len() == i,
            forall|j: int| 0 <= j < i ==> (#[trigger] out@[j]).0@ == names[j],
            value_fields(out@) == fields_of(entries@.take(i as int)),
        decreases entries.len() - i,
    {
        let ghost before = out@;
        assert(decreases_to!(fields => fields.entries@[i as int].1));
        let value = to_value(&entries[i].1);
        out.push((entries[i].0.clone(), value));
        assert(out@.drop_last() =~= before);
        assert(entries@.take(i + 1).drop_last() =~= entries@.take(i as int));
        i += 1;
    }
    assert(entries@.take(i as int) =~= entries@);
    assert forall|j: int, k: int| 0 <= j < k < out@.len() implies (#[trigger] out@[j]).0@ != (
    #[trigger] out@[k]).0@ by {
        assert(text::precedes(names[j], names[k]));
        text::lemma_precedes_irreflexive(names[j]);
    }
    out
}

/// A value out of `serde_json`.
pub(crate) fn from_value(value: serde_json::Value) -> (r: Json)
    ensures
        r.tree() == value_tree(value),
    decreases value_tree(value),
{
    match peel(value) {
        Layer::Null => Json::Null,
        Layer::Bool(b) => Json::Bool(b),
        Layer::Number(n) => Json::Number(n),
        Layer::Text(s) => Json::Text(s),
        Layer::Array(values) => {
            let ghost parts = value_tree(value)->Array_0;
            let mut out: Vec<Json> = Vec::new();
            for part in it: values
                invariant
                    it.seq() == values@,
                    value_tree(value) == JsonTree::Array(parts),
                    parts == Seq::new(values@.len(), |i: int| value_tree(values@[i])),
                    out@.len() == it.index(),
                    forall|j: int|
                        0 <= j < it.index() ==> (#[trigger] out@[j]).tree() == parts[j],
            {
                assert(value_tree(part) == parts[it.index() as int]);
                assert(decreases_to!(value_tree(value) => value_tree(value)->Array_0));
                out.push(from_value(part));
            }
            let r = Json::Array(out);
            assert(r.tree()->Array_0 =~= parts);
            r
        },
        Layer::Object(entries) => {
            let ghost all = value_fields(entries@);
            proof {
                lemma_value_fields(entries@);
            }
            let mut out = Fields::new();
            assert(entries@.take(0) =~= Seq::empty());
            for entry in it: entries
                invariant
                    it.seq() == entries@,
                    value_tree(value) == JsonTree::Object(all),
                    all.dom().finite(),
                    forall|i: int|
                        0 <= i < entries@.len() ==> all.contains_key((#[trigger] entries@[i]).0@)
                            && all[entries@[i].0@] == value_tree(entries@[i].1),
                    out.contents() == value_fields(entries@.take(it.index() as int)),
            {
                let ghost i = it.index() as int;
                assert(entry == entries@[i]);
                proof {
                    vstd::map::axiom_map_index_decreases_finite(all, entry.0@);
                    assert(decreases_to!(value_tree(value) => value_tree(value)->Object_0));
                }
                let (name, part) = entry;
                let inner = from_value(part);
                out.insert(name.as_str(), inner);
                assert(entries@.take(i + 1).drop_last() =~= entries@.take(i));
            }
            assert(entries@.take(entries@.len() as int) =~= entries@);
            Json::Object(out)
        },
    }
}

/// The text of a value without white space, as `serde_json::to_string` writes it.
pub uninterp spec fn json_text(tree: JsonTree) -> Seq<char>;

/// `serde_json::to_string` of a value. It does not fail: a value's names are
/// texts, and the text is written to memory. Its text is a function of the value,
/// for a `serde_json::Map` hands out its entries in the order of their names.
#[verifier::external_body]
fn value_text(value: &serde_json::Value) -> (r: Result<String, String>)
    ensures
        r is Ok,
        r->Ok_0@ == json_text(value_tree(*value)),
{
    serde_json::to_string(value).map_err(|error| error.to_string())
}

/// The indented text of a value, as `serde_json::to_string_pretty` writes it.
pub uninterp spec fn json_pretty(tree: JsonTree) -> Seq<char>;

/// `serde_json::to_string_pretty` of a value, which does not fail either, and
/// whose text is a function of the value.
#[verifier::external_body]
fn value_pretty(value: &serde_json::Value) -> (r: Result<String, String>)
    ensures
        r is Ok,
        r->Ok_0@ == json_pretty(value_tree(*value)),
{
    serde_json::to_string_pretty(value).map_err(|error| error.to_string())
}

/// The TOML of a value, or why it has none, as `toml::to_string_pretty` has it.
pub uninterp spec fn toml_text(tree: JsonTree) -> Result<Seq<char>, Seq<char>>;

/// `toml::to_string_pretty` of a value: the text or the message of its error,
/// which are a function of the value.
#[verifier::external_body]
fn value_toml(value: &serde_json::Value) -> (r: Result<String, String>)
    ensures
        match r {
            Ok(s) => toml_text(value_tree(*value)) == Ok::<Seq<char>, Seq<char>>(s@),
            Err(e) => toml_text(value_tree(*value)) == Err::<Seq<char>, Seq<char>>(e@),
        },
{
    toml::to_string_pretty(value).map_err(|error| error.to_string())
}

/// The YAML of a value, or why it has none, as `serde_yaml::to_string` has it.
pub uninterp spec fn yaml_text(tree: JsonTree) -> Result<Seq<char>, Seq<char>>;

/// `serde_yaml::to_string` of a value: the text or the message of its error,
/// which are a function of the value.
#[verifier::external_body]
fn value_yaml(value: &serde_json::Value) -> (r: Result<String, String>)
    ensures
        match r {
            Ok(s) => yaml_text(value_tree(*value)) == Ok::<Seq<char>, Seq<char>>(s@),
            Err(e) => yaml_text(value_tree(*value)) == Err::<Seq<char>, Seq<char>>(e@),
        },
{
    serde_yaml::to_string(value).map_err(|error| error.to_string())
}

/// The value that a JSON text writes, or why it writes none, as
/// `serde_json::from_str` has it.
pub uninterp spec fn json_parsed(s: Seq<char>) -> Result<JsonTree, Seq<char>>;

/// The text of a whole number that an `i64` or a `u64` holds, in decimal digits
/// without leading zeros.
pub open spec fn whole_text(s: Seq<char>) -> bool {
    exists|n: int|
        i64::MIN <= n <= u64::MAX && s == #[trigger] number::signed_decimal(n)
}

/// `serde_json::from_str` into a value: the value or the message of the error,
/// which are a function of the text. The text of a whole number that an `i64` or
/// a `u64` holds gives that number, which is written with the same digits.
#[verifier::external_body]
fn value_of_text(s: &str) -> (r: Result<serde_json::Value, String>)
    ensures
        match r {
            Ok(v) => json_parsed(s@) == Ok::<JsonTree, Seq<char>>(value_tree(v)),
            Err(e) => json_parsed(s@) == Err::<JsonTree, Seq<char>>(e@),
        },
        whole_text(s@) ==> r is Ok && value_tree(r->Ok_0) == JsonTree::Number(s@),
{
    serde_json::from_str::<serde_json::Value>(s).map_err(|error| error.to_string())
}

/// The value that bytes write in JSON, or why they write none, as
/// `serde_json::from_slice` has it.
pub uninterp spec fn json_parsed_bytes(bytes: Seq<u8>) -> Result<JsonTree, Seq<char>>;

/// `serde_json::from_slice` into a value: the value or the message of the error,
/// which are a function of the bytes.
#[verifier::external_body]
fn value_of_bytes(bytes: &[u8]) -> (r: Result<serde_json::Value, String>)
    ensures
        match r {
            Ok(v) => json_parsed_bytes(bytes@) == Ok::<JsonTree, Seq<char>>(value_tree(v)),
            Err(e) => json_parsed_bytes(bytes@) == Err::<JsonTree, Seq<char>>(e@),
        },
{
    serde_json::from_slice::<serde_json::Value>(bytes).map_err(|error| error.to_string())
}

/// What a call gave: a value's meaning or a message.
pub open spec fn read(r: Result<Json, String>) -> Result<JsonTree, Seq<char>> {
    match r {
        Ok(json) => Ok(json.tree()),
        Err(message) => Err(message@),
    }
}

/// What a call gave: a text or a message.
pub open spec fn written(r: Result<String, String>) -> Result<Seq<char>, Seq<char>> {
    match r {
        Ok(s) => Ok(s@),
        Err(message) => Err(message@),
    }
}

/// The value that a JSON text writes.
pub fn parse(s: &str) -> (r: Result<Json, String>)
    ensures
        read(r) == json_parsed(s@),
        whole_text(s@) ==> r is Ok && r->Ok_0.tree() == JsonTree::Number(s@),
{
    match value_of_text(s) {
        Ok(value) => Ok(from_value(value)),
        Err(message) => Err(message),
    }
}

/// The value that bytes write in JSON.
pub fn parse_bytes(bytes: &[u8]) -> (r: Result<Json, String>)
    ensures
        read(r) == json_parsed_bytes(bytes@),
{
    match value_of_bytes(bytes) {
        Ok(value) => Ok(from_value(value)),
        Err(message) => Err(message),
    }
}

impl Json {
    /// The text without white space.
    pub fn compact(&self) -> (r: String)
        ensures
            r@ == json_text(self.tree()),
    {
        match value_text(&to_value(self)) {
            Ok(s) => s,
            Err(message) => message,
        }
    }

    /// The indented text.
    pub fn pretty(&self) -> (r: String)
        ensures
            r@ == json_pretty(self.tree()),
    {
        match value_pretty(&to_value(self)) {
            Ok(s) => s,
            Err(message) => message,
        }
    }

    /// The TOML of the value.
    pub fn toml(&self) -> (r: Result<String, String>)
        ensures
            written(r) == toml_text(self.tree()),
    {
        value_toml(&to_value(self))
    }

    /// The YAML of the value.
    pub fn yaml(&self) -> (r: Result<String, String>)
        ensures
            written(r) == yaml_text(self.tree()),
    {
        value_yaml(&to_value(self))
    }
}

/// Fields from pairs of texts: each name with the text that it was given last.
pub proof fn law_text_fields_hold_the_last(
    pairs: Seq<(Seq<char>, Seq<char>)>,
    name: Seq<char>,
    value: Seq<char>,
    other: Seq<char>,
)
    ensures
        text_fields(pairs.push((name, value))).contains_key(name),
        text_fields(pairs.push((name, value)))[name] == JsonTree::Text(value),
        other != name ==> (text_fields(pairs.push((name, value))).contains_key(other)
            <==> text_fields(pairs).contains_key(other)),
        other != name && text_fields(pairs).contains_key(other) ==> text_fields(
            pairs.push((name, value)),
        )[other] == text_fields(pairs)[other],
{
    assert(pairs.push((name, value)).drop_last() =~= pairs);
}

/// A list of texts holds each of them, in order; a value that is missing is null,
/// and a number is written in decimal.
pub proof fn law_values_are_held(values: Seq<Seq<char>>, i: int, n: i64, b: bool)
    requires
        0 <= i < values.len(),
    ensures
        texts(values) matches JsonTree::Array(trees) && trees.len() == values.len() && trees[i]
            == JsonTree::Text(values[i]),
        optional_text(Some(values[i])) == JsonTree::Text(values[i]),
        optional_text(None) is Null,
        optional_i64(None) is Null,
        optional_whole(None) is Null,
        optional_bool(None) is Null,
        optional_bool(Some(b)) == JsonTree::Bool(b),
        optional_i64(Some(n)) == optional_whole(Some(n as int)),
        optional_i64(Some(n)) matches JsonTree::Number(s) && number::signed_value(
            s,
            i64::MIN as int,
            i64::MAX as int,
        ) == Some(n as int),
{
    number::law_decimal_is_read_back(n as int, i64::MIN as int, i64::MAX as int);
}

/// A value means what its variant says, and a list of values each of them in
/// order.
pub proof fn law_json_means_its_variant(b: bool, s: String, values: Vec<Json>, i: int)
    requires
        0 <= i < values@.len(),
    ensures
        Json::Null.tree() is Null,
        Json::Bool(b).tree() == JsonTree::Bool(b),
        Json::Text(s).tree() == JsonTree::Text(s@),
        Json::Array(values).tree() matches JsonTree::Array(held) && held.len() == values@.len()
            && held[i] == values@[i].tree(),
        trees(values@).len() == values@.len(),
        trees(values@)[i] == values@[i].tree(),
{
}

/// Names in order stand in dictionary order, each once, and are those of the set.
pub proof fn law_ordered_names(names: Set<Seq<char>>, i: int, j: int)
    requires
        names.finite(),
        0 <= i < j < ordered(names).len(),
    ensures
        text::precedes(ordered(names)[i], ordered(names)[j]),
        names.contains(ordered(names)[i]),
        names.contains(ordered(names)[j]),
        forall|name: Seq<char>| names.contains(name) ==> #[trigger] ordered(names).contains(name),
{
    lemma_ordered_finite(names);
    assert(ordered(names).to_set().contains(ordered(names)[i]));
    assert(ordered(names).to_set().contains(ordered(names)[j]));
    assert forall|name: Seq<char>| names.contains(name) implies #[trigger] ordered(
        names,
    ).contains(name) by {
        assert(ordered(names).to_set().contains(name));
    }
}

} // verus!
