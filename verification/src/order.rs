//! Names kept in order: sets of names, and tables from a name to a text.
//!
//! Both are walked in the order of their names, character by character, and
//! hold each name once.
use vstd::prelude::*;
use vstd::string::*;

use crate::text::{characters, same, texts};

verus! {

/// The order of names: the first character that differs decides, and a name
/// comes before every longer one that it starts.
pub open spec fn before(a: Seq<char>, b: Seq<char>) -> bool
    decreases a.len(),
{
    if b.len() == 0 {
        false
    } else if a.len() == 0 {
        true
    } else if a[0] != b[0] {
        a[0] < b[0]
    } else {
        before(a.skip(1), b.skip(1))
    }
}

/// Each name comes before the next, so none comes twice.
pub open spec fn ascending(names: Seq<Seq<char>>) -> bool {
    forall|i: int, j: int| 0 <= i < j < names.len() ==> before(#[trigger] names[i], #[trigger] names[j])
}

proof fn lemma_irreflexive(a: Seq<char>)
    ensures
        !before(a, a),
    decreases a.len(),
{
    if a.len() > 0 {
        lemma_irreflexive(a.skip(1));
    }
}

proof fn lemma_transitive(a: Seq<char>, b: Seq<char>, c: Seq<char>)
    requires
        before(a, b),
        before(b, c),
    ensures
        before(a, c),
    decreases a.len(),
{
    if a.len() > 0 && b.len() > 0 && c.len() > 0 && a[0] == b[0] && b[0] == c[0] {
        lemma_transitive(a.skip(1), b.skip(1), c.skip(1));
    }
}

proof fn lemma_total(a: Seq<char>, b: Seq<char>)
    ensures
        a == b || before(a, b) || before(b, a),
    decreases a.len(),
{
    if a.len() > 0 && b.len() > 0 && a[0] == b[0] {
        lemma_total(a.skip(1), b.skip(1));
        if a.skip(1) == b.skip(1) {
            assert(a =~= seq![a[0]] + a.skip(1));
            assert(b =~= seq![b[0]] + b.skip(1));
        }
    } else if a.len() == 0 && b.len() == 0 {
        assert(a =~= b);
    }
}

/// A name comes before itself nowhere, and of two different names one comes
/// before the other and not the other way round.
pub proof fn names_are_ordered(a: Seq<char>, b: Seq<char>)
    ensures
        !before(a, a),
        a != b ==> before(a, b) != before(b, a),
{
    lemma_irreflexive(a);
    lemma_total(a, b);
    if before(a, b) && before(b, a) {
        lemma_transitive(a, b, a);
    }
}

/// Names are ordered as a dictionary orders them: the first character that
/// differs decides, by its number, whatever follows it, and a name comes before
/// every longer one that it starts.
pub proof fn the_first_difference_decides(
    start: Seq<char>,
    a: char,
    one: Seq<char>,
    b: char,
    other: Seq<char>,
)
    ensures
        a != b ==> (before(start + seq![a] + one, start + seq![b] + other) <==> (a as u32) < (
        b as u32)),
        before(start, start + seq![a] + one),
        !before(start + seq![a] + one, start),
    decreases start.len(),
{
    let left = start + seq![a] + one;
    let right = start + seq![b] + other;
    if start.len() > 0 {
        the_first_difference_decides(start.skip(1), a, one, b, other);
        assert(left.skip(1) =~= start.skip(1) + seq![a] + one);
        assert(right.skip(1) =~= start.skip(1) + seq![b] + other);
        assert(left[0] == start[0] && right[0] == start[0]);
    } else {
        assert(left[0] == a && right[0] == b);
    }
}

/// What comes before a name comes before every other that the name does not
/// follow.
pub proof fn lemma_between(a: Seq<char>, b: Seq<char>, c: Seq<char>)
    requires
        before(a, b),
        !before(c, b),
    ensures
        before(a, c),
{
    lemma_total(b, c);
    if before(b, c) {
        lemma_transitive(a, b, c);
    }
}

/// Whether one name comes before another.
pub fn comes_before(a: &str, b: &str) -> (r: bool)
    ensures
        r == before(a@, b@),
{
    let left = characters(a);
    let right = characters(b);
    let mut i: usize = 0;
    assert(a@.skip(0) =~= a@ && b@.skip(0) =~= b@);
    loop
        invariant
            i <= left@.len(),
            i <= right@.len(),
            left@ == a@,
            right@ == b@,
            before(a@, b@) == before(a@.skip(i as int), b@.skip(i as int)),
        decreases left@.len() - i,
    {
        if i == right.len() {
            return false;
        }
        if i == left.len() {
            return true;
        }
        if left[i] != right[i] {
            return left[i] < right[i];
        }
        assert(a@.skip(i as int).skip(1) =~= a@.skip(i + 1));
        assert(b@.skip(i as int).skip(1) =~= b@.skip(i + 1));
        i += 1;
    }
}

/// The first position of `names` whose name does not come before `name`.
pub open spec fn slot(names: Seq<Seq<char>>, name: Seq<char>, i: int) -> bool {
    &&& 0 <= i <= names.len()
    &&& forall|j: int| 0 <= j < i ==> before(#[trigger] names[j], name)
    &&& i < names.len() ==> !before(names[i], name)
}

/// At its slot a name is either there already or belongs there.
proof fn lemma_slot(names: Seq<Seq<char>>, name: Seq<char>, i: int)
    requires
        ascending(names),
        slot(names, name, i),
    ensures
        names.contains(name) <==> i < names.len() && names[i] == name,
        i < names.len() && names[i] != name ==> before(name, names[i]),
        !names.contains(name) ==> ascending(names.insert(i, name)),
{
    if i < names.len() {
        lemma_total(names[i], name);
    }
    if names.contains(name) {
        let k = choose|k: int| 0 <= k < names.len() && names[k] == name;
        lemma_irreflexive(name);
        if k > i {
            assert(before(names[i], names[k]));
        }
        assert(k == i);
    }
    if !names.contains(name) {
        let more = names.insert(i, name);
        assert forall|a: int, b: int| 0 <= a < b < more.len() implies before(
            #[trigger] more[a],
            #[trigger] more[b],
        ) by {
            if a < i {
                if b == i {
                    assert(before(names[a], name));
                } else if b > i {
                    assert(more[b] == names[b - 1]);
                } else {
                    assert(more[b] == names[b]);
                }
            } else if a == i {
                assert(more[b] == names[b - 1]);
                if b - 1 > i {
                    lemma_transitive(name, names[i], names[b - 1]);
                }
            } else {
                assert(more[a] == names[a - 1] && more[b] == names[b - 1]);
            }
        }
    }
}

/// A set of names.
#[derive(Debug)]
pub struct Names {
    list: Vec<String>,
}

impl Names {
    /// The names, in their order.
    pub closed spec fn in_order(&self) -> Seq<Seq<char>> {
        texts(self.list@)
    }

    #[verifier::type_invariant]
    spec fn kept_in_order(&self) -> bool {
        ascending(texts(self.list@))
    }

    /// No names.
    pub fn new() -> (names: Names)
        ensures
            names.in_order() == Seq::<Seq<char>>::empty(),
    {
        let names = Names { list: Vec::new() };
        assert(names.in_order() =~= Seq::<Seq<char>>::empty());
        names
    }

    /// The names as a list, in their order.
    pub fn as_list(&self) -> (list: &Vec<String>)
        ensures
            texts(list@) == self.in_order(),
            ascending(self.in_order()),
    {
        proof {
            use_type_invariant(self);
        }
        &self.list
    }

    /// Whether a name is among them.
    pub fn contains(&self, name: &str) -> (r: bool)
        ensures
            r == self.in_order().contains(name@),
    {
        let mut i: usize = 0;
        while i < self.list.len()
            invariant
                i <= self.list@.len(),
                forall|j: int| 0 <= j < i ==> self.list@[j]@ != name@,
            decreases self.list@.len() - i,
        {
            if same(self.list[i].as_str(), name) {
                assert(self.in_order()[i as int] == name@);
                return true;
            }
            i += 1;
        }
        assert forall|j: int| 0 <= j < self.in_order().len() implies self.in_order()[j]
            != name@ by {
            assert(self.list@[j]@ != name@);
        }
        false
    }

    /// A name added, which changes nothing if it is there.
    pub fn insert(&mut self, name: String)
        ensures
            final(self).in_order().to_set() == old(self).in_order().to_set().insert(name@),
            ascending(final(self).in_order()),
    {
        proof {
            use_type_invariant(&*self);
        }
        let mut list: Vec<String> = Vec::new();
        std::mem::swap(&mut list, &mut self.list);
        let ghost names = texts(list@);
        let mut i: usize = 0;
        while i < list.len() && comes_before(list[i].as_str(), name.as_str())
            invariant
                i <= list@.len(),
                names == texts(list@),
                forall|j: int| 0 <= j < i ==> before(#[trigger] names[j], name@),
            decreases list@.len() - i,
        {
            assert(names[i as int] == list@[i as int]@);
            i += 1;
        }
        proof {
            lemma_slot(names, name@, i as int);
        }
        if i == list.len() || !same(list[i].as_str(), name.as_str()) {
            let ghost text = name@;
            list.insert(i, name);
            assert(texts(list@) =~= names.insert(i as int, text));
            proof {
                lemma_inserted(names, i as int, text);
            }
        } else {
            assert(names[i as int] == name@);
            assert(names.to_set().insert(name@) =~= names.to_set());
        }
        self.list = list;
    }
}

/// What an insertion adds.
proof fn lemma_inserted(names: Seq<Seq<char>>, i: int, name: Seq<char>)
    requires
        0 <= i <= names.len(),
    ensures
        names.insert(i, name).to_set() == names.to_set().insert(name),
{
    let more = names.insert(i, name);
    assert forall|n: Seq<char>| more.to_set().contains(n) == names.to_set().insert(name).contains(
        n,
    ) by {
        if more.contains(n) {
            let k = choose|k: int| 0 <= k < more.len() && more[k] == n;
            if k < i {
                assert(names[k] == n);
            } else if k > i {
                assert(names[k - 1] == n);
            }
        }
        if names.contains(n) {
            let k = choose|k: int| 0 <= k < names.len() && names[k] == n;
            if k < i {
                assert(more[k] == n);
            } else {
                assert(more[k + 1] == n);
            }
        }
        if n == name {
            assert(more[i] == n);
        }
    }
    assert(more.to_set() =~= names.to_set().insert(name));
}

/// The texts that a list of pairs holds, in order.
pub open spec fn pairs(list: Seq<(String, String)>) -> Seq<(Seq<char>, Seq<char>)> {
    Seq::new(list.len(), |i: int| (list[i].0@, list[i].1@))
}

/// The names of the pairs, in order.
pub open spec fn names_of(list: Seq<(Seq<char>, Seq<char>)>) -> Seq<Seq<char>> {
    Seq::new(list.len(), |i: int| list[i].0)
}

/// What each name in the list stands for.
pub open spec fn as_map(list: Seq<(Seq<char>, Seq<char>)>) -> Map<Seq<char>, Seq<char>> {
    Map::new(
        |name: Seq<char>| names_of(list).contains(name),
        |name: Seq<char>| list[place(list, name)].1,
    )
}

/// Where a name is in the list.
pub open spec fn place(list: Seq<(Seq<char>, Seq<char>)>, name: Seq<char>) -> int {
    choose|i: int| 0 <= i < list.len() && (#[trigger] list[i]).0 == name
}

/// A table whose names ascend holds each of its pairs.
pub proof fn lemma_as_map(list: Seq<(Seq<char>, Seq<char>)>, i: int)
    requires
        ascending(names_of(list)),
        0 <= i < list.len(),
    ensures
        as_map(list).dom().contains(list[i].0),
        as_map(list)[list[i].0] == list[i].1,
{
    let name = list[i].0;
    assert(names_of(list)[i] == name);
    let k = place(list, name);
    assert(names_of(list)[k] == name);
    lemma_irreflexive(name);
    assert(k == i) by {
        if k < i {
            assert(before(names_of(list)[k], names_of(list)[i]));
        } else if i < k {
            assert(before(names_of(list)[i], names_of(list)[k]));
        }
    }
}

/// A table from names to texts.
#[derive(Debug)]
pub struct Table {
    entries: Vec<(String, String)>,
}

impl View for Table {
    type V = Map<Seq<char>, Seq<char>>;

    open spec fn view(&self) -> Map<Seq<char>, Seq<char>> {
        as_map(self.in_order())
    }
}

impl Table {
    /// The names and what each stands for, in the order of the names.
    pub closed spec fn in_order(&self) -> Seq<(Seq<char>, Seq<char>)> {
        pairs(self.entries@)
    }

    #[verifier::type_invariant]
    spec fn kept_in_order(&self) -> bool {
        ascending(names_of(pairs(self.entries@)))
    }

    /// No names.
    pub fn new() -> (table: Table)
        ensures
            table.in_order() == Seq::<(Seq<char>, Seq<char>)>::empty(),
            table@ == Map::<Seq<char>, Seq<char>>::empty(),
    {
        let table = Table { entries: Vec::new() };
        assert(table.in_order() =~= Seq::<(Seq<char>, Seq<char>)>::empty());
        assert(table@ =~= Map::<Seq<char>, Seq<char>>::empty());
        table
    }

    /// The names and what each stands for, as a list, in the order of the names.
    pub fn as_list(&self) -> (list: &Vec<(String, String)>)
        ensures
            pairs(list@) == self.in_order(),
            ascending(names_of(self.in_order())),
    {
        proof {
            use_type_invariant(self);
        }
        &self.entries
    }

    /// What a name stands for.
    pub fn get(&self, name: &str) -> (r: Option<&str>)
        ensures
            match r {
                Some(text) => self@.dom().contains(name@) && self@[name@] == text@,
                None => !self@.dom().contains(name@),
            },
    {
        proof {
            use_type_invariant(self);
        }
        let mut i: usize = 0;
        while i < self.entries.len()
            invariant
                i <= self.entries@.len(),
                ascending(names_of(pairs(self.entries@))),
                forall|j: int| 0 <= j < i ==> (#[trigger] self.entries@[j]).0@ != name@,
            decreases self.entries@.len() - i,
        {
            if same(self.entries[i].0.as_str(), name) {
                proof {
                    lemma_as_map(self.in_order(), i as int);
                }
                return Some(self.entries[i].1.as_str());
            }
            i += 1;
        }
        assert forall|j: int| 0 <= j < names_of(self.in_order()).len() implies names_of(
            self.in_order(),
        )[j] != name@ by {
            assert(self.entries@[j].0@ != name@);
        }
        None
    }

    /// Whether a name is in the table.
    pub fn contains_key(&self, name: &str) -> (r: bool)
        ensures
            r == self@.dom().contains(name@),
    {
        self.get(name).is_some()
    }

    /// How many names the table has.
    pub fn len(&self) -> (n: usize)
        ensures
            n == self.in_order().len(),
    {
        self.entries.len()
    }

    /// What a name stands for from now on.
    pub fn insert(&mut self, name: String, text: String)
        ensures
            final(self)@ == old(self)@.insert(name@, text@),
    {
        proof {
            use_type_invariant(&*self);
        }
        let mut entries: Vec<(String, String)> = Vec::new();
        std::mem::swap(&mut entries, &mut self.entries);
        let ghost list = pairs(entries@);
        let ghost names = names_of(list);
        let mut i: usize = 0;
        while i < entries.len() && comes_before(entries[i].0.as_str(), name.as_str())
            invariant
                i <= entries@.len(),
                list == pairs(entries@),
                names == names_of(list),
                forall|j: int| 0 <= j < i ==> before(#[trigger] names[j], name@),
            decreases entries@.len() - i,
        {
            assert(names[i as int] == entries@[i as int].0@);
            i += 1;
        }
        proof {
            lemma_slot(names, name@, i as int);
        }
        let ghost entry = (name@, text@);
        if i == entries.len() || !same(entries[i].0.as_str(), name.as_str()) {
            entries.insert(i, (name, text));
            assert(pairs(entries@) =~= list.insert(i as int, entry));
            assert(names_of(pairs(entries@)) =~= names.insert(i as int, entry.0));
            proof {
                lemma_inserted(names, i as int, entry.0);
            }
        } else {
            assert(names[i as int] == entry.0);
            entries.set(i, (name, text));
            assert(pairs(entries@) =~= list.update(i as int, entry));
            assert(names_of(pairs(entries@)) =~= names);
        }
        proof {
            lemma_updated(list, pairs(entries@), i as int, entry);
        }
        self.entries = entries;
    }
}

/// A table with one pair inserted or replaced maps its name anew and every
/// other name as it did.
proof fn lemma_updated(
    list: Seq<(Seq<char>, Seq<char>)>,
    more: Seq<(Seq<char>, Seq<char>)>,
    i: int,
    entry: (Seq<char>, Seq<char>),
)
    requires
        ascending(names_of(list)),
        ascending(names_of(more)),
        0 <= i <= list.len(),
        more == list.insert(i, entry) || (i < list.len() && list[i].0 == entry.0 && more
            == list.update(i, entry)),
    ensures
        as_map(more) == as_map(list).insert(entry.0, entry.1),
{
    let wanted = as_map(list).insert(entry.0, entry.1);
    assert(more[i] == entry);
    lemma_as_map(more, i);
    assert forall|name: Seq<char>| as_map(more).dom().contains(name) == wanted.dom().contains(
        name,
    ) by {
        if names_of(more).contains(name) {
            let k = choose|k: int| 0 <= k < more.len() && names_of(more)[k] == name;
            if k != i {
                let old = if k < i || more.len() == list.len() {
                    k
                } else {
                    k - 1
                };
                assert(names_of(list)[old] == name);
            }
        }
        if names_of(list).contains(name) {
            let k = choose|k: int| 0 <= k < list.len() && names_of(list)[k] == name;
            let new = if k < i || more.len() == list.len() {
                k
            } else {
                k + 1
            };
            assert(names_of(more)[new] == name);
        }
    }
    assert forall|name: Seq<char>| as_map(more).dom().contains(name) implies as_map(more)[name]
        == wanted[name] by {
        let k = choose|k: int| 0 <= k < more.len() && names_of(more)[k] == name;
        lemma_as_map(more, k);
        if k != i {
            let old = if k < i || more.len() == list.len() {
                k
            } else {
                k - 1
            };
            assert(list[old] == more[k]);
            lemma_as_map(list, old);
            if name == entry.0 {
                lemma_as_map(more, k);
            }
        }
    }
    assert(as_map(more) =~= wanted);
}

// ── One order ────────────────────────────────────────────────────────────────

/// Names in their order.
pub open spec fn sorted(names: Set<Seq<char>>) -> Seq<Seq<char>> {
    choose|list: Seq<Seq<char>>| #[trigger] ascending(list) && list.to_set() == names
}

/// A table's names and what each stands for, in the order of the names.
pub open spec fn listed(table: Map<Seq<char>, Seq<char>>) -> Seq<(Seq<char>, Seq<char>)> {
    choose|list: Seq<(Seq<char>, Seq<char>)>|
        ascending(#[trigger] names_of(list)) && as_map(list) == table
}

proof fn lemma_one_order(a: Seq<Seq<char>>, b: Seq<Seq<char>>)
    requires
        ascending(a),
        ascending(b),
        forall|name: Seq<char>| a.contains(name) == b.contains(name),
    ensures
        a == b,
    decreases a.len(),
{
    if a.len() == 0 {
        if b.len() > 0 {
            assert(b.contains(b[0]));
        }
        assert(a =~= b);
    } else {
        assert(a.contains(a[0]));
        let k = choose|k: int| 0 <= k < b.len() && b[k] == a[0];
        assert(b.contains(b[0]));
        let m = choose|m: int| 0 <= m < a.len() && a[m] == b[0];
        names_are_ordered(a[0], b[0]);
        if k > 0 && m > 0 {
            assert(before(b[0], b[k]));
            assert(before(a[0], a[m]));
        }
        assert(a[0] == b[0]);
        let rest = a.skip(1);
        let more = b.skip(1);
        assert forall|i: int, j: int| 0 <= i < j < rest.len() implies before(
            #[trigger] rest[i],
            #[trigger] rest[j],
        ) by {
            assert(before(a[i + 1], a[j + 1]));
        }
        assert forall|i: int, j: int| 0 <= i < j < more.len() implies before(
            #[trigger] more[i],
            #[trigger] more[j],
        ) by {
            assert(before(b[i + 1], b[j + 1]));
        }
        assert forall|name: Seq<char>| rest.contains(name) == more.contains(name) by {
            lemma_after_the_first(a, name);
            lemma_after_the_first(b, name);
        }
        lemma_one_order(rest, more);
        assert(a =~= seq![a[0]] + rest);
        assert(b =~= seq![b[0]] + more);
    }
}

proof fn lemma_after_the_first(list: Seq<Seq<char>>, name: Seq<char>)
    requires
        list.len() > 0,
        ascending(list),
    ensures
        list.skip(1).contains(name) == (list.contains(name) && name != list[0]),
{
    let rest = list.skip(1);
    if rest.contains(name) {
        let k = choose|k: int| 0 <= k < rest.len() && rest[k] == name;
        assert(list[k + 1] == name);
        assert(before(list[0], list[k + 1]));
        lemma_irreflexive(name);
    }
    if list.contains(name) && name != list[0] {
        let k = choose|k: int| 0 <= k < list.len() && list[k] == name;
        assert(rest[k - 1] == name);
    }
}

/// There is one order of names.
pub proof fn lemma_sorted(list: Seq<Seq<char>>)
    requires
        ascending(list),
    ensures
        sorted(list.to_set()) == list,
{
    let other = sorted(list.to_set());
    assert(ascending(other) && other.to_set() == list.to_set());
    assert forall|name: Seq<char>| list.contains(name) == other.contains(name) by {
        assert(list.to_set().contains(name) == other.to_set().contains(name));
    }
    lemma_one_order(list, other);
}

/// There is one order of a table's names.
pub proof fn lemma_listed(list: Seq<(Seq<char>, Seq<char>)>)
    requires
        ascending(names_of(list)),
    ensures
        listed(as_map(list)) == list,
{
    let other = listed(as_map(list));
    assert(ascending(names_of(other)) && as_map(other) == as_map(list));
    assert forall|name: Seq<char>| names_of(list).contains(name) == names_of(other).contains(
        name,
    ) by {
        assert(as_map(list).dom().contains(name) == as_map(other).dom().contains(name));
    }
    lemma_one_order(names_of(list), names_of(other));
    assert(names_of(list).len() == list.len() && names_of(other).len() == other.len());
    assert forall|i: int| 0 <= i < list.len() implies list[i] == other[i] by {
        assert(names_of(list)[i] == names_of(other)[i]);
        lemma_as_map(list, i);
        lemma_as_map(other, i);
    }
    assert(list =~= other);
}

} // verus!
