//! Values kept under names, in the order of the names.
use crate::text::{
    among, lemma_precedes_irreflexive, lemma_precedes_total, lemma_precedes_transitive, less,
    opt_view, precedes, same, same_texts, views,
};
use vstd::prelude::*;

verus! {

/// Whether texts stand in ascending order, each once.
pub open spec fn ascending(names: Seq<Seq<char>>) -> bool {
    forall|i: int, j: int|
        0 <= i < j < names.len() ==> precedes(#[trigger] names[i], #[trigger] names[j])
}

/// The place of a name among names in ascending order.
pub enum Place {
    At(usize),
    Before(usize),
}

/// The place that a name has, or would have.
pub fn find_place(names: &Vec<String>, name: &str) -> (r: Place)
    requires
        ascending(views(names@)),
    ensures
        match r {
            Place::At(i) => i < names@.len() && names@[i as int]@ == name@,
            Place::Before(i) => {
                &&& i <= names@.len()
                &&& !among(names@, name@)
                &&& forall|k: int| 0 <= k < i ==> precedes((#[trigger] names@[k])@, name@)
                &&& forall|k: int| i <= k < names@.len() ==> precedes(name@, (#[trigger] names@[k])@)
            },
        },
{
    let mut i: usize = 0;
    while i < names.len() && less(names[i].as_str(), name)
        invariant
            i <= names@.len(),
            forall|k: int| 0 <= k < i ==> precedes((#[trigger] names@[k])@, name@),
        decreases names.len() - i,
    {
        i += 1;
    }
    if i < names.len() && same(names[i].as_str(), name) {
        return Place::At(i);
    }
    proof {
        let all = views(names@);
        if i < names@.len() {
            lemma_precedes_total(names@[i as int]@, name@);
        }
        assert forall|k: int| i <= k < names@.len() implies precedes(
            name@,
            (#[trigger] names@[k])@,
        ) by {
            if k > i {
                assert(precedes(all[i as int], all[k]));
                lemma_precedes_transitive(name@, all[i as int], all[k]);
            }
        }
        lemma_precedes_irreflexive(name@);
        assert(!among(names@, name@));
    }
    Place::Before(i)
}

/// Names stay in ascending order when one is put in its place.
pub proof fn lemma_insert_ascending(names: Seq<Seq<char>>, name: Seq<char>, i: int)
    requires
        ascending(names),
        0 <= i <= names.len(),
        forall|k: int| 0 <= k < i ==> precedes(#[trigger] names[k], name),
        forall|k: int| i <= k < names.len() ==> precedes(name, #[trigger] names[k]),
    ensures
        ascending(names.insert(i, name)),
{
    let all = names.insert(i, name);
    assert forall|a: int, b: int| 0 <= a < b < all.len() implies precedes(
        #[trigger] all[a],
        #[trigger] all[b],
    ) by {
        let x = if a < i {
            names[a]
        } else if a == i {
            name
        } else {
            names[a - 1]
        };
        let y = if b < i {
            names[b]
        } else if b == i {
            name
        } else {
            names[b - 1]
        };
        assert(all[a] == x && all[b] == y);
    }
}

/// In ascending order a name stands at one place.
pub proof fn lemma_one_place(names: Seq<Seq<char>>, i: int, j: int)
    requires
        ascending(names),
        0 <= i < names.len(),
        0 <= j < names.len(),
        names[i] == names[j],
    ensures
        i == j,
{
    lemma_precedes_irreflexive(names[i]);
}

/// Two sequences of names in ascending order with the same members are the same.
pub proof fn lemma_same_members(a: Seq<Seq<char>>, b: Seq<Seq<char>>)
    requires
        ascending(a),
        ascending(b),
        forall|x: Seq<char>| #[trigger] a.contains(x) <==> b.contains(x),
    ensures
        a == b,
    decreases a.len(),
{
    if a.len() == 0 {
        if b.len() > 0 {
            assert(b.contains(b[0]));
            assert(a.contains(b[0]));
        }
        assert(a =~= b);
    } else {
        assert(a.contains(a[0]));
        let m = choose|m: int| 0 <= m < b.len() && b[m] == a[0];
        assert(b.contains(b[0]));
        assert(a.contains(b[0]));
        let n = choose|n: int| 0 <= n < a.len() && a[n] == b[0];
        if m > 0 {
            assert(precedes(b[0], b[m]));
            if n > 0 {
                assert(precedes(a[0], a[n]));
                lemma_precedes_transitive(a[0], b[0], a[0]);
            }
            lemma_precedes_irreflexive(a[0]);
        }
        assert(b[0] == a[0]);
        let ta = a.drop_first();
        let tb = b.drop_first();
        assert(ascending(ta)) by {
            assert forall|i: int, j: int| 0 <= i < j < ta.len() implies precedes(
                #[trigger] ta[i],
                #[trigger] ta[j],
            ) by {
                assert(precedes(a[i + 1], a[j + 1]));
            }
        }
        assert(ascending(tb)) by {
            assert forall|i: int, j: int| 0 <= i < j < tb.len() implies precedes(
                #[trigger] tb[i],
                #[trigger] tb[j],
            ) by {
                assert(precedes(b[i + 1], b[j + 1]));
            }
        }
        assert forall|x: Seq<char>| #[trigger] ta.contains(x) <==> tb.contains(x) by {
            if ta.contains(x) {
                let i = choose|i: int| 0 <= i < ta.len() && ta[i] == x;
                assert(a[i + 1] == x);
                assert(a.contains(x));
                let j = choose|j: int| 0 <= j < b.len() && b[j] == x;
                if j == 0 {
                    lemma_one_place(a, 0, i + 1);
                }
                assert(tb[j - 1] == x);
            }
            if tb.contains(x) {
                let j = choose|j: int| 0 <= j < tb.len() && tb[j] == x;
                assert(b[j + 1] == x);
                assert(b.contains(x));
                assert(a.contains(x));
                let i = choose|i: int| 0 <= i < a.len() && a[i] == x;
                if i == 0 {
                    lemma_one_place(b, 0, j + 1);
                }
                assert(ta[i - 1] == x);
            }
        }
        lemma_same_members(ta, tb);
        assert(a =~= seq![a[0]] + ta);
        assert(b =~= seq![b[0]] + tb);
    }
}

/// The texts of which `wanted` holds, in ascending order, where they are finitely many.
pub open spec fn listed(wanted: spec_fn(Seq<char>) -> bool) -> Seq<Seq<char>> {
    choose|names: Seq<Seq<char>>| #[trigger]
        ascending(names) && forall|x: Seq<char>| #[trigger] names.contains(x) <==> wanted(x)
}

/// Names in ascending order are the list of what holds of exactly them.
pub proof fn lemma_listed(names: Seq<Seq<char>>, wanted: spec_fn(Seq<char>) -> bool)
    requires
        ascending(names),
        forall|x: Seq<char>| #[trigger] names.contains(x) <==> wanted(x),
    ensures
        listed(wanted) == names,
{
    let other = listed(wanted);
    assert(ascending(other) && forall|x: Seq<char>| #[trigger] other.contains(x) <==> wanted(x));
    assert forall|x: Seq<char>| #[trigger] names.contains(x) <==> other.contains(x) by {
        assert(other.contains(x) <==> wanted(x));
    }
    lemma_same_members(names, other);
}

/// A text is among strings exactly when it is one of their views.
pub proof fn lemma_views_contain(strings: Seq<String>, x: Seq<char>)
    ensures
        views(strings).contains(x) <==> among(strings, x),
{
    if views(strings).contains(x) {
        let i = choose|i: int| 0 <= i < views(strings).len() && views(strings)[i] == x;
        assert(strings[i]@ == x);
    }
    if among(strings, x) {
        let i = choose|i: int| 0 <= i < strings.len() && #[trigger] strings[i]@ == x;
        assert(views(strings)[i] == x);
    }
}

/// Strings in ascending order are the list of what holds of exactly them.
pub proof fn lemma_views_listed(strings: Seq<String>, wanted: spec_fn(Seq<char>) -> bool)
    requires
        ascending(views(strings)),
        forall|x: Seq<char>| #[trigger] among(strings, x) <==> wanted(x),
    ensures
        views(strings) == listed(wanted),
        forall|x: Seq<char>| #[trigger] listed(wanted).contains(x) <==> wanted(x),
{
    assert forall|x: Seq<char>| #[trigger] views(strings).contains(x) <==> wanted(x) by {
        lemma_views_contain(strings, x);
    }
    lemma_listed(views(strings), wanted);
}

proof fn lemma_place_exists(names: Seq<Seq<char>>, name: Seq<char>) -> (i: int)
    requires
        ascending(names),
        !names.contains(name),
    ensures
        0 <= i <= names.len(),
        forall|k: int| 0 <= k < i ==> precedes(#[trigger] names[k], name),
        forall|k: int| i <= k < names.len() ==> precedes(name, #[trigger] names[k]),
    decreases names.len(),
{
    if names.len() == 0 {
        0
    } else {
        let rest = names.drop_last();
        assert(names.contains(names.last()));
        assert forall|x: Seq<char>| #[trigger] rest.contains(x) implies names.contains(x) by {
            let k = choose|k: int| 0 <= k < rest.len() && rest[k] == x;
            assert(names[k] == x);
        }
        assert forall|a: int, b: int| 0 <= a < b < rest.len() implies precedes(
            #[trigger] rest[a],
            #[trigger] rest[b],
        ) by {
            assert(precedes(names[a], names[b]));
        }
        lemma_precedes_total(names.last(), name);
        if precedes(names.last(), name) {
            assert forall|k: int| 0 <= k < names.len() implies precedes(
                #[trigger] names[k],
                name,
            ) by {
                if k < names.len() - 1 {
                    assert(precedes(names[k], names[names.len() - 1]));
                    lemma_precedes_transitive(names[k], names.last(), name);
                }
            }
            names.len() as int
        } else {
            let i = lemma_place_exists(rest, name);
            assert forall|k: int| 0 <= k < i implies precedes(#[trigger] names[k], name) by {
                assert(rest[k] == names[k]);
            }
            assert forall|k: int| i <= k < names.len() implies precedes(
                name,
                #[trigger] names[k],
            ) by {
                if k < names.len() - 1 {
                    assert(rest[k] == names[k]);
                }
            }
            i
        }
    }
}

proof fn lemma_order_exists(texts: Seq<Seq<char>>) -> (names: Seq<Seq<char>>)
    ensures
        ascending(names),
        forall|x: Seq<char>| #[trigger] names.contains(x) <==> texts.contains(x),
    decreases texts.len(),
{
    if texts.len() == 0 {
        Seq::empty()
    } else {
        let name = texts.last();
        let rest = lemma_order_exists(texts.drop_last());
        assert forall|x: Seq<char>| #[trigger] texts.contains(x) <==> (rest.contains(x) || x
            == name) by {
            assert(rest.contains(x) <==> texts.drop_last().contains(x));
            if texts.contains(x) {
                let k = choose|k: int| 0 <= k < texts.len() && texts[k] == x;
                if k < texts.len() - 1 {
                    assert(texts.drop_last()[k] == x);
                }
            }
            if texts.drop_last().contains(x) {
                let k = choose|k: int| 0 <= k < texts.len() - 1 && texts.drop_last()[k] == x;
                assert(texts[k] == x);
            }
            assert(texts[texts.len() - 1] == name);
        }
        if rest.contains(name) {
            rest
        } else {
            let i = lemma_place_exists(rest, name);
            lemma_insert_ascending(rest, name, i);
            let all = rest.insert(i, name);
            assert forall|x: Seq<char>| #[trigger] all.contains(x) <==> texts.contains(x) by {
                if all.contains(x) {
                    let k = choose|k: int| 0 <= k < all.len() && all[k] == x;
                    if k < i {
                        assert(rest[k] == x);
                    } else if k > i {
                        assert(rest[k - 1] == x);
                    }
                }
                if rest.contains(x) {
                    let k = choose|k: int| 0 <= k < rest.len() && rest[k] == x;
                    if k < i {
                        assert(all[k] == x);
                    } else {
                        assert(all[k + 1] == x);
                    }
                }
                assert(all[i] == name);
            }
            all
        }
    }
}

/// What holds of finitely many texts is listed: the list ascends, and it has exactly those texts.
pub proof fn lists_hold_what_is_wanted(texts: Seq<Seq<char>>, wanted: spec_fn(Seq<char>) -> bool)
    requires
        forall|x: Seq<char>| #[trigger] wanted(x) <==> texts.contains(x),
    ensures
        ascending(listed(wanted)),
        forall|x: Seq<char>| #[trigger] listed(wanted).contains(x) <==> wanted(x),
{
    let names = lemma_order_exists(texts);
    assert forall|x: Seq<char>| #[trigger] names.contains(x) <==> wanted(x) by {
        assert(wanted(x) <==> texts.contains(x));
    }
    lemma_listed(names, wanted);
}

/// Puts a name among names in ascending order, unless it is there.
pub fn insert_name(names: &mut Vec<String>, name: &str)
    requires
        ascending(views(old(names)@)),
    ensures
        ascending(views(final(names)@)),
        forall|x: Seq<char>| #[trigger]
            among(final(names)@, x) <==> among(old(names)@, x) || x == name@,
{
    let ghost before = names@;
    match find_place(names, name) {
        Place::At(i) => {
            assert(before[i as int]@ == name@);
        },
        Place::Before(i) => {
            let owned = name.to_string();
            names.insert(i, owned);
            proof {
                assert(views(names@) =~= views(before).insert(i as int, name@));
                lemma_insert_ascending(views(before), name@, i as int);
                assert forall|x: Seq<char>| #[trigger] among(names@, x) <==> among(before, x) || x
                    == name@ by {
                    if among(names@, x) {
                        let j = choose|j: int| 0 <= j < names@.len() && #[trigger] names@[j]@ == x;
                        if j < i {
                            assert(before[j]@ == x);
                        } else if j > i {
                            assert(before[j - 1]@ == x);
                        }
                    }
                    if among(before, x) {
                        let j = choose|j: int| 0 <= j < before.len() && #[trigger] before[j]@ == x;
                        if j < i {
                            assert(names@[j]@ == x);
                        } else {
                            assert(names@[j + 1]@ == x);
                        }
                    }
                    assert(names@[i as int]@ == name@);
                }
            }
        },
    }
}

/// Numbers kept under names, in the order of the names.
#[derive(Debug)]
pub struct Tally {
    pub names: Vec<String>,
    pub numbers: Vec<u64>,
}

/// The number under a name, zero where there is none.
pub open spec fn number_under(m: Map<Seq<char>, nat>, name: Seq<char>) -> nat {
    if m.dom().contains(name) {
        m[name]
    } else {
        0
    }
}

/// A tally with `n` more under `name`.
pub open spec fn tallied(m: Map<Seq<char>, nat>, name: Seq<char>, n: nat) -> Map<Seq<char>, nat> {
    m.insert(name, number_under(m, name) + n)
}

/// Whether no number of a tally exceeds a limit.
pub open spec fn within(m: Map<Seq<char>, nat>, limit: nat) -> bool {
    forall|name: Seq<char>| #[trigger] number_under(m, name) <= limit
}

/// What a tally gains under one name, its limit gains.
pub proof fn lemma_tallied_within(m: Map<Seq<char>, nat>, name: Seq<char>, n: nat, limit: nat)
    requires
        within(m, limit),
    ensures
        within(tallied(m, name, n), limit + n),
{
    let after = tallied(m, name, n);
    assert forall|x: Seq<char>| #[trigger] number_under(after, x) <= limit + n by {
        assert(number_under(m, x) <= limit);
    }
}

/// Whether every number of a tally fits in 64 bits.
pub open spec fn fits(m: Map<Seq<char>, nat>) -> bool {
    forall|name: Seq<char>| #[trigger] m.dom().contains(name) ==> m[name] <= u64::MAX
}

/// The place of a name.
pub open spec fn place(names: Seq<String>, name: Seq<char>) -> int {
    choose|i: int| 0 <= i < names.len() && #[trigger] names[i]@ == name
}

impl View for Tally {
    type V = Map<Seq<char>, nat>;

    open spec fn view(&self) -> Map<Seq<char>, nat> {
        Map::new(
            |name: Seq<char>| among(self.names@, name),
            |name: Seq<char>| self.numbers@[place(self.names@, name)] as nat,
        )
    }
}

impl Tally {
    /// The names ascend, and each has its number.
    pub open spec fn well_formed(self) -> bool {
        ascending(views(self.names@)) && self.names@.len() == self.numbers@.len()
    }

    proof fn lemma_number_at(self, i: int)
        requires
            self.well_formed(),
            0 <= i < self.names@.len(),
        ensures
            self@.dom().contains(self.names@[i]@),
            self@[self.names@[i]@] == self.numbers@[i],
    {
        let name = self.names@[i]@;
        let j = place(self.names@, name);
        assert(0 <= j < self.names@.len() && self.names@[j]@ == name);
        lemma_one_place(views(self.names@), i, j);
    }

    /// A tally of nothing.
    pub fn new() -> (r: Tally)
        ensures
            r.well_formed(),
            r@ == Map::<Seq<char>, nat>::empty(),
    {
        let r = Tally { names: Vec::new(), numbers: Vec::new() };
        assert(r@ =~= Map::<Seq<char>, nat>::empty());
        r
    }

    /// Adds `n` under `name`.
    pub fn tally(&mut self, name: &str, n: u64)
        requires
            old(self).well_formed(),
            number_under(old(self)@, name@) + n <= u64::MAX,
        ensures
            final(self).well_formed(),
            final(self)@ == tallied(old(self)@, name@, n as nat),
    {
        let ghost before = *self;
        match find_place(&self.names, name) {
            Place::At(i) => {
                proof {
                    before.lemma_number_at(i as int);
                }
                let total: u64 = self.numbers[i] + n;
                self.numbers.set(i, total);
                proof {
                    assert(self.names@ == before.names@);
                    assert forall|x: Seq<char>| #[trigger] self@.dom().contains(x) implies self@[x]
                        == tallied(before@, name@, n as nat)[x] by {
                        let j = choose|j: int|
                            0 <= j < self.names@.len() && #[trigger] self.names@[j]@ == x;
                        self.lemma_number_at(j);
                        before.lemma_number_at(j);
                        if x == name@ {
                            lemma_one_place(views(self.names@), i as int, j);
                        }
                    }
                    assert(self@ =~= tallied(before@, name@, n as nat));
                }
            },
            Place::Before(i) => {
                let owned = name.to_string();
                self.names.insert(i, owned);
                self.numbers.insert(i, n);
                proof {
                    assert(views(self.names@) =~= views(before.names@).insert(i as int, name@));
                    lemma_insert_ascending(views(before.names@), name@, i as int);
                    assert forall|x: Seq<char>| self@.dom().contains(x) <==> tallied(
                        before@,
                        name@,
                        n as nat,
                    ).dom().contains(x) by {
                        if among(self.names@, x) {
                            let j = choose|j: int|
                                0 <= j < self.names@.len() && #[trigger] self.names@[j]@ == x;
                            if j < i {
                                assert(before.names@[j]@ == x);
                            } else if j > i {
                                assert(before.names@[j - 1]@ == x);
                            }
                        }
                        if among(before.names@, x) {
                            let j = choose|j: int|
                                0 <= j < before.names@.len() && #[trigger] before.names@[j]@ == x;
                            if j < i {
                                assert(self.names@[j]@ == x);
                            } else {
                                assert(self.names@[j + 1]@ == x);
                            }
                        }
                        assert(self.names@[i as int]@ == name@);
                    }
                    assert forall|x: Seq<char>| #[trigger] self@.dom().contains(x) implies self@[x]
                        == tallied(before@, name@, n as nat)[x] by {
                        let j = choose|j: int|
                            0 <= j < self.names@.len() && #[trigger] self.names@[j]@ == x;
                        self.lemma_number_at(j);
                        if j < i {
                            before.lemma_number_at(j);
                            assert(among(before.names@, x));
                        } else if j > i {
                            before.lemma_number_at(j - 1);
                            assert(before.names@[j - 1]@ == x);
                        }
                    }
                    assert(self@ =~= tallied(before@, name@, n as nat));
                }
            },
        }
    }

    /// The number under a name, where there is one.
    pub fn get(&self, name: &str) -> (r: Option<u64>)
        requires
            self.well_formed(),
        ensures
            match r {
                Some(n) => self@.dom().contains(name@) && self@[name@] == n,
                None => !self@.dom().contains(name@),
            },
    {
        match find_place(&self.names, name) {
            Place::At(i) => {
                proof {
                    self.lemma_number_at(i as int);
                }
                Some(self.numbers[i])
            },
            Place::Before(_) => None,
        }
    }
}

/// Texts kept under names, in the order of the names.
#[derive(Debug)]
pub struct Register {
    pub names: Vec<String>,
    pub values: Vec<String>,
}

impl View for Register {
    type V = Map<Seq<char>, Seq<char>>;

    open spec fn view(&self) -> Map<Seq<char>, Seq<char>> {
        Map::new(
            |name: Seq<char>| among(self.names@, name),
            |name: Seq<char>| self.values@[place(self.names@, name)]@,
        )
    }
}

impl Register {
    /// The names ascend, and each has its text.
    pub open spec fn well_formed(self) -> bool {
        ascending(views(self.names@)) && self.names@.len() == self.values@.len()
    }

    proof fn lemma_value_at(self, i: int)
        requires
            self.well_formed(),
            0 <= i < self.names@.len(),
        ensures
            self@.dom().contains(self.names@[i]@),
            self@[self.names@[i]@] == self.values@[i]@,
    {
        let name = self.names@[i]@;
        let j = place(self.names@, name);
        assert(0 <= j < self.names@.len() && self.names@[j]@ == name);
        lemma_one_place(views(self.names@), i, j);
    }

    /// A register of nothing.
    pub fn new() -> (r: Register)
        ensures
            r.well_formed(),
            r@ == Map::<Seq<char>, Seq<char>>::empty(),
    {
        let r = Register { names: Vec::new(), values: Vec::new() };
        assert(r@ =~= Map::<Seq<char>, Seq<char>>::empty());
        r
    }

    /// The text under a name, where there is one.
    pub fn find(&self, name: &str) -> (r: Option<&String>)
        requires
            self.well_formed(),
        ensures
            match r {
                Some(text) => self@.dom().contains(name@) && self@[name@] == text@,
                None => !self@.dom().contains(name@),
            },
    {
        match find_place(&self.names, name) {
            Place::At(i) => {
                proof {
                    self.lemma_value_at(i as int);
                }
                Some(&self.values[i])
            },
            Place::Before(_) => None,
        }
    }

    /// Puts a text under a name, in place of what was there.
    pub fn put(&mut self, name: &str, value: &str)
        requires
            old(self).well_formed(),
        ensures
            final(self).well_formed(),
            final(self)@ == old(self)@.insert(name@, value@),
    {
        let ghost before = *self;
        match find_place(&self.names, name) {
            Place::At(i) => {
                self.values.set(i, value.to_string());
                proof {
                    assert(self.names@ == before.names@);
                    assert forall|x: Seq<char>| #[trigger] self@.dom().contains(x) implies self@[x]
                        == before@.insert(name@, value@)[x] by {
                        let j = choose|j: int|
                            0 <= j < self.names@.len() && #[trigger] self.names@[j]@ == x;
                        self.lemma_value_at(j);
                        before.lemma_value_at(j);
                        if x == name@ {
                            lemma_one_place(views(self.names@), i as int, j);
                        }
                    }
                    assert(among(self.names@, name@));
                    assert(self@ =~= before@.insert(name@, value@));
                }
            },
            Place::Before(i) => {
                self.names.insert(i, name.to_string());
                self.values.insert(i, value.to_string());
                proof {
                    assert(views(self.names@) =~= views(before.names@).insert(i as int, name@));
                    lemma_insert_ascending(views(before.names@), name@, i as int);
                    assert forall|x: Seq<char>| self@.dom().contains(x) <==> before@.insert(
                        name@,
                        value@,
                    ).dom().contains(x) by {
                        if among(self.names@, x) {
                            let j = choose|j: int|
                                0 <= j < self.names@.len() && #[trigger] self.names@[j]@ == x;
                            if j < i {
                                assert(before.names@[j]@ == x);
                            } else if j > i {
                                assert(before.names@[j - 1]@ == x);
                            }
                        }
                        if among(before.names@, x) {
                            let j = choose|j: int|
                                0 <= j < before.names@.len() && #[trigger] before.names@[j]@ == x;
                            if j < i {
                                assert(self.names@[j]@ == x);
                            } else {
                                assert(self.names@[j + 1]@ == x);
                            }
                        }
                        assert(self.names@[i as int]@ == name@);
                    }
                    assert forall|x: Seq<char>| #[trigger] self@.dom().contains(x) implies self@[x]
                        == before@.insert(name@, value@)[x] by {
                        let j = choose|j: int|
                            0 <= j < self.names@.len() && #[trigger] self.names@[j]@ == x;
                        self.lemma_value_at(j);
                        if j < i {
                            before.lemma_value_at(j);
                            assert(among(before.names@, x));
                        } else if j > i {
                            before.lemma_value_at(j - 1);
                            assert(before.names@[j - 1]@ == x);
                        }
                    }
                    assert(self@ =~= before@.insert(name@, value@));
                }
            },
        }
    }

    /// Whether two registers hold the same texts under the same names.
    pub fn same_as(&self, other: &Register) -> (r: bool)
        requires
            self.well_formed(),
            other.well_formed(),
        ensures
            r == (self@ == other@),
    {
        if same_texts(&self.names, &other.names) {
            let r = same_texts(&self.values, &other.values);
            proof {
                if r {
                    assert forall|x: Seq<char>| self@.dom().contains(x) <==> #[trigger] other@.dom(
                    ).contains(x) by {
                        lemma_views_contain(self.names@, x);
                        lemma_views_contain(other.names@, x);
                    }
                    assert forall|x: Seq<char>| #[trigger] self@.dom().contains(x) implies self@[x]
                        == other@[x] by {
                        let j = choose|j: int|
                            0 <= j < self.names@.len() && #[trigger] self.names@[j]@ == x;
                        self.lemma_value_at(j);
                        assert(views(other.names@)[j] == x);
                        other.lemma_value_at(j);
                        assert(views(self.values@)[j] == views(other.values@)[j]);
                    }
                    assert(self@ =~= other@);
                } else if self@ == other@ {
                    assert forall|j: int| 0 <= j < self.values@.len() implies #[trigger] views(
                        self.values@,
                    )[j] == views(other.values@)[j] by {
                        assert(views(self.names@)[j] == views(other.names@)[j]);
                        self.lemma_value_at(j);
                        other.lemma_value_at(j);
                    }
                    assert(views(self.names@).len() == views(other.names@).len());
                    assert(views(self.values@) =~= views(other.values@));
                }
            }
            r
        } else {
            proof {
                if self@ == other@ {
                    assert forall|x: Seq<char>| #[trigger] views(self.names@).contains(x) <==> views(
                        other.names@,
                    ).contains(x) by {
                        lemma_views_contain(self.names@, x);
                        lemma_views_contain(other.names@, x);
                        assert(self@.dom().contains(x) <==> other@.dom().contains(x));
                    }
                    lemma_same_members(views(self.names@), views(other.names@));
                }
            }
            false
        }
    }
}

/// What each of some commits turned into, in the order of the commits; none where it was dropped.
#[derive(Debug)]
pub struct Successors {
    pub names: Vec<String>,
    pub values: Vec<Option<String>>,
}

impl View for Successors {
    type V = Map<Seq<char>, Option<Seq<char>>>;

    open spec fn view(&self) -> Map<Seq<char>, Option<Seq<char>>> {
        Map::new(
            |name: Seq<char>| among(self.names@, name),
            |name: Seq<char>| opt_view(self.values@[place(self.names@, name)]),
        )
    }
}

impl Successors {
    /// The commits ascend, and of each it is said what it turned into.
    pub open spec fn well_formed(self) -> bool {
        ascending(views(self.names@)) && self.names@.len() == self.values@.len()
    }

    proof fn lemma_value_at(self, i: int)
        requires
            self.well_formed(),
            0 <= i < self.names@.len(),
        ensures
            self@.dom().contains(self.names@[i]@),
            self@[self.names@[i]@] == opt_view(self.values@[i]),
    {
        let name = self.names@[i]@;
        let j = place(self.names@, name);
        assert(0 <= j < self.names@.len() && self.names@[j]@ == name);
        lemma_one_place(views(self.names@), i, j);
    }

    /// Nothing is said of any commit.
    pub fn new() -> (r: Successors)
        ensures
            r.well_formed(),
            r@ == Map::<Seq<char>, Option<Seq<char>>>::empty(),
    {
        let r = Successors { names: Vec::new(), values: Vec::new() };
        assert(r@ =~= Map::<Seq<char>, Option<Seq<char>>>::empty());
        r
    }

    /// What is said of a commit, where anything is.
    pub fn find(&self, name: &str) -> (r: Option<&Option<String>>)
        requires
            self.well_formed(),
        ensures
            match r {
                Some(value) => self@.dom().contains(name@) && self@[name@] == opt_view(*value),
                None => !self@.dom().contains(name@),
            },
    {
        match find_place(&self.names, name) {
            Place::At(i) => {
                proof {
                    self.lemma_value_at(i as int);
                }
                Some(&self.values[i])
            },
            Place::Before(_) => None,
        }
    }

    /// Takes down what a commit turned into, in place of what was said of it.
    pub fn put(&mut self, name: &str, value: Option<String>)
        requires
            old(self).well_formed(),
        ensures
            final(self).well_formed(),
            final(self)@ == old(self)@.insert(name@, opt_view(value)),
    {
        let ghost before = *self;
        match find_place(&self.names, name) {
            Place::At(i) => {
                self.values.set(i, value);
                proof {
                    assert(self.names@ == before.names@);
                    assert forall|x: Seq<char>| #[trigger] self@.dom().contains(x) implies self@[x]
                        == before@.insert(name@, opt_view(value))[x] by {
                        let j = choose|j: int|
                            0 <= j < self.names@.len() && #[trigger] self.names@[j]@ == x;
                        self.lemma_value_at(j);
                        before.lemma_value_at(j);
                        if x == name@ {
                            lemma_one_place(views(self.names@), i as int, j);
                        }
                    }
                    assert(among(self.names@, name@));
                    assert(self@ =~= before@.insert(name@, opt_view(value)));
                }
            },
            Place::Before(i) => {
                self.names.insert(i, name.to_string());
                self.values.insert(i, value);
                proof {
                    assert(views(self.names@) =~= views(before.names@).insert(i as int, name@));
                    lemma_insert_ascending(views(before.names@), name@, i as int);
                    assert forall|x: Seq<char>| self@.dom().contains(x) <==> before@.insert(
                        name@,
                        opt_view(value),
                    ).dom().contains(x) by {
                        if among(self.names@, x) {
                            let j = choose|j: int|
                                0 <= j < self.names@.len() && #[trigger] self.names@[j]@ == x;
                            if j < i {
                                assert(before.names@[j]@ == x);
                            } else if j > i {
                                assert(before.names@[j - 1]@ == x);
                            }
                        }
                        if among(before.names@, x) {
                            let j = choose|j: int|
                                0 <= j < before.names@.len() && #[trigger] before.names@[j]@ == x;
                            if j < i {
                                assert(self.names@[j]@ == x);
                            } else {
                                assert(self.names@[j + 1]@ == x);
                            }
                        }
                        assert(self.names@[i as int]@ == name@);
                    }
                    assert forall|x: Seq<char>| #[trigger] self@.dom().contains(x) implies self@[x]
                        == before@.insert(name@, opt_view(value))[x] by {
                        let j = choose|j: int|
                            0 <= j < self.names@.len() && #[trigger] self.names@[j]@ == x;
                        self.lemma_value_at(j);
                        if j < i {
                            before.lemma_value_at(j);
                            assert(among(before.names@, x));
                        } else if j > i {
                            before.lemma_value_at(j - 1);
                            assert(before.names@[j - 1]@ == x);
                        }
                    }
                    assert(self@ =~= before@.insert(name@, opt_view(value)));
                }
            },
        }
    }
}

} // verus!
