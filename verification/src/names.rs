//! Sets of names and maps keyed by names.

use vstd::prelude::*;

use crate::copies::Copied;
use crate::seqs::views;
use crate::text::{
    less, same, text_less, text_less_irreflexive, text_less_total, text_less_transitive,
};

verus! {

broadcast use {vstd::std_specs::vec::group_vec_axioms, crate::seqs::group_views};

pub(crate) proof fn set_of_push<A>(s: Seq<A>, x: A)
    ensures
        s.push(x).to_set() == s.to_set().insert(x),
{
    let t = s.push(x);
    assert forall|y: A| t.to_set().contains(y) <==> s.to_set().insert(x).contains(y) by {
        if s.contains(y) {
            let i = s.index_of(y);
            assert(t[i] == y);
        }
        if y == x {
            assert(t[s.len() as int] == y);
        }
        if t.contains(y) {
            let i = t.index_of(y);
            if i < s.len() {
                assert(s[i] == y);
            }
        }
    }
    assert(t.to_set() =~= s.to_set().insert(x));
}

/// A set of names, held in ascending order, each once.
#[derive(Debug, PartialEq, Eq)]
pub struct Names {
    items: Vec<String>,
}

impl View for Names {
    type V = Set<Seq<char>>;

    closed spec fn view(&self) -> Set<Seq<char>> {
        views(self.items@).to_set()
    }
}

impl Names {
    #[verifier::type_invariant]
    spec fn ascending(&self) -> bool {
        ascending(views(self.items@))
    }

    pub fn new() -> (r: Names)
        ensures
            r@ == Set::<Seq<char>>::empty(),
    {
        let r = Names { items: Vec::new() };
        assert(r@ =~= Set::<Seq<char>>::empty());
        r
    }

    pub fn contains(&self, name: &str) -> (r: bool)
        ensures
            r == self@.contains(name@),
    {
        let mut i: usize = 0;
        while i < self.items.len()
            invariant
                i <= self.items@.len(),
                forall|j: int| 0 <= j < i ==> #[trigger] views(self.items@)[j] != name@,
            decreases self.items@.len() - i,
        {
            if same(self.items[i].as_str(), name) {
                assert(views(self.items@)[i as int] == name@);
                return true;
            }
            i += 1;
        }
        false
    }

    /// Adds a name.
    pub fn insert(&mut self, name: String)
        ensures
            final(self)@ == old(self)@.insert(name@),
    {
        if self.contains(name.as_str()) {
            assert(self@ =~= self@.insert(name@));
            return ;
        }
        proof {
            use_type_invariant(&*self);
        }
        let ghost before = views(self.items@);
        let ghost key = name@;
        let mut items: Vec<String> = Vec::new();
        core::mem::swap(&mut self.items, &mut items);
        let mut at: usize = items.len();
        while at > 0 && less(name.as_str(), items[at - 1].as_str())
            invariant
                name@ == key,
                before == views(items@),
                at <= items@.len(),
                forall|j: int| at <= j < before.len() ==> text_less(key, #[trigger] before[j]),
            decreases at,
        {
            at -= 1;
        }
        items.insert(at, name);
        proof {
            let now = before.insert(at as int, key);
            assert(views(items@) =~= now);
            insert_keeps_ascending(before, key, at as int);
            set_of_insert(before, key, at as int);
        }
        *self = Names { items };
    }
}

/// Whether the texts are in strictly ascending order.
pub open spec fn ascending(s: Seq<Seq<char>>) -> bool {
    forall|i: int, j: int| 0 <= i < j < s.len() ==> text_less(#[trigger] s[i], #[trigger] s[j])
}

/// The names of a set in ascending order.
pub open spec fn listed(names: Set<Seq<char>>) -> Seq<Seq<char>> {
    choose|s: Seq<Seq<char>>| ascending(s) && #[trigger] s.to_set() == names
}

/// The names of a sequence can be listed.
pub proof fn listed_exists(names: Seq<Seq<char>>)
    ensures
        listed(names.to_set()).to_set() == names.to_set(),
        ascending(listed(names.to_set())),
    decreases names.len(),
{
    if names.len() == 0 {
        let none: Seq<Seq<char>> = seq![];
        assert(none.to_set() =~= names.to_set());
        assert(ascending(none));
    } else {
        let rest = names.drop_last();
        let x = names.last();
        listed_exists(rest);
        let t = listed(rest.to_set());
        assert(names =~= rest.push(x));
        set_of_push(rest, x);
        if t.contains(x) {
            assert(t.to_set().contains(x));
            assert(t.to_set() =~= names.to_set());
        } else {
            let at = place_of(t, x, t.len() as int);
            insert_keeps_ascending(t, x, at);
            set_of_insert(t, x, at);
            assert(t.insert(at, x).to_set() == names.to_set());
        }
    }
}

/// Where a name goes among others in ascending order.
proof fn place_of(s: Seq<Seq<char>>, x: Seq<char>, n: int) -> (at: int)
    requires
        0 <= n <= s.len(),
        forall|j: int| n <= j < s.len() ==> text_less(x, #[trigger] s[j]),
    ensures
        0 <= at <= s.len(),
        forall|j: int| at <= j < s.len() ==> text_less(x, #[trigger] s[j]),
        at > 0 ==> !text_less(x, s[at - 1]),
    decreases n,
{
    if n > 0 && text_less(x, s[n - 1]) {
        place_of(s, x, n - 1)
    } else {
        n
    }
}

/// There is one way only to list a set of names in ascending order.
pub proof fn listed_is_unique(s: Seq<Seq<char>>)
    requires
        ascending(s),
    ensures
        listed(s.to_set()) == s,
{
    let t = listed(s.to_set());
    assert(ascending(t) && t.to_set() == s.to_set());
    same_set_same_order(s, t);
}

proof fn same_set_same_order(s: Seq<Seq<char>>, t: Seq<Seq<char>>)
    requires
        ascending(s),
        ascending(t),
        s.to_set() == t.to_set(),
    ensures
        s == t,
    decreases s.len(),
{
    if s.len() == 0 {
        if t.len() > 0 {
            assert(t.to_set().contains(t[0]));
            assert(s.contains(t[0]));
        }
        assert(s =~= t);
    } else {
        assert(s.to_set().contains(s.last()));
        assert(t.contains(s.last()));
        assert(t.to_set().contains(t.last()));
        assert(s.contains(t.last()));
        let i = t.index_of(s.last());
        let j = s.index_of(t.last());
        if s.last() != t.last() {
            assert(text_less(t[i], t[t.len() - 1]));
            assert(text_less(s[j], s[s.len() - 1]));
            text_less_transitive(s.last(), t.last(), s.last());
            text_less_irreflexive(s.last());
        }
        ascending_has_no_duplicates(s);
        ascending_has_no_duplicates(t);
        let s1 = s.drop_last();
        let t1 = t.drop_last();
        assert forall|x: Seq<char>| s1.to_set().contains(x) <==> t1.to_set().contains(x) by {
            if s1.contains(x) {
                let k = s1.index_of(x);
                assert(s[k] == x && x != s.last());
                assert(s.to_set().contains(x));
                let m = t.index_of(x);
                assert(t1[m] == x);
            }
            if t1.contains(x) {
                let k = t1.index_of(x);
                assert(t[k] == x && x != t.last());
                assert(t.to_set().contains(x));
                let m = s.index_of(x);
                assert(s1[m] == x);
            }
        }
        assert(s1.to_set() =~= t1.to_set());
        same_set_same_order(s1, t1);
        assert(s =~= s1.push(s.last()));
        assert(t =~= t1.push(t.last()));
    }
}

pub proof fn ascending_has_no_duplicates(s: Seq<Seq<char>>)
    requires
        ascending(s),
    ensures
        s.no_duplicates(),
{
    assert forall|i: int, j: int| 0 <= i < s.len() && 0 <= j < s.len() && i != j implies s[i]
        != s[j] by {
        if i < j {
            assert(text_less(s[i], s[j]));
        } else {
            assert(text_less(s[j], s[i]));
        }
        text_less_irreflexive(s[i]);
    }
}

proof fn insert_keeps_ascending(s: Seq<Seq<char>>, x: Seq<char>, at: int)
    requires
        ascending(s),
        !s.contains(x),
        0 <= at <= s.len(),
        forall|j: int| at <= j < s.len() ==> text_less(x, #[trigger] s[j]),
        at > 0 ==> !text_less(x, s[at - 1]),
    ensures
        ascending(s.insert(at, x)),
{
    let now = s.insert(at, x);
    if at > 0 {
        text_less_total(x, s[at - 1]);
        assert(s.contains(s[at - 1]));
    }
    assert forall|i: int, j: int| 0 <= i < j < now.len() implies text_less(
        #[trigger] now[i],
        #[trigger] now[j],
    ) by {
        if j == at && i < at - 1 {
            assert(text_less(s[i], s[at - 1]));
            text_less_transitive(s[i], s[at - 1], x);
        }
    }
}

proof fn set_of_insert<A>(s: Seq<A>, x: A, at: int)
    requires
        0 <= at <= s.len(),
    ensures
        s.insert(at, x).to_set() == s.to_set().insert(x),
{
    let t = s.insert(at, x);
    assert forall|y: A| t.to_set().contains(y) <==> s.to_set().insert(x).contains(y) by {
        if s.contains(y) {
            let i = s.index_of(y);
            if i < at {
                assert(t[i] == y);
            } else {
                assert(t[i + 1] == y);
            }
        }
        if y == x {
            assert(t[at] == y);
        }
        if t.contains(y) {
            let i = t.index_of(y);
            if i < at {
                assert(s[i] == y);
            } else if i > at {
                assert(s[i - 1] == y);
            }
        }
    }
    assert(t.to_set() =~= s.to_set().insert(x));
}

impl Clone for Names {
    fn clone(&self) -> (r: Self)
        ensures
            r@ == self@,
    {
        self.copied()
    }
}

impl Copied for Names {
    fn copied(&self) -> (r: Self) {
        let mut r = Names::new();
        r.insert_all(self);
        assert(r@ =~= self@);
        r
    }
}

impl Names {
    /// Adds every name of another set.
    pub fn insert_all(&mut self, other: &Names)
        ensures
            final(self)@ == old(self)@.union(other@),
    {
        let ghost start = self@;
        let ghost all = views(other.items@);
        let mut i: usize = 0;
        assert(self@ =~= start.union(all.take(0).to_set()));
        while i < other.items.len()
            invariant
                all == views(other.items@),
                i <= other.items@.len(),
                self@ == start.union(all.take(i as int).to_set()),
            decreases other.items@.len() - i,
        {
            proof {
                crate::seqs::take_step(all, i as int);
                set_of_push(all.take(i as int), all[i as int]);
            }
            self.insert(other.items[i].clone());
            i += 1;
            assert(self@ =~= start.union(all.take(i as int).to_set()));
        }
        proof {
            crate::seqs::take_all(all);
        }
    }

    pub fn is_empty(&self) -> (r: bool)
        ensures
            r == self@.is_empty(),
    {
        proof {
            if self.items@.len() > 0 {
                assert(views(self.items@).contains(views(self.items@)[0]));
                assert(self@.contains(views(self.items@)[0]));
            } else {
                assert(self@ =~= Set::empty());
            }
        }
        self.items.len() == 0
    }

    /// How many names the set holds.
    pub fn len(&self) -> (r: usize)
        ensures
            r == self@.len(),
            self@.finite(),
    {
        proof {
            use_type_invariant(self);
            ascending_has_no_duplicates(views(self.items@));
            views(self.items@).unique_seq_to_set();
        }
        self.items.len()
    }

    /// Whether the two sets have no name in common.
    pub fn is_disjoint(&self, other: &Names) -> (r: bool)
        ensures
            r == self@.disjoint(other@),
    {
        let mut i: usize = 0;
        while i < self.items.len()
            invariant
                i <= self.items@.len(),
                forall|j: int|
                    0 <= j < i ==> !other@.contains(#[trigger] views(self.items@)[j]),
            decreases self.items@.len() - i,
        {
            if other.contains(self.items[i].as_str()) {
                proof {
                    let x = views(self.items@)[i as int];
                    assert(views(self.items@).contains(x));
                    assert(self@.contains(x) && other@.contains(x));
                }
                return false;
            }
            i += 1;
        }
        assert forall|x: Seq<char>| self@.contains(x) implies !other@.contains(x) by {
            let k = views(self.items@).index_of(x);
            assert(views(self.items@)[k] == x);
        }
        true
    }

    /// The name of a set that holds exactly one.
    pub fn only(&self) -> (r: Option<&String>)
        ensures
            match r {
                Some(name) => only_name(self@) == Some(name@),
                None => only_name(self@) is None,
            },
    {
        proof {
            use_type_invariant(self);
            ascending_has_no_duplicates(views(self.items@));
            views(self.items@).unique_seq_to_set();
        }
        if self.items.len() == 1 {
            proof {
                let s = views(self.items@);
                assert forall|x: Seq<char>| s.to_set().contains(x) <==> x == s[0] by {
                    if s.contains(x) {
                        assert(s[s.index_of(x)] == x);
                    }
                }
                assert(self@ =~= set![s[0]]);
                assert(self@.contains(self@.choose()));
            }
            Some(&self.items[0])
        } else {
            None
        }
    }

    /// The names in ascending order.
    pub fn as_vec(&self) -> (r: &Vec<String>)
        ensures
            views(r@) == listed(self@),
            views(r@).to_set() == self@,
            ascending(views(r@)),
    {
        proof {
            use_type_invariant(self);
            listed_is_unique(views(self.items@));
        }
        &self.items
    }
}

/// A map in which every key of a set has one value.
pub open spec fn bound_to<V>(map: Map<Seq<char>, V>, keys: Set<Seq<char>>, value: V) -> Map<
    Seq<char>,
    V,
> {
    Map::new(
        |k: Seq<char>| map.contains_key(k) || keys.contains(k),
        |k: Seq<char>|
            if keys.contains(k) {
                value
            } else {
                map[k]
            },
    )
}

/// The name of a set that holds exactly one.
pub open spec fn only_name(names: Set<Seq<char>>) -> Option<Seq<char>> {
    if names.len() == 1 {
        Some(names.choose())
    } else {
        None
    }
}

/// A map from names to values.
pub struct NameMap<T> {
    keys: Vec<String>,
    values: Vec<T>,
}

/// The position of `key` in `keys`.
spec fn position(keys: Seq<Seq<char>>, key: Seq<char>) -> int {
    keys.index_of(key)
}

impl<T: View> View for NameMap<T> {
    type V = Map<Seq<char>, T::V>;

    closed spec fn view(&self) -> Map<Seq<char>, T::V> {
        Map::new(
            |key: Seq<char>| views(self.keys@).contains(key),
            |key: Seq<char>| self.values@[position(views(self.keys@), key)]@,
        )
    }
}

impl<T> NameMap<T> {
    #[verifier::type_invariant]
    spec fn paired(&self) -> bool {
        &&& self.keys@.len() == self.values@.len()
        &&& views(self.keys@).no_duplicates()
    }
}

impl<T: View> NameMap<T> {
    pub fn new() -> (r: NameMap<T>)
        ensures
            r@ == Map::<Seq<char>, T::V>::empty(),
    {
        let r = NameMap { keys: Vec::new(), values: Vec::new() };
        assert(r@ =~= Map::<Seq<char>, T::V>::empty());
        r
    }

    fn find(&self, key: &str) -> (r: Option<usize>)
        ensures
            match r {
                Some(i) => i < self.keys@.len() && views(self.keys@)[i as int] == key@ && position(
                    views(self.keys@),
                    key@,
                ) == i && self@.contains_key(key@),
                None => !self@.contains_key(key@) && !views(self.keys@).contains(key@),
            },
    {
        proof {
            use_type_invariant(self);
        }
        let mut i: usize = 0;
        while i < self.keys.len()
            invariant
                views(self.keys@).no_duplicates(),
                i <= self.keys@.len(),
                forall|j: int| 0 <= j < i ==> #[trigger] views(self.keys@)[j] != key@,
            decreases self.keys@.len() - i,
        {
            if same(self.keys[i].as_str(), key) {
                proof {
                    let s = views(self.keys@);
                    assert(s[i as int] == key@);
                    assert(s.contains(key@));
                    assert(s[s.index_of(key@)] == key@);
                }
                return Some(i);
            }
            i += 1;
        }
        None
    }

    pub fn contains_key(&self, key: &str) -> (r: bool)
        ensures
            r == self@.contains_key(key@),
    {
        self.find(key).is_some()
    }

    pub fn get(&self, key: &str) -> (r: Option<&T>)
        ensures
            match r {
                Some(value) => self@.contains_key(key@) && value@ == self@[key@],
                None => !self@.contains_key(key@),
            },
    {
        proof {
            use_type_invariant(self);
        }
        match self.find(key) {
            Some(i) => Some(&self.values[i]),
            None => None,
        }
    }

    /// Sets the value of a key.
    pub fn insert(&mut self, key: String, value: T)
        ensures
            final(self)@ == old(self)@.insert(key@, value@),
    {
        proof {
            use_type_invariant(&*self);
        }
        let found = self.find(key.as_str());
        let ghost before = self@;
        let ghost old_keys = views(self.keys@);
        let ghost old_values = self.values@;
        let ghost added = value@;
        let mut whole = NameMap { keys: Vec::new(), values: Vec::new() };
        core::mem::swap(self, &mut whole);
        let NameMap { keys: mut keys, values: mut values } = whole;
        match found {
            Some(i) => {
                values.set(i, value);
            },
            None => {
                keys.push(key);
                values.push(value);
            },
        }
        let ghost now = views(keys@);
        proof {
            if found is None {
                assert(now == old_keys.push(key@));
                assert forall|i: int| 0 <= i < old_keys.len() implies #[trigger] old_keys[i]
                    != key@ by {
                    assert(old_keys.contains(old_keys[i]));
                }
                assert(now.no_duplicates());
            }
        }
        *self = NameMap { keys, values };
        proof {
            assert forall|k: Seq<char>|
                #[trigger] self@.contains_key(k) <==> before.insert(
                    key@,
                    added,
                ).contains_key(k) by {
                if old_keys.contains(k) {
                    assert(now[old_keys.index_of(k)] == k);
                }
                if now.contains(k) && k != key@ {
                    let i = now.index_of(k);
                    assert(now[i] == k);
                    assert(i < old_keys.len());
                    assert(old_keys[i] == k);
                }
                if k == key@ {
                    if found is None {
                        assert(now[old_keys.len() as int] == k);
                    }
                }
            }
            assert forall|k: Seq<char>| #[trigger]
                self@.contains_key(k) implies self@[k] == before.insert(key@, added)[k] by {
                let i = now.index_of(k);
                assert(now[i] == k);
                if k != key@ {
                    assert(old_keys[i] == k);
                    assert(old_keys.index_of(k) == i);
                } else if found is None {
                    assert(now[old_keys.len() as int] == k);
                    assert(i == old_keys.len());
                }
            }
            assert(self@ =~= before.insert(key@, added));
        }
    }

    /// A map has finitely many keys.
    pub proof fn finite(&self)
        ensures
            self@.dom().finite(),
    {
        assert(self@.dom() =~= views(self.keys@).to_set());
        vstd::seq_lib::seq_to_set_is_finite(views(self.keys@));
    }

    /// Sets the value of every name of a set.
    pub fn insert_for_all(&mut self, keys: &Names, value: &T) where T: Copied
        ensures
            final(self)@ == bound_to(old(self)@, keys@, value@),
    {
        let list = keys.as_vec();
        let ghost all = views(list@);
        let ghost before = self@;
        let mut i: usize = 0;
        assert(self@ =~= bound_to(before, all.take(0).to_set(), value@));
        while i < list.len()
            invariant
                all == views(list@),
                i <= list@.len(),
                self@ == bound_to(before, all.take(i as int).to_set(), value@),
            decreases list@.len() - i,
        {
            proof {
                crate::seqs::take_step(all, i as int);
                set_of_push(all.take(i as int), all[i as int]);
            }
            self.insert(list[i].clone(), value.copied());
            i += 1;
            assert(self@ =~= bound_to(before, all.take(i as int).to_set(), value@));
        }
        proof {
            crate::seqs::take_all(all);
        }
    }

    /// The keys, each once.
    pub fn keys(&self) -> (r: &Vec<String>)
        ensures
            views(r@).to_set() == self@.dom(),
            views(r@).no_duplicates(),
    {
        proof {
            use_type_invariant(self);
            assert(views(self.keys@).to_set() =~= self@.dom());
        }
        &self.keys
    }

    /// The keys in ascending order.
    pub fn names(&self) -> (r: Names)
        ensures
            r@ == self@.dom(),
    {
        let keys = self.keys();
        let ghost all = views(keys@);
        let mut r = Names::new();
        let mut i: usize = 0;
        assert(all.take(0).to_set() =~= Set::<Seq<char>>::empty());
        while i < keys.len()
            invariant
                all == views(keys@),
                i <= keys@.len(),
                r@ == all.take(i as int).to_set(),
            decreases keys@.len() - i,
        {
            proof {
                crate::seqs::take_step(all, i as int);
                set_of_push(all.take(i as int), all[i as int]);
            }
            r.insert(keys[i].clone());
            i += 1;
        }
        proof {
            crate::seqs::take_all(all);
        }
        r
    }
}

/// The value of a key, where there is one.
pub open spec fn entry<V>(map: Map<Seq<char>, V>, key: Seq<char>) -> Option<V> {
    if map.contains_key(key) {
        Some(map[key])
    } else {
        None
    }
}

impl<T: Copied> Copied for NameMap<T> {
    fn copied(&self) -> (r: Self) {
        proof {
            use_type_invariant(self);
        }
        let mut r: NameMap<T> = NameMap::new();
        let ghost keys = views(self.keys@);
        let mut i: usize = 0;
        while i < self.keys.len()
            invariant
                keys == views(self.keys@),
                keys.no_duplicates(),
                self.keys@.len() == self.values@.len(),
                i <= self.keys@.len(),
                r@.dom() =~= keys.take(i as int).to_set(),
                forall|j: int| 0 <= j < i ==> r@[#[trigger] keys[j]] == self.values@[j]@,
            decreases self.keys@.len() - i,
        {
            proof {
                crate::seqs::take_step(keys, i as int);
                set_of_push(keys.take(i as int), keys[i as int]);
            }
            r.insert(self.keys[i].clone(), self.values[i].copied());
            i += 1;
        }
        proof {
            crate::seqs::take_all(keys);
            assert forall|k: Seq<char>| #[trigger] self@.contains_key(k) implies r@[k]
                == self@[k] by {
                let j = keys.index_of(k);
                assert(keys[j] == k);
            }
            assert(r@ =~= self@);
        }
        r
    }
}

} // verus!
