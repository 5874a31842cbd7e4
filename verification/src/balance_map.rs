//! The balance table: `(account, balance)` pairs with pairwise distinct
//! account identifiers, viewed in specifications as a finite map from
//! identifier string to balance.

use vstd::prelude::*;

use crate::Account;

verus! {

/// Current balances, keyed by account identifier.
#[derive(Debug)]
pub struct BalanceMap {
    items: Vec<(Account, u64)>,
}

/// The map described by a list of `(account, balance)` pairs; a later pair
/// for the same identifier overrides an earlier one.
pub open spec fn map_of(s: Seq<(Account, u64)>) -> Map<Seq<char>, u64>
    decreases s.len(),
{
    if s.len() == 0 {
        Map::empty()
    } else {
        map_of(s.drop_last()).insert(s.last().0@, s.last().1)
    }
}

/// The sum of the balances in a list of `(account, balance)` pairs.
pub open spec fn sum_of(s: Seq<(Account, u64)>) -> int
    decreases s.len(),
{
    if s.len() == 0 {
        0
    } else {
        sum_of(s.drop_last()) + s.last().1
    }
}

/// Pairwise distinct account identifiers.
pub open spec fn distinct_keys(s: Seq<(Account, u64)>) -> bool {
    forall|i: int, j: int| 0 <= i < j < s.len() ==> s[i].0@ != s[j].0@
}

/// An identifier is in the map of a pair list exactly when some pair carries it.
proof fn lemma_map_of_dom(s: Seq<(Account, u64)>)
    ensures
        forall|k: Seq<char>|
            map_of(s).contains_key(k) <==> exists|i: int| 0 <= i < s.len() && #[trigger] s[i].0@ == k,
    decreases s.len(),
{
    if s.len() > 0 {
        lemma_map_of_dom(s.drop_last());
        assert forall|k: Seq<char>| map_of(s).contains_key(k) implies exists|i: int|
            0 <= i < s.len() && #[trigger] s[i].0@ == k by {
            if k == s.last().0@ {
                assert(s[s.len() - 1].0@ == k);
            } else {
                assert(map_of(s) == map_of(s.drop_last()).insert(s.last().0@, s.last().1));
                assert(map_of(s.drop_last()).contains_key(k));
                let i = choose|i: int| 0 <= i < s.drop_last().len() && #[trigger] s.drop_last()[i].0@ == k;
                assert(s[i].0@ == k);
            }
        }
        assert forall|k: Seq<char>|
            (exists|i: int| 0 <= i < s.len() && #[trigger] s[i].0@ == k) implies map_of(s).contains_key(
            k,
        ) by {
            let i = choose|i: int| 0 <= i < s.len() && #[trigger] s[i].0@ == k;
            assert(map_of(s) == map_of(s.drop_last()).insert(s.last().0@, s.last().1));
            if i < s.len() - 1 {
                assert(s.drop_last()[i].0@ == k);
                assert(map_of(s.drop_last()).contains_key(k));
            } else {
                assert(k == s.last().0@);
            }
        }
    }
}

/// With distinct keys, the map of a pair list sends each pair's identifier
/// to that pair's balance.
proof fn lemma_map_of_index(s: Seq<(Account, u64)>, i: int)
    requires
        distinct_keys(s),
        0 <= i < s.len(),
    ensures
        map_of(s).contains_key(s[i].0@),
        map_of(s)[s[i].0@] == s[i].1,
    decreases s.len(),
{
    if i < s.len() - 1 {
        assert(distinct_keys(s.drop_last())) by {
            assert(forall|x: int, y: int|
                0 <= x < y < s.drop_last().len() ==> s.drop_last()[x] == s[x] && s.drop_last()[y]
                    == s[y]);
        }
        assert(s.drop_last()[i] == s[i]);
        lemma_map_of_index(s.drop_last(), i);
        assert(s[i].0@ != s.last().0@);
    }
}

/// Overwriting the pair at `i` with one for the same identifier updates the
/// map at exactly that identifier.
proof fn lemma_map_of_update(s: Seq<(Account, u64)>, i: int, p: (Account, u64))
    requires
        distinct_keys(s),
        0 <= i < s.len(),
        p.0@ == s[i].0@,
    ensures
        map_of(s.update(i, p)) == map_of(s).insert(p.0@, p.1),
    decreases s.len(),
{
    let t = s.update(i, p);
    if i == s.len() - 1 {
        assert(t.drop_last() =~= s.drop_last());
        assert(t.last() == p);
        assert(map_of(t) == map_of(s.drop_last()).insert(p.0@, p.1));
        assert(map_of(s.drop_last()).insert(p.0@, p.1) =~= map_of(s).insert(p.0@, p.1));
    } else {
        assert(distinct_keys(s.drop_last())) by {
            assert(forall|x: int, y: int|
                0 <= x < y < s.drop_last().len() ==> s.drop_last()[x] == s[x] && s.drop_last()[y]
                    == s[y]);
        }
        assert(s.drop_last()[i] == s[i]);
        lemma_map_of_update(s.drop_last(), i, p);
        assert(t.drop_last() =~= s.drop_last().update(i, p));
        assert(t.last() == s.last());
        assert(map_of(t) == map_of(s.drop_last()).insert(p.0@, p.1).insert(s.last().0@, s.last().1));
        // The two inserted identifiers differ, so the inserts commute.
        assert(p.0@ != s.last().0@);
        assert(map_of(s.drop_last()).insert(p.0@, p.1).insert(s.last().0@, s.last().1)
            =~= map_of(s).insert(p.0@, p.1));
    }
}

/// Overwriting the pair at `i` changes the sum by the difference of the balances.
proof fn lemma_sum_update(s: Seq<(Account, u64)>, i: int, p: (Account, u64))
    requires
        0 <= i < s.len(),
    ensures
        sum_of(s.update(i, p)) == sum_of(s) - s[i].1 + p.1,
    decreases s.len(),
{
    let t = s.update(i, p);
    if i == s.len() - 1 {
        assert(t.drop_last() =~= s.drop_last());
        assert(t.last() == p);
    } else {
        assert(t.drop_last() =~= s.drop_last().update(i, p));
        assert(s.drop_last()[i] == s[i]);
        lemma_sum_update(s.drop_last(), i, p);
        assert(t.last() == s.last());
    }
}

/// Copies a pair list, identifier by identifier and balance by balance.
fn clone_items(v: &Vec<(Account, u64)>) -> (r: Vec<(Account, u64)>)
    ensures
        r@ == v@,
{
    let mut r: Vec<(Account, u64)> = Vec::new();
    let mut i: usize = 0;
    while i < v.len()
        invariant
            i <= v@.len(),
            r@ == v@.subrange(0, i as int),
        decreases v@.len() - i,
    {
        let p = &v[i];
        r.push((p.0.clone(), p.1));
        proof {
            assert(r@ =~= v@.subrange(0, i + 1 as int));
        }
        i = i + 1;
    }
    proof {
        assert(r@ =~= v@);
    }
    r
}

impl View for BalanceMap {
    type V = Map<Seq<char>, u64>;

    closed spec fn view(&self) -> Map<Seq<char>, u64> {
        map_of(self.items@)
    }
}

impl BalanceMap {
    /// The sum of all balances held in the table.
    pub closed spec fn total(&self) -> int {
        sum_of(self.items@)
    }

    /// Well-formed: no account identifier occurs twice.
    pub closed spec fn wf(&self) -> bool {
        distinct_keys(self.items@)
    }

    /// An empty balance table.
    pub fn new() -> (r: BalanceMap)
        ensures
            r.wf(),
            r@ == Map::<Seq<char>, u64>::empty(),
            r.total() == 0,
    {
        BalanceMap { items: Vec::new() }
    }

    /// The position of the pair carrying `a`'s identifier, if any.
    fn index_of(&self, a: &Account) -> (r: Option<usize>)
        requires
            self.wf(),
        ensures
            match r {
                Some(i) => i < self.items@.len() && self.items@[i as int].0@ == a@
                    && self@.contains_key(a@) && self@[a@] == self.items@[i as int].1,
                None => !self@.contains_key(a@),
            },
    {
        let mut i: usize = 0;
        while i < self.items.len()
            invariant
                i <= self.items@.len(),
                forall|j: int| 0 <= j < i ==> self.items@[j].0@ != a@,
                self.wf(),
            decreases self.items@.len() - i,
        {
            if self.items[i].0.same_as(a) {
                proof {
                    lemma_map_of_index(self.items@, i as int);
                }
                return Some(i);
            }
            i = i + 1;
        }
        proof {
            lemma_map_of_dom(self.items@);
        }
        None
    }

    /// The balance of `a`, if the account is present.
    pub fn get(&self, a: &Account) -> (r: Option<u64>)
        requires
            self.wf(),
        ensures
            r == (if self@.contains_key(a@) {
                Some(self@[a@])
            } else {
                None::<u64>
            }),
    {
        match self.index_of(a) {
            Some(i) => Some(self.items[i].1),
            None => None,
        }
    }

    /// Sets `a`'s balance to `v`, adding the account if it is absent.
    pub fn insert(&mut self, a: Account, v: u64)
        requires
            old(self).wf(),
        ensures
            final(self).wf(),
            final(self)@ == old(self)@.insert(a@, v),
            final(self).total() == old(self).total() + v - (if old(self)@.contains_key(a@) {
                old(self)@[a@] as int
            } else {
                0
            }),
    {
        let ghost s0 = self.items@;
        match self.index_of(&a) {
            Some(i) => {
                self.items.set(i, (a, v));
                proof {
                    assert(self.items@ =~= s0.update(i as int, self.items@[i as int]));
                    lemma_map_of_update(s0, i as int, self.items@[i as int]);
                    lemma_sum_update(s0, i as int, self.items@[i as int]);
                    assert(distinct_keys(self.items@)) by {
                        assert(forall|x: int|
                            0 <= x < s0.len() && x != i ==> self.items@[x] == s0[x]);
                        assert(self.items@[i as int].0@ == s0[i as int].0@);
                    }
                }
            },
            None => {
                self.items.push((a, v));
                proof {
                    assert(self.items@.drop_last() =~= s0);
                    assert(self.items@.last() == self.items@[s0.len() as int]);
                    lemma_map_of_dom(s0);
                    assert(distinct_keys(self.items@)) by {
                        assert(forall|x: int| 0 <= x < s0.len() ==> self.items@[x] == s0[x]);
                    }
                }
            },
        }
    }

    /// The `(account, balance)` pairs of the table, as copies: each returned
    /// pair is in the map, every mapped identifier appears exactly once.
    pub fn pairs(&self) -> (r: Vec<(Account, u64)>)
        requires
            self.wf(),
        ensures
            distinct_keys(r@),
            forall|i: int|
                0 <= i < r@.len() ==> self@.contains_key(#[trigger] r@[i].0@) && r@[i].1
                    == self@[r@[i].0@],
            forall|k: Seq<char>|
                self@.contains_key(k) ==> exists|i: int| 0 <= i < r@.len() && #[trigger] r@[i].0@ == k,
    {
        let r = clone_items(&self.items);
        proof {
            lemma_map_of_dom(self.items@);
            assert forall|i: int| 0 <= i < r@.len() implies self@.contains_key(#[trigger] r@[i].0@)
                && r@[i].1 == self@[r@[i].0@] by {
                lemma_map_of_index(self.items@, i);
            }
        }
        r
    }
}

impl Clone for BalanceMap {
    /// Copies the table; the copy describes the same map.
    fn clone(&self) -> (r: Self)
        ensures
            r@ == self@,
            r.total() == self.total(),
            r.wf() == self.wf(),
    {
        BalanceMap { items: clone_items(&self.items) }
    }
}

} // verus!
