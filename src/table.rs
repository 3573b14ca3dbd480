//! Tables from validator identity to stake weight, kept sorted by identity.

use std::cmp::Ordering;
use vstd::prelude::*;
use vstd::set_lib::{lemma_int_range, set_int_range};
use vstd::string::*;

verus! {

/// `a` and `b` agree on their first `k` characters.
pub open spec fn agree_upto(a: Seq<char>, b: Seq<char>, k: int) -> bool {
    forall|j: int| 0 <= j < k ==> a[j] == b[j]
}

/// At position `k`, `a` ends while `b` goes on, or `a` holds the smaller character.
pub open spec fn smaller_at(a: Seq<char>, b: Seq<char>, k: int) -> bool {
    (k == a.len() && k < b.len()) || (k < a.len() && k < b.len() && (a[k] as u32) < (b[k] as u32))
}

/// Strict lexicographic order on identities, by character code.
pub open spec fn id_lt(a: Seq<char>, b: Seq<char>) -> bool {
    exists|k: int| 0 <= k <= a.len() && k <= b.len() && agree_upto(a, b, k) && smaller_at(a, b, k)
}

pub proof fn lemma_id_lt_transitive(a: Seq<char>, b: Seq<char>, c: Seq<char>)
    requires
        id_lt(a, b),
        id_lt(b, c),
    ensures
        id_lt(a, c),
{
    let k1 = choose|k: int|
        0 <= k <= a.len() && k <= b.len() && agree_upto(a, b, k) && smaller_at(a, b, k);
    let k2 = choose|k: int|
        0 <= k <= b.len() && k <= c.len() && agree_upto(b, c, k) && smaller_at(b, c, k);
    if k1 < k2 {
        assert(b[k1] == c[k1] || k1 == b.len());
        assert(agree_upto(a, c, k1) && smaller_at(a, c, k1));
    } else if k2 < k1 {
        assert(a[k2] == b[k2]);
        assert(agree_upto(a, c, k2) && smaller_at(a, c, k2));
    } else {
        assert(agree_upto(a, c, k1) && smaller_at(a, c, k1));
    }
}

/// Every identity stands before every later one.
pub open spec fn sorted_ids(s: Seq<(Seq<char>, u32)>) -> bool {
    forall|i: int, j: int| 0 <= i < j < s.len() ==> id_lt(#[trigger] s[i].0, #[trigger] s[j].0)
}

/// The weight recorded for `id`, if any.
pub open spec fn lookup(s: Seq<(Seq<char>, u32)>, id: Seq<char>) -> Option<u32> {
    if exists|i: int| 0 <= i < s.len() && #[trigger] s[i].0 == id {
        Some(s[choose|i: int| 0 <= i < s.len() && #[trigger] s[i].0 == id].1)
    } else {
        None
    }
}

/// The sum of the first `n` weights.
pub open spec fn prefix_total(s: Seq<(Seq<char>, u32)>, n: int) -> int
    decreases n,
{
    if n <= 0 {
        0
    } else {
        prefix_total(s, n - 1) + s[n - 1].1
    }
}

/// The sum of all weights.
pub open spec fn total(s: Seq<(Seq<char>, u32)>) -> int {
    prefix_total(s, s.len() as int)
}

/// Entry `i` owns ticket `t`: walking the entries in order with a running offset, entry `i`
/// covers the tickets from its offset (included) to its offset plus its weight (excluded).
pub open spec fn owns(s: Seq<(Seq<char>, u32)>, i: int, t: int) -> bool {
    0 <= i < s.len() && prefix_total(s, i) <= t < prefix_total(s, i + 1)
}

/// Compares two identities character by character.
pub fn compare_ids(a: &String, b: &String) -> (r: Ordering)
    ensures
        r == Ordering::Less <==> id_lt(a@, b@),
        r == Ordering::Equal <==> a@ == b@,
        r == Ordering::Greater <==> id_lt(b@, a@),
{
    let sa = a.as_str();
    let sb = b.as_str();
    let la = sa.unicode_len();
    let lb = sb.unicode_len();
    let mut i: usize = 0;
    while i < la && i < lb
        invariant
            sa@ == a@,
            sb@ == b@,
            la == a@.len(),
            lb == b@.len(),
            i <= la,
            i <= lb,
            agree_upto(a@, b@, i as int),
        decreases la - i,
    {
        let ca = sa.get_char(i);
        let cb = sb.get_char(i);
        if (ca as u32) < (cb as u32) {
            assert(smaller_at(a@, b@, i as int));
            assert(!id_lt(b@, a@));
            return Ordering::Less;
        }
        if (cb as u32) < (ca as u32) {
            assert(smaller_at(b@, a@, i as int));
            assert(!id_lt(a@, b@));
            return Ordering::Greater;
        }
        assert(ca == cb);
        i = i + 1;
    }
    if la < lb {
        assert(smaller_at(a@, b@, i as int));
        assert(!id_lt(b@, a@));
        Ordering::Less
    } else if lb < la {
        assert(smaller_at(b@, a@, i as int));
        assert(!id_lt(a@, b@));
        Ordering::Greater
    } else {
        assert(a@ =~= b@);
        Ordering::Equal
    }
}

/// Where entries have distinct identities, `lookup` finds each entry's own weight.
pub proof fn lemma_lookup_at(s: Seq<(Seq<char>, u32)>, i: int)
    requires
        sorted_ids(s),
        0 <= i < s.len(),
    ensures
        lookup(s, s[i].0) == Some(s[i].1),
{
    let id = s[i].0;
    assert(exists|j: int| 0 <= j < s.len() && #[trigger] s[j].0 == id);
    let j = choose|j: int| 0 <= j < s.len() && #[trigger] s[j].0 == id;
    if j < i {
        assert(id_lt(s[j].0, s[i].0));
    } else if i < j {
        assert(id_lt(s[i].0, s[j].0));
    }
}

pub proof fn lemma_prefix_monotonic(s: Seq<(Seq<char>, u32)>, a: int, b: int)
    requires
        0 <= a <= b <= s.len(),
    ensures
        0 <= prefix_total(s, a) <= prefix_total(s, b),
    decreases b,
{
    if a < b {
        lemma_prefix_monotonic(s, a, b - 1);
    } else if a > 0 {
        lemma_prefix_monotonic(s, a - 1, a - 1);
    }
}

/// Each ticket has at most one owner.
pub proof fn lemma_owner_unique(s: Seq<(Seq<char>, u32)>, i: int, j: int, t: int)
    requires
        owns(s, i, t),
        owns(s, j, t),
    ensures
        i == j,
{
    if i < j {
        lemma_prefix_monotonic(s, i + 1, j);
    } else if j < i {
        lemma_prefix_monotonic(s, j + 1, i);
    }
}

/// Every ticket below the sum of the first `n` weights has an owner among them.
pub proof fn lemma_owner_exists(s: Seq<(Seq<char>, u32)>, n: int, t: int)
    requires
        0 <= n <= s.len(),
        0 <= t < prefix_total(s, n),
    ensures
        exists|i: int| 0 <= i < n && #[trigger] owns(s, i, t),
    decreases n,
{
    if n > 0 {
        if t >= prefix_total(s, n - 1) {
            assert(owns(s, n - 1, t));
        } else {
            lemma_owner_exists(s, n - 1, t);
        }
    }
}

/// Of the tickets `0 .. total(s)`, entry `i` owns a run of exactly its own weight: drawn
/// uniformly, a ticket selects each entry with probability proportional to its weight.
pub proof fn lemma_tickets_per_entry(s: Seq<(Seq<char>, u32)>, i: int)
    requires
        0 <= i < s.len(),
    ensures
        Set::new(|t: int| 0 <= t < total(s) && owns(s, i, t)) == set_int_range(
            prefix_total(s, i),
            prefix_total(s, i) + s[i].1,
        ),
        Set::new(|t: int| 0 <= t < total(s) && owns(s, i, t)).len() == s[i].1,
{
    lemma_prefix_monotonic(s, 0, i);
    lemma_prefix_monotonic(s, i + 1, s.len() as int);
    assert(Set::new(|t: int| 0 <= t < total(s) && owns(s, i, t)) =~= set_int_range(
        prefix_total(s, i),
        prefix_total(s, i) + s[i].1,
    ));
    lemma_int_range(prefix_total(s, i), prefix_total(s, i) + s[i].1);
}

/// A map from validator identity to stake weight, held as entries sorted by identity.
#[derive(Debug)]
pub struct StakeTable {
    entries: Vec<(String, u32)>,
}

impl View for StakeTable {
    type V = Seq<(Seq<char>, u32)>;

    closed spec fn view(&self) -> Seq<(Seq<char>, u32)> {
        self.entries@.map_values(|e: (String, u32)| (e.0@, e.1))
    }
}

impl StakeTable {
    /// Identities are strictly increasing, hence distinct.
    pub open spec fn wf(&self) -> bool {
        sorted_ids(self@)
    }

    pub fn new() -> (r: StakeTable)
        ensures
            r@ == Seq::<(Seq<char>, u32)>::empty(),
            r.wf(),
    {
        let r = StakeTable { entries: Vec::new() };
        assert(r@ =~= Seq::<(Seq<char>, u32)>::empty());
        r
    }

    pub fn len(&self) -> (r: usize)
        ensures
            r == self@.len(),
    {
        self.entries.len()
    }

    pub fn is_empty(&self) -> (r: bool)
        ensures
            r == (self@.len() == 0),
    {
        self.entries.len() == 0
    }

    /// The identity of entry `i`.
    pub fn key(&self, i: usize) -> (r: &String)
        requires
            i < self@.len(),
        ensures
            r@ == self@[i as int].0,
    {
        &self.entries[i].0
    }

    /// The weight of entry `i`.
    pub fn weight(&self, i: usize) -> (r: u32)
        requires
            i < self@.len(),
        ensures
            r == self@[i as int].1,
    {
        self.entries[i].1
    }

    /// The weight recorded for `id`.
    pub fn get(&self, id: &String) -> (r: Option<u32>)
        requires
            self.wf(),
        ensures
            r == lookup(self@, id@),
    {
        let mut i: usize = 0;
        while i < self.entries.len()
            invariant
                i <= self@.len(),
                self@.len() == self.entries@.len(),
                sorted_ids(self@),
                forall|j: int| 0 <= j < i ==> #[trigger] self@[j].0 != id@,
            decreases self.entries.len() - i,
        {
            if self.entries[i].0 == *id {
                proof {
                    lemma_lookup_at(self@, i as int);
                }
                return Some(self.entries[i].1);
            }
            i = i + 1;
        }
        None
    }

    /// Records `weight` for `id`, replacing any weight it had.
    pub fn set(&mut self, id: String, weight: u32)
        requires
            old(self).wf(),
        ensures
            final(self).wf(),
            forall|k: Seq<char>|
                #[trigger] lookup(final(self)@, k) == if k == id@ {
                    Some(weight)
                } else {
                    lookup(old(self)@, k)
                },
    {
        let ghost s0 = self@;
        let mut i: usize = 0;
        let mut found: bool = false;
        let mut stop: bool = false;
        while i < self.entries.len() && !stop
            invariant
                self@ == s0,
                sorted_ids(s0),
                i <= s0.len(),
                s0.len() == self.entries@.len(),
                found ==> stop,
                stop ==> i < s0.len(),
                found ==> s0[i as int].0 == id@,
                stop && !found ==> id_lt(id@, s0[i as int].0),
                forall|j: int| 0 <= j < i ==> id_lt(#[trigger] s0[j].0, id@),
            decreases s0.len() - i + (if stop { 0int } else { 1int }),
        {
            let c = compare_ids(&self.entries[i].0, &id);
            match c {
                Ordering::Less => {
                    i = i + 1;
                },
                Ordering::Equal => {
                    found = true;
                    stop = true;
                },
                Ordering::Greater => {
                    stop = true;
                },
            }
        }
        if found {
            self.entries.set(i, (id, weight));
            let ghost s1 = self@;
            assert(s1 =~= s0.update(i as int, (id@, weight)));
            assert(sorted_ids(s1)) by {
                assert forall|a: int, b: int| 0 <= a < b < s1.len() implies id_lt(
                    #[trigger] s1[a].0,
                    #[trigger] s1[b].0,
                ) by {
                    assert(s0[a].0 == s1[a].0 && s0[b].0 == s1[b].0);
                }
            }
            assert forall|k: Seq<char>|
                #[trigger] lookup(s1, k) == if k == id@ {
                    Some(weight)
                } else {
                    lookup(s0, k)
                } by {
                if k == id@ {
                    lemma_lookup_at(s1, i as int);
                } else if exists|j: int| 0 <= j < s0.len() && #[trigger] s0[j].0 == k {
                    let j = choose|j: int| 0 <= j < s0.len() && #[trigger] s0[j].0 == k;
                    lemma_lookup_at(s0, j);
                    lemma_lookup_at(s1, j);
                } else {
                    assert(forall|j: int| 0 <= j < s1.len() ==> #[trigger] s1[j].0 != k);
                }
            }
        } else {
            self.entries.insert(i, (id, weight));
            let ghost s1 = self@;
            assert(s1 =~= s0.insert(i as int, (id@, weight)));
            assert(i < s0.len() ==> id_lt(id@, s0[i as int].0));
            assert(sorted_ids(s1)) by {
                assert forall|a: int, b: int| 0 <= a < b < s1.len() implies id_lt(
                    #[trigger] s1[a].0,
                    #[trigger] s1[b].0,
                ) by {
                    if b < i {
                        assert(s1[a] == s0[a] && s1[b] == s0[b]);
                    } else if b == i {
                        assert(s1[a] == s0[a]);
                    } else if a == i {
                        assert(s1[b] == s0[b - 1]);
                        if b - 1 > i {
                            assert(id_lt(s0[i as int].0, s0[b - 1].0));
                            lemma_id_lt_transitive(id@, s0[i as int].0, s0[b - 1].0);
                        }
                    } else if a < i {
                        assert(s1[a] == s0[a] && s1[b] == s0[b - 1]);
                        assert(id_lt(s0[a].0, id@));
                        if b - 1 > i {
                            assert(id_lt(s0[i as int].0, s0[b - 1].0));
                            lemma_id_lt_transitive(id@, s0[i as int].0, s0[b - 1].0);
                        }
                        lemma_id_lt_transitive(s0[a].0, id@, s0[b - 1].0);
                    } else {
                        assert(s1[a] == s0[a - 1] && s1[b] == s0[b - 1]);
                    }
                }
            }
            assert forall|k: Seq<char>|
                #[trigger] lookup(s1, k) == if k == id@ {
                    Some(weight)
                } else {
                    lookup(s0, k)
                } by {
                if k == id@ {
                    lemma_lookup_at(s1, i as int);
                } else if exists|j: int| 0 <= j < s0.len() && #[trigger] s0[j].0 == k {
                    let j = choose|j: int| 0 <= j < s0.len() && #[trigger] s0[j].0 == k;
                    lemma_lookup_at(s0, j);
                    if j < i {
                        assert(s1[j] == s0[j]);
                        lemma_lookup_at(s1, j);
                    } else {
                        assert(s1[j + 1] == s0[j]);
                        lemma_lookup_at(s1, j + 1);
                    }
                } else {
                    assert forall|j: int| 0 <= j < s1.len() implies #[trigger] s1[j].0 != k by {
                        if j < i {
                            assert(s1[j] == s0[j]);
                        } else if j > i {
                            assert(s1[j] == s0[j - 1]);
                        }
                    }
                }
            }
        }
    }

    /// The sum of all weights.
    pub fn total(&self) -> (r: u128)
        ensures
            r == total(self@),
    {
        let mut acc: u128 = 0;
        let mut i: usize = 0;
        while i < self.entries.len()
            invariant
                i <= self@.len(),
                self@.len() == self.entries@.len(),
                acc == prefix_total(self@, i as int),
                acc <= i * 4294967295,
            decreases self.entries.len() - i,
        {
            let w: u32 = self.entries[i].1;
            assert(w == self@[i as int].1);
            proof {
                let n: int = i as int;
                assert(n + 1 <= 18446744073709551616);
                assert((n + 1) * 4294967295 <= 18446744073709551616 * 4294967295)
                    by (nonlinear_arith)
                    requires
                        n + 1 <= 18446744073709551616,
                ;
            }
            acc = acc + w as u128;
            i = i + 1;
        }
        acc
    }

    /// The entry that owns `ticket`, if any.
    pub fn owner_of(&self, ticket: u128) -> (r: Option<usize>)
        ensures
            match r {
                Some(i) => owns(self@, i as int, ticket as int),
                None => forall|i: int| !owns(self@, i, ticket as int),
            },
    {
        let mut offset: u128 = 0;
        let mut i: usize = 0;
        while i < self.entries.len()
            invariant
                i <= self@.len(),
                self@.len() == self.entries@.len(),
                offset == prefix_total(self@, i as int),
                offset <= ticket,
                forall|j: int| 0 <= j < i ==> !#[trigger] owns(self@, j, ticket as int),
            decreases self.entries.len() - i,
        {
            let w: u32 = self.entries[i].1;
            assert(w == self@[i as int].1);
            if ticket - offset < w as u128 {
                return Some(i);
            }
            offset = offset + w as u128;
            i = i + 1;
        }
        None
    }

    /// Removes every entry.
    pub fn clear(&mut self)
        ensures
            final(self)@ == Seq::<(Seq<char>, u32)>::empty(),
    {
        self.entries.clear();
        assert(self@ =~= Seq::<(Seq<char>, u32)>::empty());
    }
}

} // verus!
