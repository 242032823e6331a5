//! Measurement results.
//!
//! Bitstrings put the lowest-indexed qubit rightmost: `"01"` means qubit 0
//! measured `1` and qubit 1 measured `0`.
use rustc_hash::FxHashMap;
use vstd::prelude::*;
use vstd::string::StringExecFns;

verus! {

/// Hash table from bitstring to count, kept in a `rustc_hash` map.
#[verifier::external_body]
#[derive(Debug)]
pub struct CountTable {
    map: FxHashMap<String, u64>,
}

impl Clone for CountTable {
    /// Relies on `HashMap::clone`: the copy holds the same entries.
    #[verifier::external_body]
    fn clone(&self) -> (r: CountTable)
        ensures
            table_contents(r) == table_contents(*self),
    {
        CountTable { map: self.map.clone() }
    }
}

/// What a count table holds: each bitstring's count.
pub uninterp spec fn table_contents(t: CountTable) -> Map<Seq<char>, u64>;

/// The empty table of counts.
pub open spec fn no_counts() -> Map<Seq<char>, u64> {
    Map::empty()
}

/// Relies on `FxHashMap::default`: a new map is empty.
#[verifier::external_body]
fn table_new() -> (r: CountTable)
    ensures
        table_contents(r) == no_counts(),
{
    CountTable { map: FxHashMap::default() }
}

/// Relies on `HashMap::get`: the value stored under the key, if any.
#[verifier::external_body]
fn table_get(t: &CountTable, key: &str) -> (r: Option<u64>)
    ensures
        r == (if table_contents(*t).contains_key(key@) {
            Some(table_contents(*t)[key@])
        } else {
            None
        }),
{
    t.map.get(key).copied()
}

/// Relies on `HashMap::insert`: the key now maps to the value, the rest is kept.
#[verifier::external_body]
fn table_set(t: &mut CountTable, key: String, value: u64)
    ensures
        table_contents(*final(t)) == table_contents(*old(t)).insert(key@, value),
{
    t.map.insert(key, value);
}

/// Relies on `HashMap::len`: the number of keys.
#[verifier::external_body]
fn table_len(t: &CountTable) -> (r: usize)
    ensures
        r == table_contents(*t).len(),
{
    t.map.len()
}

/// Relies on `HashMap::iter`: every entry once, in an unspecified order.
#[verifier::external_body]
fn table_entries(t: &CountTable) -> (r: Vec<(String, u64)>)
    ensures
        entries_match(r@, table_contents(*t)),
{
    t.map.iter().map(|(k, v)| (k.clone(), *v)).collect()
}

/// `s` lists each entry of `m` exactly once, in some order.
pub open spec fn entries_match(s: Seq<(String, u64)>, m: Map<Seq<char>, u64>) -> bool {
    &&& m.dom().finite()
    &&& forall|i: int| 0 <= i < s.len() ==> #[trigger] m.contains_key(s[i].0@) && m[s[i].0@] == s[i].1
    &&& forall|i: int, j: int| 0 <= i < j < s.len() ==> #[trigger] s[i].0@ != #[trigger] s[j].0@
    &&& forall|k: Seq<char>| #[trigger] m.contains_key(k) ==> exists|i: int| 0 <= i < s.len() && #[trigger] s[i].0@ == k
}

/// Counts never increase along `s`.
#[verifier::opaque]
pub open spec fn descending(s: Seq<(String, u64)>) -> bool {
    forall|a: int, b: int| 0 <= a < b < s.len() ==> #[trigger] s[a].1 >= #[trigger] s[b].1
}

/// No bitstring occurs twice in `s`.
#[verifier::opaque]
pub open spec fn distinct_keys(s: Seq<(String, u64)>) -> bool {
    forall|a: int, b: int| 0 <= a < b < s.len() ==> #[trigger] s[a].0@ != #[trigger] s[b].0@
}

/// Each entry of `out` is one of the first `n` entries of `src`.
#[verifier::opaque]
pub open spec fn drawn_from(out: Seq<(String, u64)>, src: Seq<(String, u64)>, n: int) -> bool {
    forall|j: int| 0 <= j < out.len() ==> exists|m: int| 0 <= m < n && #[trigger] src[m] == #[trigger] out[j]
}

/// Each of the first `n` entries of `src` is in `out`.
#[verifier::opaque]
pub open spec fn covers(out: Seq<(String, u64)>, src: Seq<(String, u64)>, n: int) -> bool {
    forall|m: int| 0 <= m < n ==> exists|j: int| 0 <= j < out.len() && #[trigger] src[m] == #[trigger] out[j]
}

proof fn lemma_sorted_matches(out: Seq<(String, u64)>, src: Seq<(String, u64)>, m: Map<Seq<char>, u64>)
    requires
        entries_match(src, m),
        distinct_keys(out),
        drawn_from(out, src, src.len() as int),
        covers(out, src, src.len() as int),
    ensures
        entries_match(out, m),
{
    reveal(distinct_keys);
    reveal(drawn_from);
    reveal(covers);
    assert forall|j: int| 0 <= j < out.len() implies #[trigger] m.contains_key(out[j].0@) && m[out[j].0@] == out[j].1 by {
        let i = choose|i: int| 0 <= i < src.len() && #[trigger] src[i] == #[trigger] out[j];
        assert(m.contains_key(src[i].0@));
    }
    assert forall|k: Seq<char>| #[trigger] m.contains_key(k) implies exists|j: int| 0 <= j < out.len() && #[trigger] out[j].0@ == k by {
        let i = choose|i: int| 0 <= i < src.len() && #[trigger] src[i].0@ == k;
        let j = choose|j: int| 0 <= j < out.len() && #[trigger] src[i] == #[trigger] out[j];
        assert(out[j].0@ == k);
    }
}

proof fn lemma_sorted_insert(before: Seq<(String, u64)>, src: Seq<(String, u64)>, i: int, p: int)
    requires
        0 <= i < src.len(),
        0 <= p <= before.len(),
        forall|a: int, b: int| 0 <= a < b < src.len() ==> #[trigger] src[a].0@ != #[trigger] src[b].0@,
        descending(before),
        distinct_keys(before),
        drawn_from(before, src, i),
        covers(before, src, i),
        forall|q: int| 0 <= q < p ==> #[trigger] before[q].1 >= src[i].1,
        p < before.len() ==> before[p].1 < src[i].1,
    ensures
        descending(before.insert(p, src[i])),
        distinct_keys(before.insert(p, src[i])),
        drawn_from(before.insert(p, src[i]), src, i + 1),
        covers(before.insert(p, src[i]), src, i + 1),
{
    before.insert_ensures(p, src[i]);
    lemma_insert_descending(before, src[i], p);
    lemma_insert_drawn(before, src, i, p);
    lemma_insert_covers(before, src, i, p);
    lemma_insert_distinct(before, src, i, p);
}

proof fn lemma_insert_descending(before: Seq<(String, u64)>, item: (String, u64), p: int)
    requires
        0 <= p <= before.len(),
        descending(before),
        forall|q: int| 0 <= q < p ==> #[trigger] before[q].1 >= item.1,
        p < before.len() ==> before[p].1 < item.1,
    ensures
        descending(before.insert(p, item)),
{
    reveal(descending);
    let out = before.insert(p, item);
    before.insert_ensures(p, item);
    assert forall|a: int, b: int| 0 <= a < b < out.len() implies #[trigger] out[a].1 >= #[trigger] out[b].1 by {
        if a < p && b > p {
            assert(out[b] == before[b - 1]);
        } else if a == p && b > p {
            assert(out[b] == before[b - 1]);
            if b - 1 > p {
                assert(before[p].1 >= before[b - 1].1);
            }
        } else if a > p {
            assert(out[a] == before[a - 1]);
            assert(out[b] == before[b - 1]);
        }
    }
}

proof fn lemma_insert_drawn(before: Seq<(String, u64)>, src: Seq<(String, u64)>, i: int, p: int)
    requires
        0 <= i < src.len(),
        0 <= p <= before.len(),
        drawn_from(before, src, i),
    ensures
        drawn_from(before.insert(p, src[i]), src, i + 1),
{
    reveal(drawn_from);
    let out = before.insert(p, src[i]);
    before.insert_ensures(p, src[i]);
    assert forall|j: int| 0 <= j < out.len() implies exists|m: int| 0 <= m < i + 1 && #[trigger] src[m] == #[trigger] out[j] by {
        if j < p {
            assert(out[j] == before[j]);
            let m = choose|m: int| 0 <= m < i && #[trigger] src[m] == #[trigger] before[j];
            assert(src[m] == out[j]);
        } else if j == p {
            assert(src[i] == out[j]);
        } else {
            assert(out[j] == before[j - 1]);
            let m = choose|m: int| 0 <= m < i && #[trigger] src[m] == #[trigger] before[j - 1];
            assert(src[m] == out[j]);
        }
    }
}

proof fn lemma_insert_covers(before: Seq<(String, u64)>, src: Seq<(String, u64)>, i: int, p: int)
    requires
        0 <= i < src.len(),
        0 <= p <= before.len(),
        covers(before, src, i),
    ensures
        covers(before.insert(p, src[i]), src, i + 1),
{
    reveal(covers);
    let out = before.insert(p, src[i]);
    before.insert_ensures(p, src[i]);
    assert forall|m: int| 0 <= m < i + 1 implies exists|j: int| 0 <= j < out.len() && #[trigger] src[m] == #[trigger] out[j] by {
        if m == i {
            assert(src[m] == out[p]);
        } else {
            let j = choose|j: int| 0 <= j < before.len() && #[trigger] src[m] == #[trigger] before[j];
            if j < p {
                assert(src[m] == out[j]);
            } else {
                assert(src[m] == out[j + 1]);
            }
        }
    }
}

proof fn lemma_insert_distinct(before: Seq<(String, u64)>, src: Seq<(String, u64)>, i: int, p: int)
    requires
        0 <= i < src.len(),
        0 <= p <= before.len(),
        forall|a: int, b: int| 0 <= a < b < src.len() ==> #[trigger] src[a].0@ != #[trigger] src[b].0@,
        distinct_keys(before),
        drawn_from(before, src, i),
    ensures
        distinct_keys(before.insert(p, src[i])),
{
    reveal(distinct_keys);
    reveal(drawn_from);
    let out = before.insert(p, src[i]);
    before.insert_ensures(p, src[i]);
    assert forall|a: int, b: int| 0 <= a < b < out.len() implies #[trigger] out[a].0@ != #[trigger] out[b].0@ by {
        if a == p || b == p {
            let o = if a == p { b } else { a };
            let oo = if o < p { o } else { o - 1 };
            assert(out[o] == before[oo]);
            let m = choose|m: int| 0 <= m < i && #[trigger] src[m] == #[trigger] before[oo];
            assert(src[m].0@ != src[i].0@);
        } else {
            let aa = if a < p { a } else { a - 1 };
            let bb = if b < p { b } else { b - 1 };
            assert(out[a] == before[aa]);
            assert(out[b] == before[bb]);
        }
    }
}

/// Sum of all counts of `m`.
pub open spec fn total(m: Map<Seq<char>, u64>) -> int {
    m.dom().fold(0int, |acc: int, k: Seq<char>| acc + m[k])
}

/// Sum of the counts of `m` over the keys in `keys`.
pub open spec fn partial_total(m: Map<Seq<char>, u64>, keys: Set<Seq<char>>) -> int {
    keys.fold(0int, |acc: int, k: Seq<char>| acc + m[k])
}

/// The keys of the first `n` entries of `s`.
pub open spec fn key_prefix(s: Seq<(String, u64)>, n: int) -> Set<Seq<char>> {
    Set::new(|k: Seq<char>| exists|i: int| 0 <= i < n && #[trigger] s[i].0@ == k)
}

proof fn lemma_partial_total_step(m: Map<Seq<char>, u64>, s: Seq<(String, u64)>, n: int)
    requires
        0 <= n < s.len(),
        forall|i: int, j: int| 0 <= i < j < s.len() ==> #[trigger] s[i].0@ != #[trigger] s[j].0@,
        key_prefix(s, n).finite(),
    ensures
        key_prefix(s, n + 1) == key_prefix(s, n).insert(s[n].0@),
        key_prefix(s, n + 1).finite(),
        partial_total(m, key_prefix(s, n + 1)) == partial_total(m, key_prefix(s, n)) + m[s[n].0@],
{
    let f = |acc: int, k: Seq<char>| acc + m[k];
    assert(key_prefix(s, n + 1) =~= key_prefix(s, n).insert(s[n].0@));
    assert(!key_prefix(s, n).contains(s[n].0@)) by {
        if key_prefix(s, n).contains(s[n].0@) {
            let i = choose|i: int| 0 <= i < n && #[trigger] s[i].0@ == s[n].0@;
        }
    }
    assert(vstd::set::fold::is_fun_commutative(f)) by {
        assert forall|a1: Seq<char>, a2: Seq<char>, b: int| #[trigger] f(f(b, a2), a1) == f(f(b, a1), a2) by {}
    }
    vstd::set::fold::lemma_fold_insert(key_prefix(s, n), 0int, f, s[n].0@);
}

/// Counts of measurement outcomes, keyed by bitstring. Inserting a key that is
/// already present adds to its count.
#[derive(Debug, Clone)]
pub struct Counts {
    counts: CountTable,
}

impl View for Counts {
    type V = Map<Seq<char>, u64>;

    closed spec fn view(&self) -> Map<Seq<char>, u64> {
        table_contents(self.counts)
    }
}

impl Counts {
    /// No counts.
    pub fn new() -> (r: Counts)
        ensures
            r@ == Map::<Seq<char>, u64>::empty(),
    {
        Counts { counts: table_new() }
    }

    /// Counts built by inserting each pair in turn: repeated bitstrings add up.
    pub fn from_pairs(pairs: Vec<(String, u64)>) -> (r: Counts)
        requires
            forall|k: Seq<char>| sum_for(pairs@, k) <= u64::MAX,
        ensures
            forall|k: Seq<char>|
                #[trigger] r@.contains_key(k) <==> exists|i: int|
                    0 <= i < pairs@.len() && #[trigger] pairs@[i].0@ == k,
            forall|k: Seq<char>| #[trigger] r@.contains_key(k) ==> r@[k] == sum_for(pairs@, k),
    {
        let mut counts = Counts::new();
        let mut i: usize = 0;
        while i < pairs.len()
            invariant
                i <= pairs@.len(),
                forall|k: Seq<char>| sum_for(pairs@, k) <= u64::MAX,
                forall|k: Seq<char>|
                    #[trigger] counts@.contains_key(k) <==> exists|j: int|
                        0 <= j < i && #[trigger] pairs@[j].0@ == k,
                forall|k: Seq<char>| #[trigger] counts@.contains_key(k) ==> counts@[k] == sum_for(pairs@.take(i as int), k),
                forall|k: Seq<char>| !#[trigger] counts@.contains_key(k) ==> sum_for(pairs@.take(i as int), k) == 0,
            decreases pairs@.len() - i,
        {
            let ghost key = pairs@[i as int].0@;
            let ghost before = counts@;
            proof {
                assert(pairs@.take(i as int + 1).drop_last() == pairs@.take(i as int));
                assert(pairs@.take(i as int + 1).last() == pairs@[i as int]);
                lemma_sum_for_prefix_bound(pairs@, i as int + 1, key);
            }
            counts.insert(pairs[i].0.as_str(), pairs[i].1);
            proof {
                assert forall|k: Seq<char>| #[trigger] counts@.contains_key(k) implies counts@[k] == sum_for(pairs@.take(i as int + 1), k) by {
                    assert(pairs@.take(i as int + 1).drop_last() == pairs@.take(i as int));
                    assert(pairs@.take(i as int + 1).last() == pairs@[i as int]);
                    if k != key {
                        assert(before.contains_key(k));
                    }
                }
                assert forall|k: Seq<char>| !#[trigger] counts@.contains_key(k) implies sum_for(pairs@.take(i as int + 1), k) == 0 by {
                    assert(pairs@.take(i as int + 1).drop_last() == pairs@.take(i as int));
                    assert(pairs@.take(i as int + 1).last() == pairs@[i as int]);
                }
                assert forall|k: Seq<char>| #[trigger] counts@.contains_key(k) <==> exists|j: int|
                        0 <= j < i + 1 && #[trigger] pairs@[j].0@ == k by {
                    if counts@.contains_key(k) && k != key {
                        let j = choose|j: int| 0 <= j < i && #[trigger] pairs@[j].0@ == k;
                    }
                }
            }
            i = i + 1;
        }
        assert(pairs@.take(pairs@.len() as int) == pairs@);
        counts
    }

    /// Add `count` occurrences of `bitstring`.
    pub fn insert(&mut self, bitstring: &str, count: u64)
        requires
            old(self)@.contains_key(bitstring@) ==> old(self)@[bitstring@] + count <= u64::MAX,
        ensures
            final(self)@ == added(old(self)@, bitstring@, count),
    {
        let current = table_get(&self.counts, bitstring);
        let updated: u64 = match current {
            Some(c) => c + count,
            None => count,
        };
        table_set(&mut self.counts, String::from_str(bitstring), updated);
    }

    /// The count of `bitstring`, zero if absent.
    pub fn get(&self, bitstring: &str) -> (r: u64)
        ensures
            r == (if self@.contains_key(bitstring@) {
                self@[bitstring@]
            } else {
                0
            }),
    {
        match table_get(&self.counts, bitstring) {
            Some(c) => c,
            None => 0,
        }
    }

    /// Every (bitstring, count) pair once, in an unspecified order.
    pub fn iter(&self) -> (r: Vec<(String, u64)>)
        ensures
            entries_match(r@, self@),
    {
        table_entries(&self.counts)
    }

    fn sum_all(&self) -> (r: u128)
        ensures
            r == total(self@),
    {
        let entries = table_entries(&self.counts);
        let ghost m = self@;
        let mut sum: u128 = 0;
        let mut i: usize = 0;
        proof {
            assert(key_prefix(entries@, 0) =~= Set::<Seq<char>>::empty());
            vstd::set::fold::lemma_fold_empty(0int, |acc: int, k: Seq<char>| acc + m[k]);
        }
        while i < entries.len()
            invariant
                m == self@,
                entries_match(entries@, m),
                i <= entries@.len(),
                key_prefix(entries@, i as int).finite(),
                sum == partial_total(m, key_prefix(entries@, i as int)),
                sum <= i as int * u64::MAX,
            decreases entries@.len() - i,
        {
            proof {
                lemma_partial_total_step(m, entries@, i as int);
                assert(i as int * u64::MAX + u64::MAX <= u128::MAX) by (nonlinear_arith)
                    requires
                        i <= usize::MAX,
                ;
                assert((i as int + 1) * u64::MAX == i as int * u64::MAX + u64::MAX) by (nonlinear_arith);
                assert(m.contains_key(entries@[i as int].0@));
            }
            sum = sum + entries[i].1 as u128;
            i = i + 1;
        }
        proof {
            assert(key_prefix(entries@, i as int) =~= m.dom());
        }
        sum
    }

    /// Total number of shots: the sum of all counts.
    pub fn total_shots(&self) -> (r: u64)
        requires
            total(self@) <= u64::MAX,
        ensures
            r == total(self@),
    {
        self.sum_all() as u64
    }

    /// Total number of shots, or `None` when the sum does not fit in a `u64`.
    pub fn try_total_shots(&self) -> (r: Option<u64>)
        ensures
            r == (if total(self@) <= u64::MAX {
                Some(total(self@) as u64)
            } else {
                None
            }),
    {
        let sum = self.sum_all();
        if sum <= u64::MAX as u128 {
            Some(sum as u64)
        } else {
            None
        }
    }

    /// A bitstring with the largest count, with that count; `None` when empty.
    /// Among equal counts, which one is returned is unspecified.
    pub fn most_frequent(&self) -> (r: Option<(String, u64)>)
        ensures
            self@.dom().finite(),
            r is None <==> self@.len() == 0,
            r matches Some(p) ==> self@.contains_key(p.0@) && self@[p.0@] == p.1 && forall|k: Seq<char>|
                #[trigger] self@.contains_key(k) ==> self@[k] <= p.1,
    {
        let entries = table_entries(&self.counts);
        proof {
            if entries@.len() == 0 {
                assert(self@.dom() =~= Set::<Seq<char>>::empty());
            } else {
                assert(self@.contains_key(entries@[0].0@));
                vstd::set::axiom_set_contains_len(self@.dom(), entries@[0].0@);
            }
        }
        if entries.len() == 0 {
            return None;
        }
        let mut best: usize = 0;
        let mut i: usize = 1;
        while i < entries.len()
            invariant
                entries_match(entries@, self@),
                best < i <= entries@.len(),
                forall|j: int| 0 <= j < i ==> #[trigger] entries@[j].1 <= entries@[best as int].1,
            decreases entries@.len() - i,
        {
            if entries[i].1 > entries[best].1 {
                best = i;
            }
            i = i + 1;
        }
        proof {
            assert forall|k: Seq<char>| #[trigger] self@.contains_key(k) implies self@[k] <= entries@[best as int].1 by {
                let j = choose|j: int| 0 <= j < entries@.len() && #[trigger] entries@[j].0@ == k;
                assert(self@.contains_key(entries@[j].0@));
            }
            assert(self@.contains_key(entries@[best as int].0@));
        }
        Some((entries[best].0.clone(), entries[best].1))
    }

    /// Every (bitstring, count) pair once, by count from largest to smallest.
    /// The order among equal counts is unspecified.
    pub fn sorted(&self) -> (r: Vec<(String, u64)>)
        ensures
            entries_match(r@, self@),
            descending(r@),
    {
        let entries = table_entries(&self.counts);
        let mut out: Vec<(String, u64)> = Vec::new();
        let mut i: usize = 0;
        assert(descending(out@)) by {
            reveal(descending);
        }
        assert(distinct_keys(out@)) by {
            reveal(distinct_keys);
        }
        assert(drawn_from(out@, entries@, 0)) by {
            reveal(drawn_from);
        }
        assert(covers(out@, entries@, 0)) by {
            reveal(covers);
        }
        while i < entries.len()
            invariant
                entries_match(entries@, self@),
                i <= entries@.len(),
                out@.len() == i,
                descending(out@),
                distinct_keys(out@),
                drawn_from(out@, entries@, i as int),
                covers(out@, entries@, i as int),
            decreases entries@.len() - i,
        {
            let v = entries[i].1;
            let mut p: usize = 0;
            while p < out.len() && out[p].1 >= v
                invariant
                    p <= out@.len(),
                    forall|q: int| 0 <= q < p ==> #[trigger] out@[q].1 >= v,
                decreases out@.len() - p,
            {
                p = p + 1;
            }
            let item = (entries[i].0.clone(), v);
            let ghost before = out@;
            assert(item == entries@[i as int]);
            proof {
                lemma_sorted_insert(before, entries@, i as int, p as int);
            }
            out.insert(p, item);
            i = i + 1;
        }
        proof {
            lemma_sorted_matches(out@, entries@, self@);
        }
        out
    }

    /// A copy holding the same counts.
    pub fn duplicate(&self) -> (r: Counts)
        ensures
            r@ == self@,
    {
        Counts { counts: self.counts.clone() }
    }

    /// Number of distinct bitstrings.
    pub fn len(&self) -> (r: usize)
        ensures
            r == self@.len(),
    {
        table_len(&self.counts)
    }

    /// Whether no bitstring has been recorded.
    pub fn is_empty(&self) -> (r: bool)
        ensures
            r == (self@.len() == 0),
    {
        table_len(&self.counts) == 0
    }
}

/// `m` after adding `count` occurrences of `key`.
pub open spec fn added(m: Map<Seq<char>, u64>, key: Seq<char>, count: u64) -> Map<Seq<char>, u64> {
    m.insert(
        key,
        (if m.contains_key(key) {
            m[key] + count
        } else {
            count as int
        }) as u64,
    )
}

/// `m` after adding each of `amounts` to `key`, in turn.
pub open spec fn added_all(m: Map<Seq<char>, u64>, key: Seq<char>, amounts: Seq<u64>) -> Map<Seq<char>, u64>
    decreases amounts.len(),
{
    if amounts.len() == 0 {
        m
    } else {
        added(added_all(m, key, amounts.drop_last()), key, amounts.last())
    }
}

/// Sum of a sequence of amounts.
pub open spec fn sum_of(amounts: Seq<u64>) -> int
    decreases amounts.len(),
{
    if amounts.len() == 0 {
        0
    } else {
        sum_of(amounts.drop_last()) + amounts.last()
    }
}

/// Repeated inserts on one key accumulate: starting from no counts, after
/// inserting each of `amounts` the key's count is their sum (as long as that sum
/// fits in a `u64`); other keys stay absent.
pub proof fn lemma_insert_accumulates(key: Seq<char>, amounts: Seq<u64>)
    requires
        amounts.len() > 0,
        sum_of(amounts) <= u64::MAX,
    ensures
        added_all(Map::empty(), key, amounts).contains_key(key),
        added_all(Map::empty(), key, amounts)[key] == sum_of(amounts),
        added_all(Map::empty(), key, amounts).dom() == set![key],
    decreases amounts.len(),
{
    let rest = amounts.drop_last();
    if rest.len() == 0 {
        assert(added_all(Map::empty(), key, rest) == Map::<Seq<char>, u64>::empty());
        assert(sum_of(rest) == 0);
        assert(sum_of(amounts) == amounts.last());
        assert(added_all(Map::empty(), key, amounts).dom() =~= set![key]);
    } else {
        lemma_sum_of_prefix(amounts);
        lemma_insert_accumulates(key, rest);
        assert(sum_of(amounts) == sum_of(rest) + amounts.last());
        assert(added_all(Map::empty(), key, amounts).dom() =~= set![key]);
    }
}

proof fn lemma_sum_of_prefix(amounts: Seq<u64>)
    requires
        amounts.len() > 0,
    ensures
        0 <= sum_of(amounts.drop_last()) <= sum_of(amounts),
    decreases amounts.len(),
{
    if amounts.drop_last().len() > 0 {
        lemma_sum_of_prefix(amounts.drop_last());
    }
}

/// Sum of the counts given for key `k` in a list of pairs.
pub open spec fn sum_for(pairs: Seq<(String, u64)>, k: Seq<char>) -> int
    decreases pairs.len(),
{
    if pairs.len() == 0 {
        0
    } else {
        sum_for(pairs.drop_last(), k) + if pairs.last().0@ == k {
            pairs.last().1 as int
        } else {
            0
        }
    }
}

proof fn lemma_sum_for_prefix_bound(pairs: Seq<(String, u64)>, n: int, k: Seq<char>)
    requires
        0 <= n <= pairs.len(),
    ensures
        0 <= sum_for(pairs.take(n), k) <= sum_for(pairs, k),
    decreases pairs.len(),
{
    if n < pairs.len() {
        assert(pairs.drop_last().take(n) == pairs.take(n));
        lemma_sum_for_prefix_bound(pairs.drop_last(), n, k);
    } else {
        assert(pairs.take(n) == pairs);
        lemma_sum_for_nonneg(pairs, k);
    }
}

proof fn lemma_sum_for_nonneg(pairs: Seq<(String, u64)>, k: Seq<char>)
    ensures
        sum_for(pairs, k) >= 0,
    decreases pairs.len(),
{
    if pairs.len() > 0 {
        lemma_sum_for_nonneg(pairs.drop_last(), k);
    }
}


#[verifier::external_type_specification]
#[verifier::external_body]
pub struct ExJsonValue(serde_json::Value);

/// Relies on the derived `Clone` of `serde_json::Value`: a field-by-field copy.
pub assume_specification[ <serde_json::Value as Clone>::clone ](v: &serde_json::Value) -> (r: serde_json::Value)
    ensures
        r == *v,
;

/// Relies on `serde_json::Value::Null`: the metadata of a result that has none.
#[verifier::external_body]
fn null_metadata() -> (r: serde_json::Value)
{
    serde_json::Value::Null
}

/// Result of a completed job: its counts, the shots requested, the measured
/// execution time if known, and free-form metadata.
#[derive(Debug, Clone)]
pub struct ExecutionResult {
    /// Measurement counts.
    pub counts: Counts,
    /// Number of shots executed.
    pub shots: u32,
    /// Execution time in milliseconds.
    pub execution_time_ms: Option<u64>,
    /// Additional metadata.
    pub metadata: serde_json::Value,
}

impl ExecutionResult {
    /// A result with no execution time and null metadata.
    pub fn new(counts: Counts, shots: u32) -> (r: ExecutionResult)
        ensures
            r.counts@ == counts@,
            r.shots == shots,
            r.execution_time_ms is None,
    {
        ExecutionResult { counts, shots, execution_time_ms: None, metadata: null_metadata() }
    }

    /// A copy of this result.
    pub fn duplicate(&self) -> (r: ExecutionResult)
        ensures
            r.counts@ == self.counts@,
            r.shots == self.shots,
            r.execution_time_ms == self.execution_time_ms,
            r.metadata == self.metadata,
    {
        ExecutionResult {
            counts: self.counts.duplicate(),
            shots: self.shots,
            execution_time_ms: self.execution_time_ms,
            metadata: self.metadata.clone(),
        }
    }

    /// The same result with an execution time.
    pub fn with_execution_time(self, time_ms: u64) -> (r: ExecutionResult)
        ensures
            r == (ExecutionResult { execution_time_ms: Some(time_ms), ..self }),
    {
        ExecutionResult { execution_time_ms: Some(time_ms), ..self }
    }

    /// The same result with other metadata.
    pub fn with_metadata(self, metadata: serde_json::Value) -> (r: ExecutionResult)
        ensures
            r == (ExecutionResult { metadata, ..self }),
    {
        ExecutionResult { metadata, ..self }
    }

    /// The most frequent bitstring with its count and the total number of shots
    /// counted, so that its probability is `count / total`; `None` when no shot
    /// was counted.
    pub fn most_frequent_share(&self) -> (r: Option<(String, u64, u64)>)
        requires
            total(self.counts@) <= u64::MAX,
        ensures
            r is None <==> total(self.counts@) == 0,
            r matches Some(p) ==> {
                &&& self.counts@.contains_key(p.0@)
                &&& self.counts@[p.0@] == p.1
                &&& forall|k: Seq<char>| #[trigger] self.counts@.contains_key(k) ==> self.counts@[k] <= p.1
                &&& p.2 == total(self.counts@)
            },
    {
        let total_shots = self.counts.total_shots();
        if total_shots == 0 {
            return None;
        }
        match self.counts.most_frequent() {
            Some((key, count)) => Some((key, count, total_shots)),
            None => {
                proof {
                    lemma_total_of_empty(self.counts@);
                }
                None
            },
        }
    }
}

proof fn lemma_total_of_empty(m: Map<Seq<char>, u64>)
    requires
        m.dom().finite(),
        m.len() == 0,
    ensures
        total(m) == 0,
{
    vstd::set_lib::lemma_set_empty_equivalency_len(m.dom());
    vstd::set::fold::lemma_fold_empty(0int, |acc: int, k: Seq<char>| acc + m[k]);
}

impl Default for ExecutionResult {
    fn default() -> (r: ExecutionResult)
        ensures
            r.counts@ == no_counts(),
            r.shots == 0,
            r.execution_time_ms is None,
    {
        ExecutionResult::new(Counts::new(), 0)
    }
}

} // verus!
