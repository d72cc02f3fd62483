//! Constraints of the form `A * B + C`, where `A`, `B` and `C` are linear
//! combinations of signals, and their rendering as text.
use crate::decimal::{int_decimal, nat_decimal};
use num_bigint_dig::{BigInt, Sign};
use std::collections::HashMap;
use vstd::prelude::*;

verus! {

broadcast use vstd::std_specs::hash::group_hash_axioms;

/// The value of little-endian base-2^32 digits.
pub open spec fn digits_value(digits: Seq<u32>) -> nat
    decreases digits.len(),
{
    if digits.len() == 0 {
        0
    } else {
        digits[0] as nat + 4294967296 * digits_value(digits.drop_first())
    }
}

/// The integer with the given sign and magnitude.
pub open spec fn signed_value(negative: bool, magnitude: nat) -> int {
    if negative {
        -(magnitude as int)
    } else {
        magnitude as int
    }
}

/// A coefficient of a linear combination: an arbitrary-precision integer,
/// held as a sign and a magnitude in little-endian base-2^32 digits.
pub struct Coefficient {
    pub negative: bool,
    pub magnitude: Vec<u32>,
}

impl View for Coefficient {
    type V = int;

    open spec fn view(&self) -> int {
        signed_value(self.negative, digits_value(self.magnitude@))
    }
}

/// Renders an integer in decimal through num-bigint-dig: `BigInt::from_slice`
/// builds the integer from the sign and the little-endian base-2^32 digits
/// (a zero magnitude gives zero, whatever the sign), and
/// `BigInt::to_str_radix(10)` writes its digits in ASCII, with a leading '-'
/// for a negative value only and "0" for zero. The contract states that
/// result; it is not proved here.
#[verifier::external_body]
fn big_decimal(negative: bool, magnitude: &Vec<u32>) -> (res: String)
    ensures
        res@ == int_decimal(signed_value(negative, digits_value(magnitude@))),
{
    let sign = if negative {
        Sign::Minus
    } else {
        Sign::Plus
    };
    BigInt::from_slice(sign, magnitude.as_slice()).to_str_radix(10)
}

impl Coefficient {
    /// The coefficient in decimal, as `to_str_radix(10)` writes it.
    pub fn to_decimal(&self) -> (res: String)
        ensures
            res@ == int_decimal(self@),
    {
        big_decimal(self.negative, &self.magnitude)
    }

    /// A copy of the coefficient: the same sign and digits.
    pub fn duplicate(&self) -> (res: Coefficient)
        ensures
            res.negative == self.negative,
            res.magnitude@ == self.magnitude@,
    {
        let mut magnitude: Vec<u32> = Vec::new();
        let n = self.magnitude.len();
        for i in 0..n
            invariant
                n == self.magnitude.len(),
                magnitude@ == self.magnitude@.take(i as int),
        {
            magnitude.push(self.magnitude[i]);
            assert(magnitude@ =~= self.magnitude@.take(i + 1));
        }
        assert(magnitude@ =~= self.magnitude@);
        Coefficient { negative: self.negative, magnitude }
    }
}

/// The keys of `s` strictly increase.
pub open spec fn entries_sorted(s: Seq<(usize, int)>) -> bool {
    forall|i: int, j: int| 0 <= i < j < s.len() ==> s[i].0 < s[j].0
}

/// The map that the entries of `s` make, later entries taking precedence.
pub open spec fn entries_map(s: Seq<(usize, int)>) -> Map<usize, int>
    decreases s.len(),
{
    if s.len() == 0 {
        Map::empty()
    } else {
        entries_map(s.drop_last()).insert(s.last().0, s.last().1)
    }
}

/// The entries of a finite map in increasing order of keys.
pub open spec fn ordered_entries(m: Map<usize, int>) -> Seq<(usize, int)> {
    choose|s: Seq<(usize, int)>| entries_sorted(s) && entries_map(s) == m
}

/// The keys of `entries_map(s)` are those that occur in `s`; for sorted `s`,
/// each key maps to the value beside it.
pub proof fn lemma_entries_map(s: Seq<(usize, int)>)
    ensures
        forall|k: usize|
            #[trigger] entries_map(s).contains_key(k) <==> exists|i: int|
                0 <= i < s.len() && #[trigger] s[i].0 == k,
        entries_sorted(s) ==> forall|i: int|
            0 <= i < s.len() ==> #[trigger] entries_map(s)[s[i].0] == s[i].1,
        entries_map(s).dom().finite(),
    decreases s.len(),
{
    if s.len() > 0 {
        let t = s.drop_last();
        lemma_entries_map(t);
        assert forall|k: usize| #[trigger]
            entries_map(s).contains_key(k) <==> exists|i: int|
                0 <= i < s.len() && #[trigger] s[i].0 == k by {
            if entries_map(s).contains_key(k) {
                if k == s.last().0 {
                    assert(s[s.len() - 1].0 == k);
                } else {
                    let i = choose|i: int| 0 <= i < t.len() && #[trigger] t[i].0 == k;
                    assert(s[i].0 == k);
                }
            }
            if exists|i: int| 0 <= i < s.len() && #[trigger] s[i].0 == k {
                let i = choose|i: int| 0 <= i < s.len() && #[trigger] s[i].0 == k;
                if i < s.len() - 1 {
                    assert(t[i].0 == k);
                }
            }
        }
        if entries_sorted(s) {
            assert forall|i: int| 0 <= i < s.len() implies #[trigger] entries_map(s)[s[i].0]
                == s[i].1 by {
                if i < s.len() - 1 {
                    assert(t[i] == s[i]);
                }
            }
        }
    }
}

/// Two sorted sequences of entries that make the same map are equal.
pub proof fn lemma_sorted_entries_unique(s1: Seq<(usize, int)>, s2: Seq<(usize, int)>)
    requires
        entries_sorted(s1),
        entries_sorted(s2),
        entries_map(s1) == entries_map(s2),
    ensures
        s1 == s2,
    decreases s1.len() + s2.len(),
{
    lemma_entries_map(s1);
    lemma_entries_map(s2);
    let m = entries_map(s1);
    if s1.len() == 0 {
        if s2.len() > 0 {
            assert(entries_map(s2).contains_key(s2[0].0));
        }
        assert(s1 =~= s2);
    } else if s2.len() == 0 {
        assert(m.contains_key(s1[0].0));
    } else {
        let k1 = s1.last().0;
        let k2 = s2.last().0;
        assert(m.contains_key(k1));
        assert(m.contains_key(k2));
        let i2 = choose|i: int| 0 <= i < s2.len() && #[trigger] s2[i].0 == k1;
        let i1 = choose|i: int| 0 <= i < s1.len() && #[trigger] s1[i].0 == k2;
        assert(k1 <= k2);
        assert(k2 <= k1);
        let t1 = s1.drop_last();
        let t2 = s2.drop_last();
        lemma_entries_map(t1);
        lemma_entries_map(t2);
        assert(!entries_map(t1).contains_key(k1));
        assert(!entries_map(t2).contains_key(k1));
        assert(entries_map(t1) =~= m.remove(k1));
        assert(entries_map(t2) =~= m.remove(k1));
        lemma_sorted_entries_unique(t1, t2);
        assert(entries_map(s1)[s1[s1.len() - 1].0] == s1[s1.len() - 1].1);
        assert(entries_map(s2)[s2[s2.len() - 1].0] == s2[s2.len() - 1].1);
        assert(s1.last() == s2.last());
        assert(s1 =~= t1.push(s1.last()));
        assert(s2 =~= t2.push(s2.last()));
    }
}

/// A sorted sequence of entries is the ordered listing of the map it makes.
pub proof fn lemma_ordered_entries(s: Seq<(usize, int)>)
    requires
        entries_sorted(s),
    ensures
        ordered_entries(entries_map(s)) == s,
{
    let m = entries_map(s);
    assert(entries_sorted(s) && entries_map(s) == m);
    let t = ordered_entries(m);
    lemma_sorted_entries_unique(s, t);
}

/// The entries of a list of terms, each coefficient taken by its value.
pub open spec fn terms_entries(terms: Seq<(usize, Coefficient)>) -> Seq<(usize, int)> {
    terms.map_values(|t: (usize, Coefficient)| (t.0, t.1@))
}

/// A linear combination of signals: a finite map from signal indices to
/// coefficients (index 0 stands for the constant one). Its terms are held
/// in increasing order of signal index, so that every listing of them
/// comes out in that order.
pub struct LinearCombination {
    terms: Vec<(usize, Coefficient)>,
}

impl View for LinearCombination {
    type V = Map<usize, int>;

    open spec fn view(&self) -> Map<usize, int> {
        entries_map(self.entries())
    }
}

impl LinearCombination {
    /// The terms in the order in which they are held.
    pub closed spec fn entries(&self) -> Seq<(usize, int)> {
        terms_entries(self.terms@)
    }

    /// Well-formed: the terms are held in strictly increasing order of index.
    pub open spec fn wf(&self) -> bool {
        entries_sorted(self.entries())
    }

    /// The empty combination.
    pub fn new() -> (res: LinearCombination)
        ensures
            res.wf(),
            res@ == Map::<usize, int>::empty(),
    {
        let res = LinearCombination { terms: Vec::new() };
        assert(res.entries() =~= Seq::<(usize, int)>::empty());
        res
    }

    /// Whether the combination has no term, as `HashMap::is_empty`.
    pub fn is_empty(&self) -> (res: bool)
        requires
            self.wf(),
        ensures
            res == (self@ == Map::<usize, int>::empty()),
    {
        proof {
            lemma_entries_map(self.entries());
            if self.terms.len() > 0 {
                assert(self@.contains_key(self.entries()[0].0));
            } else {
                assert(self@ =~= Map::<usize, int>::empty());
            }
        }
        self.terms.len() == 0
    }

    /// The number of terms.
    pub fn len(&self) -> (res: usize)
        requires
            self.wf(),
        ensures
            res == self@.len(),
    {
        proof {
            lemma_entries_len(self.entries());
        }
        self.terms.len()
    }

    /// The terms in increasing order of signal index.
    pub fn sorted_terms(&self) -> (res: &Vec<(usize, Coefficient)>)
        requires
            self.wf(),
        ensures
            terms_entries(res@) == ordered_entries(self@),
    {
        proof {
            lemma_ordered_entries(self.entries());
        }
        &self.terms
    }

    /// Sets the coefficient of signal `key`, as `HashMap::insert`.
    pub fn insert(&mut self, key: usize, value: Coefficient)
        requires
            old(self).wf(),
        ensures
            final(self).wf(),
            final(self)@ == old(self)@.insert(key, value@),
    {
        let ghost s = self.entries();
        let n = self.terms.len();
        let mut i: usize = 0;
        while i < n && self.terms[i].0 < key
            invariant
                n == self.terms.len(),
                i <= n,
                s == self.entries(),
                forall|j: int| 0 <= j < i ==> #[trigger] s[j].0 < key,
            decreases n - i,
        {
            i = i + 1;
        }
        let ghost entry = (key, value@);
        if i < n && self.terms[i].0 == key {
            self.terms.set(i, (key, value));
            proof {
                lemma_entries_update_at(s, i as int, key, value@);
                assert(self.entries() =~= s.update(i as int, entry));
            }
        } else {
            self.terms.insert(i, (key, value));
            proof {
                lemma_entries_insert_at(s, i as int, key, value@);
                assert(self.entries() =~= s.insert(i as int, entry));
            }
        }
    }
}

/// Replacing the value beside a key of sorted entries keeps them sorted and
/// sets that key in the map they make.
proof fn lemma_entries_update_at(s: Seq<(usize, int)>, i: int, key: usize, v: int)
    requires
        entries_sorted(s),
        0 <= i < s.len(),
        s[i].0 == key,
    ensures
        entries_sorted(s.update(i, (key, v))),
        entries_map(s.update(i, (key, v))) == entries_map(s).insert(key, v),
{
    let t = s.update(i, (key, v));
    lemma_entries_map(s);
    lemma_entries_map(t);
    assert(entries_sorted(t)) by {
        assert forall|a: int, b: int| 0 <= a < b < t.len() implies t[a].0 < t[b].0 by {
            assert(t[a].0 == s[a].0);
            assert(t[b].0 == s[b].0);
        }
    }
    let m = entries_map(s).insert(key, v);
    assert forall|k: usize| #[trigger] entries_map(t).contains_key(k) == m.contains_key(k) by {
        if entries_map(s).contains_key(k) {
            let j = choose|j: int| 0 <= j < s.len() && #[trigger] s[j].0 == k;
            assert(t[j].0 == k);
        }
        if k == key {
            assert(t[i].0 == k);
        }
        if entries_map(t).contains_key(k) {
            let j = choose|j: int| 0 <= j < t.len() && #[trigger] t[j].0 == k;
            assert(s[j].0 == k);
        }
    }
    assert forall|k: usize| #[trigger] entries_map(t).contains_key(k) implies entries_map(t)[k]
        == m[k] by {
        let j = choose|j: int| 0 <= j < t.len() && #[trigger] t[j].0 == k;
        assert(entries_map(t)[t[j].0] == t[j].1);
        if j != i {
            assert(s[j] == t[j]);
            assert(entries_map(s)[s[j].0] == s[j].1);
        }
    }
    assert(entries_map(t) =~= m);
}

/// Putting a new key between the smaller and the larger keys of sorted
/// entries keeps them sorted and adds that key to the map they make.
proof fn lemma_entries_insert_at(s: Seq<(usize, int)>, i: int, key: usize, v: int)
    requires
        entries_sorted(s),
        0 <= i <= s.len(),
        forall|j: int| 0 <= j < i ==> #[trigger] s[j].0 < key,
        i < s.len() ==> s[i].0 > key,
    ensures
        entries_sorted(s.insert(i, (key, v))),
        entries_map(s.insert(i, (key, v))) == entries_map(s).insert(key, v),
{
    let t = s.insert(i, (key, v));
    lemma_entries_map(s);
    assert(entries_sorted(t)) by {
        assert forall|a: int, b: int| 0 <= a < b < t.len() implies t[a].0 < t[b].0 by {
            if b < i {
            } else if b == i {
            } else if a < i {
                assert(t[b] == s[b - 1]);
            } else if a == i {
                assert(t[b] == s[b - 1]);
                assert(s[i].0 > key);
                assert(s[i].0 <= s[b - 1].0);
            } else {
                assert(t[a] == s[a - 1]);
                assert(t[b] == s[b - 1]);
            }
        }
    }
    lemma_entries_map(t);
    let m = entries_map(s).insert(key, v);
    assert forall|k: usize| #[trigger] entries_map(t).contains_key(k) == m.contains_key(k) by {
        if entries_map(s).contains_key(k) {
            let j = choose|j: int| 0 <= j < s.len() && #[trigger] s[j].0 == k;
            if j < i {
                assert(t[j].0 == k);
            } else {
                assert(t[j + 1].0 == k);
            }
        }
        if k == key {
            assert(t[i].0 == k);
        }
        if entries_map(t).contains_key(k) {
            let j = choose|j: int| 0 <= j < t.len() && #[trigger] t[j].0 == k;
            if j < i {
                assert(s[j].0 == k);
            } else if j > i {
                assert(s[j - 1].0 == k);
            }
        }
    }
    assert forall|k: usize| #[trigger] entries_map(t).contains_key(k) implies entries_map(t)[k]
        == m[k] by {
        let j = choose|j: int| 0 <= j < t.len() && #[trigger] t[j].0 == k;
        assert(entries_map(t)[t[j].0] == t[j].1);
        if j < i {
            assert(s[j] == t[j]);
            assert(entries_map(s)[s[j].0] == s[j].1);
        } else if j > i {
            assert(s[j - 1] == t[j]);
            assert(entries_map(s)[s[j - 1].0] == s[j - 1].1);
            assert(s[j - 1].0 != key);
        }
    }
    assert(entries_map(t) =~= m);
}

/// The number of keys of the map that sorted entries make is their number.
pub proof fn lemma_entries_len(s: Seq<(usize, int)>)
    requires
        entries_sorted(s),
    ensures
        entries_map(s).len() == s.len(),
    decreases s.len(),
{
    lemma_entries_map(s);
    if s.len() > 0 {
        let t = s.drop_last();
        lemma_entries_map(t);
        lemma_entries_len(t);
        if entries_map(t).contains_key(s.last().0) {
            let j = choose|j: int| 0 <= j < t.len() && #[trigger] t[j].0 == s.last().0;
            assert(s[j].0 == s[s.len() - 1].0);
        }
    }
}

/// A renaming of signal indices: old index to new index.
pub type SignalMap = HashMap<usize, usize>;

/// The index that `key` takes under `map`: its image where `map` has one,
/// itself otherwise.
pub open spec fn renamed_key(key: usize, map: Map<usize, usize>) -> usize {
    if map.contains_key(key) {
        map[key]
    } else {
        key
    }
}

/// The map that the entries of `s` make once each key is renamed under `map`;
/// where two keys are renamed alike, the later entry takes precedence.
pub open spec fn renamed_entries(s: Seq<(usize, int)>, map: Map<usize, usize>) -> Map<usize, int>
    decreases s.len(),
{
    if s.len() == 0 {
        Map::empty()
    } else {
        renamed_entries(s.drop_last(), map).insert(renamed_key(s.last().0, map), s.last().1)
    }
}

/// A combination with each signal index renamed under `map`, the terms
/// taken in increasing order of their old index.
pub open spec fn renamed_combination(m: Map<usize, int>, map: Map<usize, usize>) -> Map<usize, int> {
    renamed_entries(ordered_entries(m), map)
}

fn apply_raw_correspondence(lc: &LinearCombination, map: &SignalMap) -> (res: LinearCombination)
    requires
        lc.wf(),
    ensures
        res.wf(),
        res@ == renamed_combination(lc@, map@),
{
    let terms = lc.sorted_terms();
    let ghost s = ordered_entries(lc@);
    let mut res = LinearCombination::new();
    let n = terms.len();
    for i in 0..n
        invariant
            n == terms.len(),
            terms_entries(terms@) == s,
            res.wf(),
            res@ == renamed_entries(s.take(i as int), map@),
    {
        let key = terms[i].0;
        let new_key = match map.get(&key) {
            Some(k) => *k,
            None => key,
        };
        let value = terms[i].1.duplicate();
        res.insert(new_key, value);
        proof {
            assert(s.take(i + 1).drop_last() =~= s.take(i as int));
            assert(s[i as int] == (key, terms@[i as int].1@));
        }
    }
    assert(s.take(n as int) =~= s);
    res
}

/// A constraint `A * B + C` over signal indices.
pub struct Constraint {
    pub a: LinearCombination,
    pub b: LinearCombination,
    pub c: LinearCombination,
}

impl Constraint {
    /// Well-formed: its three combinations are.
    pub open spec fn wf(&self) -> bool {
        &&& self.a.wf()
        &&& self.b.wf()
        &&& self.c.wf()
    }

    /// The constraint `a * b + c`.
    pub fn new(a: LinearCombination, b: LinearCombination, c: LinearCombination) -> (res: Constraint)
        ensures
            res.a == a,
            res.b == b,
            res.c == c,
    {
        Constraint { a, b, c }
    }

    /// The constraint with every signal index renamed under `map`.
    pub fn apply_correspondence(constraint: &Constraint, map: &SignalMap) -> (res: Constraint)
        requires
            constraint.wf(),
        ensures
            res.wf(),
            res.a@ == renamed_combination(constraint.a@, map@),
            res.b@ == renamed_combination(constraint.b@, map@),
            res.c@ == renamed_combination(constraint.c@, map@),
    {
        let a = apply_raw_correspondence(&constraint.a, map);
        let b = apply_raw_correspondence(&constraint.b, map);
        let c = apply_raw_correspondence(&constraint.c, map);
        Constraint { a, b, c }
    }
}

/// The text of one term: its coefficient, then `* s_<index>` unless the
/// index is 0, the constant one.
pub open spec fn term_string(key: usize, value: int) -> Seq<char> {
    if key == 0 {
        " "@ + int_decimal(value)
    } else {
        " "@ + int_decimal(value) + " * s_"@ + nat_decimal(key as nat)
    }
}

/// The texts of the terms of `s`, in order, joined by `" + "`.
pub open spec fn terms_string(s: Seq<(usize, int)>) -> Seq<char>
    decreases s.len(),
{
    if s.len() == 0 {
        Seq::empty()
    } else if s.len() == 1 {
        term_string(s[0].0, s[0].1)
    } else {
        terms_string(s.drop_last()) + " + "@ + term_string(s.last().0, s.last().1)
    }
}

/// The text of a linear combination: its terms in increasing order of index.
pub open spec fn combination_string(m: Map<usize, int>) -> Seq<char> {
    terms_string(ordered_entries(m))
}

/// The text of the constraint `a * b + c`: `(A) * (B)`, followed by
/// ` + C` where `c` has terms; only `C` where `a` and `b` have none.
pub open spec fn constraint_string(a: Map<usize, int>, b: Map<usize, int>, c: Map<usize, int>) -> Seq<char> {
    if a != Map::<usize, int>::empty() || b != Map::<usize, int>::empty() {
        let ab = "("@ + combination_string(a) + ") * ("@ + combination_string(b) + ")"@;
        if c != Map::<usize, int>::empty() {
            ab + " + "@ + combination_string(c)
        } else {
            ab
        }
    } else {
        combination_string(c)
    }
}

/// The text of a constraint once its signals are renamed under `map`.
pub open spec fn renamed_constraint_string(c: Constraint, map: Map<usize, usize>) -> Seq<char> {
    constraint_string(
        renamed_combination(c.a@, map),
        renamed_combination(c.b@, map),
        renamed_combination(c.c@, map),
    )
}

/// A combination is written with its terms in increasing order of signal
/// index, whatever the order in which they were set: the text of the map
/// that sorted entries make is the text of those entries in turn.
pub proof fn lemma_text_in_index_order(s: Seq<(usize, int)>)
    requires
        entries_sorted(s),
    ensures
        combination_string(entries_map(s)) == terms_string(s),
{
    lemma_ordered_entries(s);
}

/// Renaming under a map that leaves every index of the terms in place
/// leaves the combination as it was.
pub proof fn lemma_renaming_identity(lc: LinearCombination, map: Map<usize, usize>)
    requires
        lc.wf(),
        forall|k: usize| lc@.contains_key(k) ==> renamed_key(k, map) == k,
    ensures
        renamed_combination(lc@, map) == lc@,
{
    let s = lc.entries();
    lemma_ordered_entries(s);
    lemma_entries_map(s);
    lemma_renamed_entries_fixed(s, map);
}

proof fn lemma_renamed_entries_fixed(s: Seq<(usize, int)>, map: Map<usize, usize>)
    requires
        forall|i: int| 0 <= i < s.len() ==> renamed_key(#[trigger] s[i].0, map) == s[i].0,
    ensures
        renamed_entries(s, map) == entries_map(s),
    decreases s.len(),
{
    if s.len() > 0 {
        let t = s.drop_last();
        assert forall|i: int| 0 <= i < t.len() implies renamed_key(#[trigger] t[i].0, map)
            == t[i].0 by {
            assert(t[i] == s[i]);
        }
        lemma_renamed_entries_fixed(t, map);
        assert(renamed_key(s[s.len() - 1].0, map) == s[s.len() - 1].0);
    }
}

/// Renaming under a map that sends distinct indices of the terms to
/// distinct indices keeps every term: its coefficient stands under its new
/// index, and no other index has a term.
pub proof fn lemma_renaming_keeps_terms(lc: LinearCombination, map: Map<usize, usize>)
    requires
        lc.wf(),
        forall|k1: usize, k2: usize|
            lc@.contains_key(k1) && lc@.contains_key(k2) && k1 != k2 ==> renamed_key(k1, map)
                != renamed_key(k2, map),
    ensures
        forall|k: usize| #[trigger]
            lc@.contains_key(k) ==> renamed_combination(lc@, map).contains_key(
                renamed_key(k, map),
            ) && renamed_combination(lc@, map)[renamed_key(k, map)] == lc@[k],
        forall|j: usize| #[trigger]
            renamed_combination(lc@, map).contains_key(j) ==> exists|k: usize|
                lc@.contains_key(k) && renamed_key(k, map) == j,
        renamed_combination(lc@, map).len() == lc@.len(),
{
    let s = lc.entries();
    lemma_ordered_entries(s);
    lemma_entries_map(s);
    assert forall|a: int, b: int| 0 <= a < s.len() && 0 <= b < s.len() && a != b implies renamed_key(
        #[trigger] s[a].0,
        map,
    ) != renamed_key(#[trigger] s[b].0, map) by {
        assert(lc@.contains_key(s[a].0));
        assert(lc@.contains_key(s[b].0));
    }
    lemma_renamed_entries_injective(s, map);
    let r = renamed_combination(lc@, map);
    assert forall|k: usize| #[trigger] lc@.contains_key(k) implies r.contains_key(
        renamed_key(k, map),
    ) && r[renamed_key(k, map)] == lc@[k] by {
        let i = choose|i: int| 0 <= i < s.len() && #[trigger] s[i].0 == k;
        assert(r.contains_key(renamed_key(s[i].0, map)));
    }
    assert forall|j: usize| #[trigger] r.contains_key(j) implies exists|k: usize|
        lc@.contains_key(k) && renamed_key(k, map) == j by {
        let i = choose|i: int| 0 <= i < s.len() && renamed_key(#[trigger] s[i].0, map) == j;
        assert(lc@.contains_key(s[i].0));
    }
    lemma_entries_len(s);
}

proof fn lemma_renamed_entries_injective(s: Seq<(usize, int)>, map: Map<usize, usize>)
    requires
        forall|a: int, b: int|
            0 <= a < s.len() && 0 <= b < s.len() && a != b ==> renamed_key(#[trigger] s[a].0, map)
                != renamed_key(#[trigger] s[b].0, map),
    ensures
        forall|i: int| #![trigger s[i]]
            0 <= i < s.len() ==> renamed_entries(s, map).contains_key(renamed_key(s[i].0, map))
                && renamed_entries(s, map)[renamed_key(s[i].0, map)] == s[i].1,
        forall|j: usize| #[trigger]
            renamed_entries(s, map).contains_key(j) ==> exists|i: int|
                0 <= i < s.len() && renamed_key(#[trigger] s[i].0, map) == j,
        renamed_entries(s, map).len() == s.len(),
    decreases s.len(),
{
    if s.len() > 0 {
        let t = s.drop_last();
        assert forall|a: int, b: int|
            0 <= a < t.len() && 0 <= b < t.len() && a != b implies renamed_key(
            #[trigger] t[a].0,
            map,
        ) != renamed_key(#[trigger] t[b].0, map) by {
            assert(t[a] == s[a]);
            assert(t[b] == s[b]);
        }
        lemma_renamed_entries_injective(t, map);
        let last = renamed_key(s[s.len() - 1].0, map);
        let m = renamed_entries(t, map);
        assert(!m.contains_key(last)) by {
            if m.contains_key(last) {
                let i = choose|i: int| 0 <= i < t.len() && renamed_key(#[trigger] t[i].0, map) == last;
                assert(t[i] == s[i]);
                assert(renamed_key(s[i].0, map) != renamed_key(s[s.len() - 1].0, map));
            }
        }
        assert forall|i: int| #![trigger s[i]]
            0 <= i < s.len() implies renamed_entries(s, map).contains_key(renamed_key(s[i].0, map))
                && renamed_entries(s, map)[renamed_key(s[i].0, map)] == s[i].1 by {
            if i < s.len() - 1 {
                assert(t[i] == s[i]);
                assert(renamed_key(s[i].0, map) != last);
            }
        }
        assert forall|j: usize| #[trigger]
            renamed_entries(s, map).contains_key(j) implies exists|i: int|
                0 <= i < s.len() && renamed_key(#[trigger] s[i].0, map) == j by {
            if j == last {
                assert(renamed_key(s[s.len() - 1].0, map) == j);
            } else {
                let i = choose|i: int| 0 <= i < t.len() && renamed_key(#[trigger] t[i].0, map) == j;
                assert(t[i] == s[i]);
            }
        }
        lemma_finite_renamed(t, map);
    }
}

proof fn lemma_finite_renamed(s: Seq<(usize, int)>, map: Map<usize, usize>)
    ensures
        renamed_entries(s, map).dom().finite(),
    decreases s.len(),
{
    if s.len() > 0 {
        lemma_finite_renamed(s.drop_last(), map);
    }
}

} // verus!
