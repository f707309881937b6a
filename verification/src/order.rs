//! Total orders on the values the evaluator sorts (characters, strings, table
//! rows, table cells), a verified sort, sorted de-duplication and the multiset
//! difference that scores expected items against extracted ones.
use vstd::prelude::*;
use vstd::multiset::Multiset;

use crate::views::{dview, lemma_dview_push, lemma_vec_dview};

verus! {

broadcast use crate::views::lemma_char_vec_deep_view;

/// Values with an executable comparison that agrees with a total order on
/// their deep views. The order is the one `Ord` gives these types in std.
pub trait Sortable: DeepView + Sized {
    spec fn le_spec(a: Self::V, b: Self::V) -> bool;

    proof fn lemma_le_reflexive(a: Self::V)
        ensures
            Self::le_spec(a, a),
    ;

    proof fn lemma_le_transitive(a: Self::V, b: Self::V, c: Self::V)
        requires
            Self::le_spec(a, b),
            Self::le_spec(b, c),
        ensures
            Self::le_spec(a, c),
    ;

    proof fn lemma_le_antisymmetric(a: Self::V, b: Self::V)
        requires
            Self::le_spec(a, b),
            Self::le_spec(b, a),
        ensures
            a == b,
    ;

    proof fn lemma_le_total(a: Self::V, b: Self::V)
        ensures
            Self::le_spec(a, b) || Self::le_spec(b, a),
    ;

    fn le(&self, other: &Self) -> (r: bool)
        ensures
            r == Self::le_spec(self.deep_view(), other.deep_view()),
    ;

    fn same(&self, other: &Self) -> (r: bool)
        ensures
            r == (self.deep_view() == other.deep_view()),
    ;

    fn duplicate(&self) -> (r: Self)
        ensures
            r.deep_view() == self.deep_view(),
    ;
}

// ---------------------------------------------------------------------------
// Lexicographic order on character sequences (the order of `String`: UTF-8
// byte order coincides with code-point order).
// ---------------------------------------------------------------------------

pub open spec fn chars_le(a: Seq<char>, b: Seq<char>) -> bool
    decreases a.len(),
{
    if a.len() == 0 {
        true
    } else if b.len() == 0 {
        false
    } else if a[0] != b[0] {
        a[0] < b[0]
    } else {
        chars_le(a.drop_first(), b.drop_first())
    }
}

pub proof fn lemma_chars_le_reflexive(a: Seq<char>)
    ensures
        chars_le(a, a),
    decreases a.len(),
{
    if a.len() > 0 {
        lemma_chars_le_reflexive(a.drop_first());
    }
}

pub proof fn lemma_chars_le_transitive(a: Seq<char>, b: Seq<char>, c: Seq<char>)
    requires
        chars_le(a, b),
        chars_le(b, c),
    ensures
        chars_le(a, c),
    decreases a.len(),
{
    if a.len() > 0 && b.len() > 0 && c.len() > 0 {
        if a[0] == b[0] && b[0] == c[0] {
            lemma_chars_le_transitive(a.drop_first(), b.drop_first(), c.drop_first());
        }
    }
}

pub proof fn lemma_chars_le_antisymmetric(a: Seq<char>, b: Seq<char>)
    requires
        chars_le(a, b),
        chars_le(b, a),
    ensures
        a == b,
    decreases a.len(),
{
    if a.len() > 0 && b.len() > 0 {
        lemma_chars_le_antisymmetric(a.drop_first(), b.drop_first());
        assert(a =~= seq![a[0]] + a.drop_first());
        assert(b =~= seq![b[0]] + b.drop_first());
    } else {
        assert(a =~= b);
    }
}

pub proof fn lemma_chars_le_total(a: Seq<char>, b: Seq<char>)
    ensures
        chars_le(a, b) || chars_le(b, a),
    decreases a.len(),
{
    if a.len() > 0 && b.len() > 0 && a[0] == b[0] {
        lemma_chars_le_total(a.drop_first(), b.drop_first());
    }
}

pub fn chars_le_exec(a: &Vec<char>, b: &Vec<char>) -> (r: bool)
    ensures
        r == chars_le(a@, b@),
{
    let mut i: usize = 0;
    assert(a@.skip(0) =~= a@);
    assert(b@.skip(0) =~= b@);
    while i < a.len() && i < b.len() && a[i] == b[i]
        invariant
            i <= a.len(),
            i <= b.len(),
            chars_le(a@, b@) == chars_le(a@.skip(i as int), b@.skip(i as int)),
        decreases a.len() - i,
    {
        proof {
            assert(a@.skip(i as int).drop_first() =~= a@.skip(i + 1));
            assert(b@.skip(i as int).drop_first() =~= b@.skip(i + 1));
        }
        i += 1;
    }
    if i == a.len() {
        true
    } else if i == b.len() {
        false
    } else {
        a[i] < b[i]
    }
}

pub fn strings_le(a: &String, b: &String) -> (r: bool)
    ensures
        r == chars_le(a@, b@),
{
    let av = crate::text::chars_of(a.as_str());
    let bv = crate::text::chars_of(b.as_str());
    chars_le_exec(&av, &bv)
}

impl Sortable for String {
    open spec fn le_spec(a: Seq<char>, b: Seq<char>) -> bool {
        chars_le(a, b)
    }

    proof fn lemma_le_reflexive(a: Seq<char>) {
        lemma_chars_le_reflexive(a);
    }

    proof fn lemma_le_transitive(a: Seq<char>, b: Seq<char>, c: Seq<char>) {
        lemma_chars_le_transitive(a, b, c);
    }

    proof fn lemma_le_antisymmetric(a: Seq<char>, b: Seq<char>) {
        lemma_chars_le_antisymmetric(a, b);
    }

    proof fn lemma_le_total(a: Seq<char>, b: Seq<char>) {
        lemma_chars_le_total(a, b);
    }

    fn le(&self, other: &Self) -> (r: bool) {
        strings_le(self, other)
    }

    fn same(&self, other: &Self) -> (r: bool) {
        crate::text::str_eq(self.as_str(), other.as_str())
    }

    fn duplicate(&self) -> (r: Self) {
        self.clone()
    }
}

impl Sortable for char {
    open spec fn le_spec(a: char, b: char) -> bool {
        a <= b
    }

    proof fn lemma_le_reflexive(a: char) {
    }

    proof fn lemma_le_transitive(a: char, b: char, c: char) {
    }

    proof fn lemma_le_antisymmetric(a: char, b: char) {
    }

    proof fn lemma_le_total(a: char, b: char) {
    }

    fn le(&self, other: &Self) -> (r: bool) {
        *self <= *other
    }

    fn same(&self, other: &Self) -> (r: bool) {
        *self == *other
    }

    fn duplicate(&self) -> (r: Self) {
        *self
    }
}

impl Sortable for u64 {
    open spec fn le_spec(a: u64, b: u64) -> bool {
        a <= b
    }

    proof fn lemma_le_reflexive(a: u64) {
    }

    proof fn lemma_le_transitive(a: u64, b: u64, c: u64) {
    }

    proof fn lemma_le_antisymmetric(a: u64, b: u64) {
    }

    proof fn lemma_le_total(a: u64, b: u64) {
    }

    fn le(&self, other: &Self) -> (r: bool) {
        *self <= *other
    }

    fn same(&self, other: &Self) -> (r: bool) {
        *self == *other
    }

    fn duplicate(&self) -> (r: Self) {
        *self
    }
}

impl Sortable for u32 {
    open spec fn le_spec(a: u32, b: u32) -> bool {
        a <= b
    }

    proof fn lemma_le_reflexive(a: u32) {
    }

    proof fn lemma_le_transitive(a: u32, b: u32, c: u32) {
    }

    proof fn lemma_le_antisymmetric(a: u32, b: u32) {
    }

    proof fn lemma_le_total(a: u32, b: u32) {
    }

    fn le(&self, other: &Self) -> (r: bool) {
        *self <= *other
    }

    fn same(&self, other: &Self) -> (r: bool) {
        *self == *other
    }

    fn duplicate(&self) -> (r: Self) {
        *self
    }
}

// ---------------------------------------------------------------------------
// Lexicographic order on rows of strings (the order of `Vec<String>`).
// ---------------------------------------------------------------------------

pub open spec fn rows_le(a: Seq<Seq<char>>, b: Seq<Seq<char>>) -> bool
    decreases a.len(),
{
    if a.len() == 0 {
        true
    } else if b.len() == 0 {
        false
    } else if a[0] != b[0] {
        chars_le(a[0], b[0])
    } else {
        rows_le(a.drop_first(), b.drop_first())
    }
}

pub proof fn lemma_rows_le_reflexive(a: Seq<Seq<char>>)
    ensures
        rows_le(a, a),
    decreases a.len(),
{
    if a.len() > 0 {
        lemma_rows_le_reflexive(a.drop_first());
    }
}

pub proof fn lemma_rows_le_transitive(a: Seq<Seq<char>>, b: Seq<Seq<char>>, c: Seq<Seq<char>>)
    requires
        rows_le(a, b),
        rows_le(b, c),
    ensures
        rows_le(a, c),
    decreases a.len(),
{
    if a.len() > 0 && b.len() > 0 && c.len() > 0 {
        if a[0] == b[0] && b[0] == c[0] {
            lemma_rows_le_transitive(a.drop_first(), b.drop_first(), c.drop_first());
        } else if a[0] == b[0] {
        } else if b[0] == c[0] {
        } else {
            lemma_chars_le_transitive(a[0], b[0], c[0]);
            if a[0] == c[0] {
                lemma_chars_le_antisymmetric(a[0], b[0]);
            }
        }
    }
}

pub proof fn lemma_rows_le_antisymmetric(a: Seq<Seq<char>>, b: Seq<Seq<char>>)
    requires
        rows_le(a, b),
        rows_le(b, a),
    ensures
        a == b,
    decreases a.len(),
{
    if a.len() > 0 && b.len() > 0 {
        if a[0] != b[0] {
            lemma_chars_le_antisymmetric(a[0], b[0]);
        }
        lemma_rows_le_antisymmetric(a.drop_first(), b.drop_first());
        assert(a =~= seq![a[0]] + a.drop_first());
        assert(b =~= seq![b[0]] + b.drop_first());
    } else {
        assert(a =~= b);
    }
}

pub proof fn lemma_rows_le_total(a: Seq<Seq<char>>, b: Seq<Seq<char>>)
    ensures
        rows_le(a, b) || rows_le(b, a),
    decreases a.len(),
{
    if a.len() > 0 && b.len() > 0 {
        if a[0] == b[0] {
            lemma_rows_le_total(a.drop_first(), b.drop_first());
        } else {
            lemma_chars_le_total(a[0], b[0]);
        }
    }
}

impl Sortable for Vec<String> {
    open spec fn le_spec(a: Seq<Seq<char>>, b: Seq<Seq<char>>) -> bool {
        rows_le(a, b)
    }

    proof fn lemma_le_reflexive(a: Seq<Seq<char>>) {
        lemma_rows_le_reflexive(a);
    }

    proof fn lemma_le_transitive(a: Seq<Seq<char>>, b: Seq<Seq<char>>, c: Seq<Seq<char>>) {
        lemma_rows_le_transitive(a, b, c);
    }

    proof fn lemma_le_antisymmetric(a: Seq<Seq<char>>, b: Seq<Seq<char>>) {
        lemma_rows_le_antisymmetric(a, b);
    }

    proof fn lemma_le_total(a: Seq<Seq<char>>, b: Seq<Seq<char>>) {
        lemma_rows_le_total(a, b);
    }

    fn le(&self, other: &Self) -> (r: bool) {
        let ghost a = self.deep_view();
        let ghost b = other.deep_view();
        let mut i: usize = 0;
        assert(a.skip(0) =~= a);
        assert(b.skip(0) =~= b);
        while i < self.len() && i < other.len() && crate::text::str_eq(
            self[i].as_str(),
            other[i].as_str(),
        )
            invariant
                i <= self.len(),
                i <= other.len(),
                a == self.deep_view(),
                b == other.deep_view(),
                rows_le(a, b) == rows_le(a.skip(i as int), b.skip(i as int)),
            decreases self.len() - i,
        {
            proof {
                assert(a.skip(i as int)[0] == a[i as int]);
                assert(b.skip(i as int)[0] == b[i as int]);
                assert(a.skip(i as int).drop_first() =~= a.skip(i + 1));
                assert(b.skip(i as int).drop_first() =~= b.skip(i + 1));
            }
            i += 1;
        }
        if i == self.len() {
            true
        } else if i == other.len() {
            false
        } else {
            proof {
                assert(a.skip(i as int)[0] == a[i as int]);
                assert(b.skip(i as int)[0] == b[i as int]);
            }
            strings_le(&self[i], &other[i])
        }
    }

    fn same(&self, other: &Self) -> (r: bool) {
        if self.len() != other.len() {
            assert(self.deep_view().len() != other.deep_view().len());
            return false;
        }
        let mut i: usize = 0;
        while i < self.len()
            invariant
                i <= self.len(),
                self.len() == other.len(),
                forall|j: int| 0 <= j < i ==> self@[j]@ == other@[j]@,
            decreases self.len() - i,
        {
            if !crate::text::str_eq(self[i].as_str(), other[i].as_str()) {
                assert(self.deep_view()[i as int] != other.deep_view()[i as int]);
                return false;
            }
            i += 1;
        }
        assert(self.deep_view() =~= other.deep_view());
        true
    }

    fn duplicate(&self) -> (r: Self) {
        let mut out: Vec<String> = Vec::new();
        let mut i: usize = 0;
        while i < self.len()
            invariant
                i <= self.len(),
                out.deep_view() == self.deep_view().take(i as int),
            decreases self.len() - i,
        {
            let s = self[i].clone();
            let ghost before = out@;
            out.push(s);
            proof {
                lemma_vec_dview(out);
                lemma_dview_push(before, s);
            }
            i += 1;
            assert(out.deep_view() =~= self.deep_view().take(i as int));
        }
        assert(self.deep_view().take(self.len() as int) =~= self.deep_view());
        out
    }
}

// ---------------------------------------------------------------------------
// Sorting
// ---------------------------------------------------------------------------

/// `s` is in non-decreasing order.
pub open spec fn is_sorted<T: Sortable>(s: Seq<T::V>) -> bool {
    forall|i: int, j: int| 0 <= i < j < s.len() ==> T::le_spec(s[i], s[j])
}

/// Sorts a vector (`slice::sort`): the result is ordered and holds exactly
/// the same values.
pub fn sort_items<T: Sortable>(v: Vec<T>) -> (out: Vec<T>)
    ensures
        is_sorted::<T>(out.deep_view()),
        out.deep_view().to_multiset() == v.deep_view().to_multiset(),
        out.len() == v.len(),
{
    broadcast use vstd::seq_lib::group_to_multiset_ensures;

    let ghost all = v.deep_view();
    let mut out: Vec<T> = Vec::new();
    let mut i: usize = 0;
    while i < v.len()
        invariant
            i <= v.len(),
            all == v.deep_view(),
            is_sorted::<T>(out.deep_view()),
            out.deep_view().to_multiset() == all.take(i as int).to_multiset(),
            out.len() == i,
        decreases v.len() - i,
    {
        let x = v[i].duplicate();
        // Find the first position whose element is greater than `x`.
        let mut k: usize = 0;
        while k < out.len() && out[k].le(&x)
            invariant
                k <= out.len(),
                forall|j: int| 0 <= j < k ==> T::le_spec(#[trigger] out.deep_view()[j], x.deep_view()),
            decreases out.len() - k,
        {
            k += 1;
        }
        let ghost before = out.deep_view();
        proof {
            lemma_vec_dview(out);
        }
        out.insert(k, x);
        proof {
            lemma_vec_dview(out);
            assert(out.deep_view() =~= before.insert(k as int, x.deep_view()));
            assert forall|a: int, b: int| 0 <= a < b < out.deep_view().len() implies T::le_spec(
                out.deep_view()[a],
                out.deep_view()[b],
            ) by {
                let s = out.deep_view();
                if a < k && b == k {
                } else if a == k && b > k {
                    if b - 1 < before.len() && k < before.len() {
                        if !T::le_spec(before[k as int], x.deep_view()) {
                            T::lemma_le_total(before[k as int], x.deep_view());
                        }
                        if b - 1 > k {
                            T::lemma_le_transitive(x.deep_view(), before[k as int], before[b - 1]);
                        }
                    }
                } else if a < k && b > k {
                } else {
                }
            }
            vstd::seq_lib::to_multiset_insert(before, k as int, x.deep_view());
            assert(all.take(i + 1) =~= all.take(i as int).push(all[i as int]));
            vstd::seq_lib::to_multiset_build(all.take(i as int), all[i as int]);
            assert(all[i as int] == x.deep_view());
        }
        i += 1;
    }
    assert(all.take(v.len() as int) =~= all);
    out
}

/// `s` is in strictly increasing order: ordered and free of repeats.
pub open spec fn is_strictly_sorted<T: Sortable>(s: Seq<T::V>) -> bool {
    forall|i: int, j: int| 0 <= i < j < s.len() ==> T::le_spec(s[i], s[j]) && s[i] != s[j]
}

/// Two strictly ascending sequences with the same elements are the same
/// sequence.
pub proof fn lemma_strictly_sorted_unique<T: Sortable>(a: Seq<T::V>, b: Seq<T::V>)
    requires
        is_strictly_sorted::<T>(a),
        is_strictly_sorted::<T>(b),
        forall|x: T::V| #![trigger a.contains(x)] #![trigger b.contains(x)] a.contains(x) <==> b.contains(x),
    ensures
        a == b,
    decreases a.len(),
{
    if a.len() == 0 {
        if b.len() > 0 {
            assert(b.contains(b[0]));
        }
        assert(a =~= b);
    } else {
        assert(a.contains(a[0]));
        assert(b.len() > 0);
        assert(b.contains(b[0]));
        let i = choose|i: int| 0 <= i < a.len() && a[i] == b[0];
        let j = choose|j: int| 0 <= j < b.len() && b[j] == a[0];
        if i > 0 {
            assert(T::le_spec(a[0], a[i]));
        } else {
            T::lemma_le_reflexive(a[0]);
        }
        if j > 0 {
            assert(T::le_spec(b[0], b[j]));
        } else {
            T::lemma_le_reflexive(b[0]);
        }
        T::lemma_le_antisymmetric(a[0], b[0]);
        let at = a.drop_first();
        let bt = b.drop_first();
        assert forall|x: T::V| #![trigger at.contains(x)] #![trigger bt.contains(x)] at.contains(x) <==> bt.contains(x) by {
            if at.contains(x) {
                let k = choose|k: int| 0 <= k < at.len() && at[k] == x;
                assert(a[k + 1] == x);
                assert(a.contains(x));
                assert(x != a[0]);
                let m = choose|m: int| 0 <= m < b.len() && b[m] == x;
                assert(m != 0);
                assert(bt[m - 1] == x);
            }
            if bt.contains(x) {
                let k = choose|k: int| 0 <= k < bt.len() && bt[k] == x;
                assert(b[k + 1] == x);
                assert(b.contains(x));
                assert(x != b[0]);
                let m = choose|m: int| 0 <= m < a.len() && a[m] == x;
                assert(m != 0);
                assert(at[m - 1] == x);
            }
        }
        assert(is_strictly_sorted::<T>(at)) by {
            assert forall|p: int, q: int| 0 <= p < q < at.len() implies T::le_spec(at[p], at[q])
                && at[p] != at[q] by {
                assert(at[p] == a[p + 1] && at[q] == a[q + 1]);
            }
        }
        assert(is_strictly_sorted::<T>(bt)) by {
            assert forall|p: int, q: int| 0 <= p < q < bt.len() implies T::le_spec(bt[p], bt[q])
                && bt[p] != bt[q] by {
                assert(bt[p] == b[p + 1] && bt[q] == b[q + 1]);
            }
        }
        lemma_strictly_sorted_unique::<T>(at, bt);
        assert(a =~= seq![a[0]] + at);
        assert(b =~= seq![b[0]] + bt);
    }
}

/// Sorts and removes repeated values (`sort` followed by `dedup`, or the
/// ordered iteration of a `BTreeSet`).
pub fn sorted_unique<T: Sortable>(v: Vec<T>) -> (out: Vec<T>)
    ensures
        is_strictly_sorted::<T>(out.deep_view()),
        forall|x: T::V| out.deep_view().contains(x) <==> v.deep_view().contains(x),
{
    broadcast use vstd::seq_lib::group_to_multiset_ensures;

    let ghost all = v.deep_view();
    let sorted = sort_items(v);
    let ghost sv = sorted.deep_view();
    proof {
        assert forall|x: T::V| sv.contains(x) <==> all.contains(x) by {
            assert(sv.to_multiset().count(x) == all.to_multiset().count(x));
        }
    }
    let mut out: Vec<T> = Vec::new();
    let mut i: usize = 0;
    while i < sorted.len()
        invariant
            i <= sorted.len(),
            sv == sorted.deep_view(),
            is_sorted::<T>(sv),
            is_strictly_sorted::<T>(out.deep_view()),
            forall|x: T::V| out.deep_view().contains(x) <==> sv.take(i as int).contains(x),
            forall|k: int, j: int|
                0 <= k < out.len() && i <= j < sv.len() ==> T::le_spec(
                    #[trigger] out.deep_view()[k],
                    #[trigger] sv[j],
                ),
        decreases sorted.len() - i,
    {
        let ghost before = out.deep_view();
        proof {
            lemma_vec_dview(out);
            assert(sv.take(i + 1) =~= sv.take(i as int).push(sv[i as int]));
        }
        if out.len() > 0 && out[out.len() - 1].same(&sorted[i]) {
            proof {
                assert forall|x: T::V| out.deep_view().contains(x) <==> sv.take(i + 1).contains(
                    x,
                ) by {
                    if x == sv[i as int] {
                        assert(out.deep_view()[out.len() - 1] == x);
                    }
                    let t0 = sv.take(i as int);
                    let t1 = sv.take(i + 1);
                    if t0.contains(x) {
                        let w = choose|w: int| 0 <= w < t0.len() && t0[w] == x;
                        assert(t1[w] == x);
                    }
                    if t1.contains(x) {
                        let w = choose|w: int| 0 <= w < t1.len() && t1[w] == x;
                        if w < i {
                            assert(t0[w] == x);
                        }
                    }
                }
            }
        } else {
            let item = sorted[i].duplicate();
            let ghost prev = out@;
            out.push(item);
            proof {
                lemma_vec_dview(out);
                lemma_dview_push(prev, item);
                let ov = out.deep_view();
                assert(ov =~= before.push(sv[i as int]));
                assert forall|a: int, b: int| 0 <= a < b < ov.len() implies T::le_spec(ov[a], ov[b])
                    && ov[a] != ov[b] by {
                    if b < ov.len() - 1 {
                        assert(ov[a] == before[a] && ov[b] == before[b]);
                    } else {
                        assert(ov[a] == before[a] && ov[b] == sv[i as int]);
                        assert(T::le_spec(before[a], sv[i as int]));
                        if ov[a] == ov[b] {
                            let last = before.len() - 1;
                            assert(T::le_spec(before[last], sv[i as int]));
                            if a < last {
                                assert(T::le_spec(before[a], before[last]));
                                T::lemma_le_antisymmetric(before[a], before[last]);
                            }
                            assert(before[last] != sv[i as int]);
                        }
                    }
                }
                let t0 = sv.take(i as int);
                let t1 = sv.take(i + 1);
                assert forall|x: T::V| ov.contains(x) <==> t1.contains(x) by {
                    if ov.contains(x) {
                        let w = choose|w: int| 0 <= w < ov.len() && ov[w] == x;
                        if w < before.len() {
                            assert(before.contains(x));
                            let u = choose|u: int| 0 <= u < t0.len() && t0[u] == x;
                            assert(t1[u] == x);
                        } else {
                            assert(t1[i as int] == x);
                        }
                    }
                    if t1.contains(x) {
                        let w = choose|w: int| 0 <= w < t1.len() && t1[w] == x;
                        if w < i {
                            assert(t0[w] == x);
                            assert(before.contains(x));
                            let u = choose|u: int| 0 <= u < before.len() && before[u] == x;
                            assert(ov[u] == x);
                        } else {
                            assert(ov[ov.len() - 1] == x);
                        }
                    }
                }
                assert forall|k: int, j: int|
                    0 <= k < out.len() && i + 1 <= j < sv.len() implies T::le_spec(
                    #[trigger] ov[k],
                    #[trigger] sv[j],
                ) by {
                    if k == out.len() - 1 {
                    } else {
                        assert(T::le_spec(before[k], sv[j]));
                    }
                }
            }
        }
        i += 1;
    }
    proof {
        assert(sv.take(sorted.len() as int) =~= sv);
    }
    out
}

proof fn lemma_found_step<V>(m: Multiset<V>, r: Multiset<V>, e: Multiset<V>, a: Multiset<V>, x: V)
    requires
        m == e.sub(a),
        r == a.sub(e),
        r.count(x) > 0,
    ensures
        m == e.insert(x).sub(a),
        r.remove(x) == a.sub(e.insert(x)),
{
    broadcast use vstd::multiset::group_multiset_axioms;

    assert(m =~= e.insert(x).sub(a));
    assert(r.remove(x) =~= a.sub(e.insert(x)));
}

proof fn lemma_missing_step<V>(
    m: Multiset<V>,
    r: Multiset<V>,
    e: Multiset<V>,
    a: Multiset<V>,
    x: V,
)
    requires
        m == e.sub(a),
        r == a.sub(e),
        r.count(x) == 0,
    ensures
        m.insert(x) == e.insert(x).sub(a),
        r == a.sub(e.insert(x)),
{
    broadcast use vstd::multiset::group_multiset_axioms;

    assert(m.insert(x) =~= e.insert(x).sub(a));
    assert(r =~= a.sub(e.insert(x)));
}

/// The expected values that the actual values do not account for, counted
/// with multiplicity and returned in order: the multiset difference
/// `expected - actual`.
pub fn missing_multiset_items<T: Sortable>(expected: Vec<T>, actual: Vec<T>) -> (missing: Vec<T>)
    ensures
        is_sorted::<T>(missing.deep_view()),
        missing.deep_view().to_multiset() == expected.deep_view().to_multiset().sub(
            actual.deep_view().to_multiset(),
        ),
{
    broadcast use vstd::seq_lib::group_to_multiset_ensures;
    broadcast use vstd::multiset::group_multiset_axioms;

    let ghost a = actual.deep_view();
    let expected = sort_items(expected);
    let ghost ev = expected.deep_view();
    let mut remaining = actual;
    let mut missing: Vec<T> = Vec::new();
    let mut i: usize = 0;
    proof {
        assert(ev.take(0) =~= Seq::<T::V>::empty());
        assert(missing.deep_view().to_multiset() =~= ev.take(0).to_multiset().sub(a.to_multiset()));
        assert(remaining.deep_view().to_multiset() =~= a.to_multiset().sub(ev.take(0).to_multiset()));
    }
    while i < expected.len()
        invariant
            i <= expected.len(),
            ev == expected.deep_view(),
            is_sorted::<T>(ev),
            is_sorted::<T>(missing.deep_view()),
            forall|k: int, j: int|
                0 <= k < missing.len() && i <= j < ev.len() ==> T::le_spec(
                    #[trigger] missing.deep_view()[k],
                    #[trigger] ev[j],
                ),
            missing.deep_view().to_multiset() == ev.take(i as int).to_multiset().sub(a.to_multiset()),
            remaining.deep_view().to_multiset() == a.to_multiset().sub(ev.take(i as int).to_multiset()),
        decreases expected.len() - i,
    {
        let ghost rv = remaining.deep_view();
        let ghost mv = missing.deep_view();
        let x = &expected[i];
        proof {
            assert(ev.take(i + 1) =~= ev.take(i as int).push(ev[i as int]));
            vstd::seq_lib::to_multiset_build(ev.take(i as int), ev[i as int]);
            assert(x.deep_view() == ev[i as int]);
        }
        let mut j: usize = 0;
        while j < remaining.len() && !remaining[j].same(x)
            invariant
                j <= remaining.len(),
                rv == remaining.deep_view(),
                forall|k: int| 0 <= k < j ==> rv[k] != x.deep_view(),
            decreases remaining.len() - j,
        {
            j += 1;
        }
        if j < remaining.len() {
            proof {
                lemma_vec_dview(remaining);
                assert(rv[j as int] == ev[i as int]);
                assert(rv.contains(ev[i as int]));
                vstd::seq_lib::to_multiset_contains(rv, ev[i as int]);
                lemma_found_step(
                    mv.to_multiset(),
                    rv.to_multiset(),
                    ev.take(i as int).to_multiset(),
                    a.to_multiset(),
                    ev[i as int],
                );
            }
            remaining.remove(j);
            proof {
                lemma_vec_dview(remaining);
                assert(remaining.deep_view() =~= rv.remove(j as int));
                vstd::seq_lib::to_multiset_remove(rv, j as int);
            }
        } else {
            proof {
                assert(!rv.contains(ev[i as int]));
                vstd::seq_lib::to_multiset_contains(rv, ev[i as int]);
                lemma_missing_step(
                    mv.to_multiset(),
                    rv.to_multiset(),
                    ev.take(i as int).to_multiset(),
                    a.to_multiset(),
                    ev[i as int],
                );
            }
            let item = x.duplicate();
            let ghost prev = missing@;
            missing.push(item);
            proof {
                lemma_vec_dview(missing);
                lemma_dview_push(prev, item);
                assert(missing.deep_view() =~= mv.push(ev[i as int]));
                vstd::seq_lib::to_multiset_build(mv, ev[i as int]);
                assert forall|p: int, q: int|
                    0 <= p < q < missing.deep_view().len() implies T::le_spec(
                    missing.deep_view()[p],
                    missing.deep_view()[q],
                ) by {
                    if q == missing.deep_view().len() - 1 {
                        assert(T::le_spec(mv[p], ev[i as int]));
                    }
                }
                assert forall|k: int, jj: int|
                    0 <= k < missing.len() && i + 1 <= jj < ev.len() implies T::le_spec(
                    #[trigger] missing.deep_view()[k],
                    #[trigger] ev[jj],
                ) by {
                    if k == missing.len() - 1 {
                    } else {
                        assert(T::le_spec(mv[k], ev[jj]));
                    }
                }
            }
        }
        i += 1;
    }
    proof {
        assert(ev.take(expected.len() as int) =~= ev);
    }
    missing
}

} // verus!
