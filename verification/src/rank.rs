//! The order in which records are reported: most swap first, then most
//! physical memory, then a key that tells any two records apart.

use vstd::prelude::*;
use vstd::multiset::Multiset;
use crate::model::{PaneRecord, ProcRecord};
use crate::text::to_chars;

verus! {

/// Whether `a` comes before `b` when texts are ordered character by
/// character, a proper prefix coming before the longer text.
pub open spec fn text_precedes(a: Seq<char>, b: Seq<char>) -> bool
    decreases a.len(),
{
    if b.len() == 0 {
        false
    } else if a.len() == 0 {
        true
    } else if a[0] != b[0] {
        a[0] < b[0]
    } else {
        text_precedes(a.drop_first(), b.drop_first())
    }
}

/// No text comes before itself.
pub proof fn lemma_text_irreflexive(a: Seq<char>)
    ensures
        !text_precedes(a, a),
    decreases a.len(),
{
    if a.len() > 0 {
        lemma_text_irreflexive(a.drop_first());
    }
}

/// Of two different texts, one comes before the other.
pub proof fn lemma_text_total(a: Seq<char>, b: Seq<char>)
    ensures
        a == b || text_precedes(a, b) || text_precedes(b, a),
    decreases a.len(),
{
    if a.len() == 0 || b.len() == 0 {
        if a.len() == 0 && b.len() == 0 {
            assert(a =~= b);
        }
    } else if a[0] == b[0] {
        lemma_text_total(a.drop_first(), b.drop_first());
        if a.drop_first() == b.drop_first() {
            assert forall|i: int| 0 <= i < a.len() implies a[i] == b[i] by {
                if i > 0 {
                    assert(a[i] == a.drop_first()[i - 1]);
                    assert(b[i] == b.drop_first()[i - 1]);
                }
            }
            assert(a.len() == a.drop_first().len() + 1);
            assert(b.len() == b.drop_first().len() + 1);
            assert(a =~= b);
        }
    }
}

/// The order of texts is transitive.
pub proof fn lemma_text_transitive(a: Seq<char>, b: Seq<char>, c: Seq<char>)
    requires
        text_precedes(a, b),
        text_precedes(b, c),
    ensures
        text_precedes(a, c),
    decreases a.len(),
{
    if a.len() > 0 && a[0] == b[0] && b[0] == c[0] {
        lemma_text_transitive(a.drop_first(), b.drop_first(), c.drop_first());
    }
}

/// Whether the text `a` comes before the text `b`.
pub fn precedes(a: &str, b: &str) -> (r: bool)
    ensures
        r == text_precedes(a@, b@),
{
    let x = to_chars(a);
    let y = to_chars(b);
    let mut i: usize = 0;
    assert(x@.skip(0) == x@ && y@.skip(0) == y@);
    while i < x.len() && i < y.len() && x[i] == y[i]
        invariant
            i <= x.len(),
            i <= y.len(),
            text_precedes(x@, y@) == text_precedes(x@.skip(i as int), y@.skip(i as int)),
        decreases x.len() - i,
    {
        proof {
            assert(x@.skip(i as int).drop_first() == x@.skip(i + 1));
            assert(y@.skip(i as int).drop_first() == y@.skip(i + 1));
        }
        i += 1;
    }
    if i >= y.len() {
        false
    } else if i >= x.len() {
        true
    } else {
        x[i] < y[i]
    }
}

/// Records that have a place in a report.
pub trait Ranked: Sized {
    /// Whether `self` is reported strictly before `other`.
    spec fn outranks(&self, other: &Self) -> bool;

    /// Whether `self` is reported strictly before `other`.
    fn comes_before(&self, other: &Self) -> (b: bool)
        ensures
            b == self.outranks(other),
    ;

    /// The order is strict, and records that do not come after one another
    /// chain: if `b` is not before `a` and `c` is not before `b`, then `c`
    /// is not before `a`.
    proof fn lemma_order(a: &Self, b: &Self, c: &Self)
        ensures
            !a.outranks(a),
            a.outranks(b) && b.outranks(c) ==> a.outranks(c),
            !b.outranks(a) && !c.outranks(b) ==> !c.outranks(a),
    ;
}

impl Ranked for ProcRecord {
    /// More swap first; with equal swap, more physical memory first; with
    /// both equal, the smaller pid first.
    open spec fn outranks(&self, other: &Self) -> bool {
        ||| self.swap_bytes > other.swap_bytes
        ||| self.swap_bytes == other.swap_bytes && self.physical_bytes > other.physical_bytes
        ||| self.swap_bytes == other.swap_bytes && self.physical_bytes == other.physical_bytes
            && self.pid < other.pid
    }

    fn comes_before(&self, other: &Self) -> (b: bool) {
        if self.swap_bytes != other.swap_bytes {
            self.swap_bytes > other.swap_bytes
        } else if self.physical_bytes != other.physical_bytes {
            self.physical_bytes > other.physical_bytes
        } else {
            self.pid < other.pid
        }
    }

    proof fn lemma_order(a: &Self, b: &Self, c: &Self) {
    }
}

impl Ranked for PaneRecord {
    /// More swap first; with equal swap, more physical memory first; with
    /// both equal, the target that comes first as text.
    open spec fn outranks(&self, other: &Self) -> bool {
        ||| self.swap_bytes > other.swap_bytes
        ||| self.swap_bytes == other.swap_bytes && self.physical_bytes > other.physical_bytes
        ||| self.swap_bytes == other.swap_bytes && self.physical_bytes == other.physical_bytes
            && text_precedes(self.tmux_target@, other.tmux_target@)
    }

    fn comes_before(&self, other: &Self) -> (b: bool) {
        if self.swap_bytes != other.swap_bytes {
            self.swap_bytes > other.swap_bytes
        } else if self.physical_bytes != other.physical_bytes {
            self.physical_bytes > other.physical_bytes
        } else {
            precedes(self.tmux_target.as_str(), other.tmux_target.as_str())
        }
    }

    proof fn lemma_order(a: &Self, b: &Self, c: &Self) {
        let (x, y, z) = (a.tmux_target@, b.tmux_target@, c.tmux_target@);
        lemma_text_irreflexive(x);
        if text_precedes(x, y) && text_precedes(y, z) {
            lemma_text_transitive(x, y, z);
        }
        if text_precedes(z, x) {
            lemma_text_total(x, y);
            lemma_text_total(y, z);
            if text_precedes(x, y) {
                lemma_text_transitive(z, x, y);
            }
            if text_precedes(y, z) {
                lemma_text_transitive(y, z, x);
            }
        }
    }
}

/// Whether no record of `s` stands after one that it should come before.
pub open spec fn ordered<T: Ranked>(s: Seq<T>) -> bool {
    forall|i: int, j: int| 0 <= i < j < s.len() ==> !(#[trigger] s[j].outranks(&s[i]))
}

/// Whether `s` holds the records of `items`, each as often as `items` does,
/// in report order.
pub open spec fn is_ranking_of<T: Ranked>(s: Seq<T>, items: Seq<T>) -> bool {
    ordered(s) && s.to_multiset() == items.to_multiset()
}

/// Whether a collection holds no record twice and no two records that the
/// order cannot tell apart.
pub open spec fn tie_free<T: Ranked>(m: Multiset<T>) -> bool {
    &&& forall|a: T| m.count(a) <= 1
    &&& forall|a: T, b: T|
        m.count(a) > 0 && m.count(b) > 0 && a != b ==> #[trigger] a.outranks(&b) || b.outranks(&a)
}

/// How many records at the front of `sorted` come strictly before `x`: the
/// place where `x` goes in, before every record that it ties with.
pub open spec fn place_of<T: Ranked>(sorted: Seq<T>, x: T) -> int
    decreases sorted.len(),
{
    if sorted.len() > 0 && sorted[0].outranks(&x) {
        1 + place_of(sorted.drop_first(), x)
    } else {
        0
    }
}

/// The records of `items` in report order, records that tie in the order
/// in which `items` has them.
pub open spec fn ranked<T: Ranked>(items: Seq<T>) -> Seq<T>
    decreases items.len(),
{
    if items.len() == 0 {
        Seq::empty()
    } else {
        let rest = ranked(items.drop_first());
        rest.insert(place_of(rest, items[0]), items[0])
    }
}

/// `place_of` is the one place with only earlier records before it and no
/// earlier record at it.
pub proof fn lemma_place_of<T: Ranked>(sorted: Seq<T>, x: T, p: int)
    requires
        0 <= p <= sorted.len(),
        forall|k: int| 0 <= k < p ==> (#[trigger] sorted[k]).outranks(&x),
        p < sorted.len() ==> !sorted[p].outranks(&x),
    ensures
        place_of(sorted, x) == p,
    decreases p,
{
    if p > 0 {
        assert(sorted[0].outranks(&x));
        let rest = sorted.drop_first();
        assert forall|k: int| 0 <= k < p - 1 implies (#[trigger] rest[k]).outranks(&x) by {
            assert(sorted[k + 1].outranks(&x));
        }
        lemma_place_of(rest, x, p - 1);
    }
}

/// What `place_of` says of the records around the place.
pub proof fn lemma_place_of_bounds<T: Ranked>(sorted: Seq<T>, x: T)
    ensures
        0 <= place_of(sorted, x) <= sorted.len(),
        forall|k: int| 0 <= k < place_of(sorted, x) ==> (#[trigger] sorted[k]).outranks(&x),
        place_of(sorted, x) < sorted.len() ==> !sorted[place_of(sorted, x)].outranks(&x),
    decreases sorted.len(),
{
    if sorted.len() > 0 && sorted[0].outranks(&x) {
        let rest = sorted.drop_first();
        lemma_place_of_bounds(rest, x);
        assert forall|k: int| 0 <= k < place_of(sorted, x) implies (#[trigger] sorted[k]).outranks(
            &x,
        ) by {
            if k > 0 {
                assert(rest[k - 1].outranks(&x));
            }
        }
    }
}

/// A record put in at its place leaves the order intact and adds just
/// itself.
pub proof fn lemma_put_in_place<T: Ranked>(sorted: Seq<T>, x: T)
    requires
        ordered(sorted),
    ensures
        ordered(sorted.insert(place_of(sorted, x), x)),
        sorted.insert(place_of(sorted, x), x).to_multiset() == sorted.to_multiset().insert(x),
{
    let p = place_of(sorted, x);
    let out = sorted.insert(p, x);
    lemma_place_of_bounds(sorted, x);
    vstd::seq_lib::to_multiset_insert(sorted, p, x);
    assert forall|i: int, j: int| 0 <= i < j < out.len() implies !(#[trigger] out[j].outranks(
        &out[i],
    )) by {
        if j == p {
            T::lemma_order(&x, &sorted[i], &x);
            T::lemma_order(&sorted[i], &x, &sorted[i]);
        } else if i == p {
            T::lemma_order(&x, &sorted[p], &sorted[j - 1]);
        } else {
            let oi = if i < p { i } else { i - 1 };
            let oj = if j < p { j } else { j - 1 };
            assert(!sorted[oj].outranks(&sorted[oi]));
        }
    }
}

/// `ranked` puts the records in order and neither drops nor adds one.
pub proof fn lemma_ranked_is_ranking<T: Ranked>(items: Seq<T>)
    ensures
        is_ranking_of(ranked(items), items),
    decreases items.len(),
{
    broadcast use vstd::multiset::group_multiset_axioms;

    if items.len() == 0 {
        assert(items =~= Seq::<T>::empty());
        assert(ranked(items) =~= items);
    } else {
        let rest = items.drop_first();
        lemma_ranked_is_ranking(rest);
        lemma_put_in_place(ranked(rest), items[0]);
        vstd::seq_lib::to_multiset_remove(items, 0);
        assert(items.remove(0) =~= rest);
        assert(items.contains(items[0]));
        vstd::seq_lib::to_multiset_contains(items, items[0]);
        assert(rest.to_multiset().insert(items[0]) =~= items.to_multiset());
        assert(ranked(items).to_multiset() == ranked(rest).to_multiset().insert(items[0]));
        assert(ranked(items).to_multiset() =~= items.to_multiset());
    }
}

/// Puts records into report order. Records that the order cannot tell apart
/// keep the order they came in.
pub fn sort_ranked<T: Ranked>(items: Vec<T>) -> (out: Vec<T>)
    ensures
        out@ == ranked(items@),
        is_ranking_of(out@, items@),
{
    let mut rest = items;
    let mut out: Vec<T> = Vec::new();
    assert(items@.skip(items@.len() as int) == Seq::<T>::empty());
    while rest.len() > 0
        invariant
            rest@.len() <= items@.len(),
            rest@ == items@.take(rest@.len() as int),
            out@ == ranked(items@.skip(rest@.len() as int)),
        decreases rest.len(),
    {
        let ghost sorted = out@;
        let ghost k = rest@.len() as int;
        let x = rest.pop().unwrap();
        let mut p: usize = 0;
        while p < out.len() && out[p].comes_before(&x)
            invariant
                p <= out.len(),
                out@ == sorted,
                forall|i: int| 0 <= i < p ==> (#[trigger] sorted[i]).outranks(&x),
            decreases out.len() - p,
        {
            p += 1;
        }
        out.insert(p, x);
        proof {
            lemma_place_of(sorted, x, p as int);
            assert(x == items@[k - 1]);
            assert(items@.skip(k - 1).drop_first() == items@.skip(k));
            assert(items@.skip(k - 1)[0] == x);
            assert(rest@ == items@.take(k - 1));
        }
    }
    proof {
        assert(items@.skip(0) == items@);
        lemma_ranked_is_ranking(items@);
    }
    out
}

/// Where no two records tie, there is only one way to put them in order.
pub proof fn lemma_ranking_unique<T: Ranked>(a: Seq<T>, b: Seq<T>)
    requires
        ordered(a),
        ordered(b),
        a.to_multiset() == b.to_multiset(),
        tie_free(a.to_multiset()),
    ensures
        a == b,
    decreases a.len(),
{
    broadcast use vstd::multiset::group_multiset_axioms;

    vstd::seq_lib::to_multiset_len(a);
    vstd::seq_lib::to_multiset_len(b);
    if a.len() == 0 {
        assert(a =~= b);
    } else {
        let x = a[0];
        assert(a.contains(x));
        vstd::seq_lib::to_multiset_contains(a, x);
        vstd::seq_lib::to_multiset_contains(b, x);
        let k = choose|k: int| 0 <= k < b.len() && b[k] == x;
        if k != 0 {
            let y = b[0];
            assert(b.contains(y));
            vstd::seq_lib::to_multiset_contains(b, y);
            vstd::seq_lib::to_multiset_contains(a, y);
            let i = choose|i: int| 0 <= i < a.len() && a[i] == y;
            b.lemma_multiset_has_no_duplicates_conv();
            assert(y != x);
            assert(i != 0);
            assert(!a[i].outranks(&a[0]));
            assert(!b[k].outranks(&b[0]));
            assert(x.outranks(&y) || y.outranks(&x));
            assert(false);
        }
        vstd::seq_lib::to_multiset_remove(a, 0);
        vstd::seq_lib::to_multiset_remove(b, 0);
        assert(a.remove(0) =~= a.drop_first());
        assert(b.remove(0) =~= b.drop_first());
        let a1 = a.drop_first();
        let b1 = b.drop_first();
        assert(ordered(a1)) by {
            assert forall|i: int, j: int| 0 <= i < j < a1.len() implies !(#[trigger] a1[j].outranks(
                &a1[i],
            )) by {
                assert(!a[j + 1].outranks(&a[i + 1]));
            }
        }
        assert(ordered(b1)) by {
            assert forall|i: int, j: int| 0 <= i < j < b1.len() implies !(#[trigger] b1[j].outranks(
                &b1[i],
            )) by {
                assert(!b[j + 1].outranks(&b[i + 1]));
            }
        }
        lemma_ranking_unique(a1, b1);
        assert forall|i: int| 0 <= i < a.len() implies a[i] == b[i] by {
            if i > 0 {
                assert(a[i] == a1[i - 1]);
                assert(b[i] == b1[i - 1]);
            }
        }
        assert(a =~= b);
    }
}

/// Shuffling the records before ranking them changes nothing: where no two
/// records tie, every ranking of `x` equals every ranking of a rearrangement
/// `y` of `x`.
pub proof fn lemma_ranking_ignores_input_order<T: Ranked>(
    x: Seq<T>,
    y: Seq<T>,
    ranked_x: Seq<T>,
    ranked_y: Seq<T>,
)
    requires
        x.to_multiset() == y.to_multiset(),
        tie_free(x.to_multiset()),
        is_ranking_of(ranked_x, x),
        is_ranking_of(ranked_y, y),
    ensures
        ranked_x == ranked_y,
{
    lemma_ranking_unique(ranked_x, ranked_y);
}

/// Shuffling the records before ranking them changes nothing, stated of
/// `ranked` itself.
pub proof fn lemma_ranked_ignores_input_order<T: Ranked>(x: Seq<T>, y: Seq<T>)
    requires
        x.to_multiset() == y.to_multiset(),
        tie_free(x.to_multiset()),
    ensures
        ranked(x) == ranked(y),
{
    lemma_ranked_is_ranking(x);
    lemma_ranked_is_ranking(y);
    lemma_ranking_unique(ranked(x), ranked(y));
}

/// Process rows with pairwise different pids never tie.
pub proof fn lemma_distinct_pids_tie_free(rows: Seq<ProcRecord>)
    requires
        forall|i: int, j: int| 0 <= i < j < rows.len() ==> rows[i].pid != rows[j].pid,
    ensures
        tie_free(rows.to_multiset()),
{
    broadcast use vstd::multiset::group_multiset_axioms;

    assert(rows.no_duplicates());
    rows.lemma_multiset_has_no_duplicates();
    let m = rows.to_multiset();
    assert forall|a: ProcRecord, b: ProcRecord| m.count(a) > 0 && m.count(b) > 0 && a != b implies #[trigger] a.outranks(&b)
        || b.outranks(&a) by {
        vstd::seq_lib::to_multiset_contains(rows, a);
        vstd::seq_lib::to_multiset_contains(rows, b);
        let i = choose|i: int| 0 <= i < rows.len() && rows[i] == a;
        let j = choose|j: int| 0 <= j < rows.len() && rows[j] == b;
        assert(i != j);
    }
}

/// Pane rows with pairwise different targets never tie.
pub proof fn lemma_distinct_targets_tie_free(rows: Seq<PaneRecord>)
    requires
        forall|i: int, j: int|
            0 <= i < j < rows.len() ==> rows[i].tmux_target@ != rows[j].tmux_target@,
    ensures
        tie_free(rows.to_multiset()),
{
    broadcast use vstd::multiset::group_multiset_axioms;

    assert(rows.no_duplicates());
    rows.lemma_multiset_has_no_duplicates();
    let m = rows.to_multiset();
    assert forall|a: PaneRecord, b: PaneRecord| m.count(a) > 0 && m.count(b) > 0 && a != b implies #[trigger] a.outranks(&b)
        || b.outranks(&a) by {
        vstd::seq_lib::to_multiset_contains(rows, a);
        vstd::seq_lib::to_multiset_contains(rows, b);
        let i = choose|i: int| 0 <= i < rows.len() && rows[i] == a;
        let j = choose|j: int| 0 <= j < rows.len() && rows[j] == b;
        assert(i != j);
        lemma_text_total(a.tmux_target@, b.tmux_target@);
    }
}

} // verus!
