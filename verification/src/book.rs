//! The price-level and summary model: the shared vocabulary of the crate.
//!
//! Prices and amounts are fixed-point decimals: an `i64` counts units of
//! `10^-8`, so `100.5` is stored as `10_050_000_000`.  Bids are kept sorted
//! descending by price, asks ascending, and the spread is the difference of
//! the two best prices (`0` when either side is empty).

use vstd::prelude::*;

verus! {

/// Number of fixed-point units per whole price unit (8 decimal digits).
pub const PRICE_UNIT: i64 = 100_000_000;

/// One price level of one exchange's book: which exchange quoted it, at what
/// price, and for what amount.  Price and amount are in `10^-8` units.
pub struct Level {
    pub exchange: String,
    pub price: i64,
    pub amount: i64,
}

/// A top-of-book view: bids sorted descending by price, asks ascending,
/// and the spread between the two best prices.
pub struct Summary {
    pub spread: i128,
    pub bids: Vec<Level>,
    pub asks: Vec<Level>,
}

/// Bids order: prices never increase along the sequence.
pub open spec fn sorted_desc(s: Seq<Level>) -> bool {
    forall|i: int, j: int| 0 <= i < j < s.len() ==> s[i].price >= s[j].price
}

/// Asks order: prices never decrease along the sequence.
pub open spec fn sorted_asc(s: Seq<Level>) -> bool {
    forall|i: int, j: int| 0 <= i < j < s.len() ==> s[i].price <= s[j].price
}

/// The spread owed by a book: best ask price minus best bid price, or `0`
/// when either side is empty.
pub open spec fn spec_spread(bids: Seq<Level>, asks: Seq<Level>) -> int {
    if bids.len() > 0 && asks.len() > 0 {
        asks[0].price - bids[0].price
    } else {
        0
    }
}

/// A summary is well formed when both sides are sorted the right way round
/// and the spread is the one its best levels owe.
pub open spec fn summary_wf(s: Summary) -> bool {
    &&& sorted_desc(s.bids@)
    &&& sorted_asc(s.asks@)
    &&& s.spread == spec_spread(s.bids@, s.asks@)
}

/// Every level of `s` is stamped with the exchange name `name`.
pub open spec fn all_from(s: Seq<Level>, name: Seq<char>) -> bool {
    forall|i: int| 0 <= i < s.len() ==> (#[trigger] s[i].exchange)@ == name
}

/// Computes the spread of two already-sorted sides.
pub fn spread_of(bids: &Vec<Level>, asks: &Vec<Level>) -> (r: i128)
    ensures
        r == spec_spread(bids@, asks@),
{
    if bids.len() > 0 && asks.len() > 0 {
        asks[0].price as i128 - bids[0].price as i128
    } else {
        0
    }
}

/// `a` may stand at or before `b` on a side ranked with direction `desc`.
pub open spec fn level_le(a: Level, b: Level, desc: bool) -> bool {
    if desc {
        a.price >= b.price
    } else {
        a.price <= b.price
    }
}

/// Inserts `x` into the already-ranked `s`: after every level that may
/// stand before it — in particular after every level of equal price, so
/// earlier-placed levels keep their lead at ties.
pub open spec fn spec_insert_level(s: Seq<Level>, x: Level, desc: bool) -> Seq<Level>
    decreases s.len(),
{
    if s.len() == 0 {
        seq![x]
    } else if level_le(s[0], x, desc) {
        seq![s[0]] + spec_insert_level(s.drop_first(), x, desc)
    } else {
        seq![x] + s
    }
}

/// The stable sort of a side: levels ranked by price (descending when
/// `desc`, ascending otherwise), and levels of equal price in the order
/// the input gives them.
pub open spec fn spec_sort_levels(s: Seq<Level>, desc: bool) -> Seq<Level>
    decreases s.len(),
{
    if s.len() == 0 {
        s
    } else {
        spec_insert_level(spec_sort_levels(s.drop_last(), desc), s.last(), desc)
    }
}

/// Inserting at the first position whose level may not stand before `x`
/// is what `spec_insert_level` does.
proof fn lemma_insert_level_at(s: Seq<Level>, x: Level, desc: bool, idx: int)
    requires
        0 <= idx <= s.len(),
        forall|t: int| 0 <= t < idx ==> level_le(#[trigger] s[t], x, desc),
        idx < s.len() ==> !level_le(s[idx], x, desc),
    ensures
        spec_insert_level(s, x, desc) == s.subrange(0, idx) + seq![x] + s.subrange(
            idx,
            s.len() as int,
        ),
    decreases s.len(),
{
    if s.len() == 0 {
        assert(spec_insert_level(s, x, desc) =~= s.subrange(0, idx) + seq![x] + s.subrange(
            idx,
            s.len() as int,
        ));
    } else if idx == 0 {
        assert(!level_le(s[0], x, desc));
        assert(spec_insert_level(s, x, desc) =~= s.subrange(0, idx) + seq![x] + s.subrange(
            idx,
            s.len() as int,
        ));
    } else {
        assert(level_le(s[0], x, desc));
        let df = s.drop_first();
        assert(forall|t: int| 0 <= t < idx - 1 ==> level_le(#[trigger] df[t], x, desc)) by {
            assert(forall|t: int| 0 <= t < idx - 1 ==> df[t] == s[t + 1]);
        }
        lemma_insert_level_at(df, x, desc, idx - 1);
        assert(spec_insert_level(s, x, desc) =~= s.subrange(0, idx) + seq![x] + s.subrange(
            idx,
            s.len() as int,
        ));
    }
}

/// Sorts levels by price, descending when `desc`, ascending otherwise:
/// exactly the stable sort `spec_sort_levels`, so the result holds the
/// input levels as a multiset, ranked, with input order kept at ties.
pub(crate) fn sort_by_price(v: Vec<Level>, desc: bool) -> (r: Vec<Level>)
    ensures
        r@ == spec_sort_levels(v@, desc),
        r@.to_multiset() == v@.to_multiset(),
        r@.len() == v@.len(),
        desc ==> sorted_desc(r@),
        !desc ==> sorted_asc(r@),
{
    broadcast use vstd::seq_lib::group_to_multiset_ensures;

    let mut out: Vec<Level> = Vec::new();
    let ghost orig = v@;
    proof {
        assert(orig.subrange(0, 0) =~= Seq::<Level>::empty());
        assert(out@ == spec_sort_levels(orig.subrange(0, 0), desc));
        assert(out@.to_multiset() =~= orig.subrange(0, 0).to_multiset());
    }
    let mut i: usize = 0;
    while i < v.len()
        invariant
            i <= orig.len(),
            v@ == orig,
            out@ == spec_sort_levels(orig.subrange(0, i as int), desc),
            out@.to_multiset() == orig.subrange(0, i as int).to_multiset(),
            out@.len() == i,
            desc ==> sorted_desc(out@),
            !desc ==> sorted_asc(out@),
        decreases orig.len() - i,
    {
        let x = clone_level(&v[i]);
        let mut idx: usize = 0;
        while idx < out.len() && may_precede(&out[idx], &x, desc)
            invariant
                idx <= out@.len(),
                forall|t: int| 0 <= t < idx ==> level_le(#[trigger] out@[t], x, desc),
            decreases out@.len() - idx,
        {
            idx = idx + 1;
        }
        let ghost before = out@;
        out.insert(idx, x);
        proof {
            lemma_insert_level_at(before, x, desc, idx as int);
            assert(out@ =~= before.subrange(0, idx as int) + seq![x] + before.subrange(
                idx as int,
                before.len() as int,
            ));
            assert(out@ == spec_insert_level(before, x, desc));
            let taken = orig.subrange(0, i as int + 1);
            assert(taken.drop_last() =~= orig.subrange(0, i as int));
            assert(taken.last() == orig[i as int]);
            assert(out@ == spec_sort_levels(taken, desc));
            assert(taken =~= orig.subrange(0, i as int).push(x));
            assert(out@.to_multiset() =~= taken.to_multiset()) by {
                broadcast use vstd::multiset::group_multiset_axioms;

                let fr = before.subrange(0, idx as int);
                let bk = before.subrange(idx as int, before.len() as int);
                vstd::seq_lib::lemma_multiset_commutative(fr, seq![x]);
                vstd::seq_lib::lemma_multiset_commutative(fr + seq![x], bk);
                vstd::seq_lib::lemma_multiset_commutative(fr, bk);
                assert(fr + bk =~= before);
                assert(seq![x] =~= Seq::<Level>::empty().push(x));
                vstd::seq_lib::to_multiset_build::<Level>(Seq::empty(), x);
                vstd::seq_lib::to_multiset_build::<Level>(orig.subrange(0, i as int), x);
                Seq::<Level>::empty().to_multiset_ensures();
                assert forall|a: Level|
                    out@.to_multiset().count(a) == taken.to_multiset().count(a) by {}
            }
            assert forall|a: int, b: int| 0 <= a < b < out@.len() implies level_le(
                out@[a],
                out@[b],
                desc,
            ) by {
                if a == idx {
                    assert(out@[b] == before[b - 1]);
                    assert(!level_le(before[idx as int], x, desc));
                    if b - 1 > idx {
                        assert(level_le(before[idx as int], before[b - 1], desc));
                    }
                } else if b == idx {
                    assert(out@[a] == before[a]);
                } else if a < idx && b > idx {
                    assert(out@[a] == before[a] && out@[b] == before[b - 1]);
                    if a < b - 1 {
                        assert(level_le(before[a], before[b - 1], desc));
                    }
                }
            }
        }
        i = i + 1;
    }
    proof {
        assert(orig.subrange(0, orig.len() as int) =~= orig);
    }
    out
}

/// Whether `a` may stand at or before `b`, computed.
fn may_precede(a: &Level, b: &Level, desc: bool) -> (r: bool)
    ensures
        r == level_le(*a, *b, desc),
{
    if desc {
        a.price >= b.price
    } else {
        a.price <= b.price
    }
}

/// Levels contributed to the bid side by a sequence of summaries, in input
/// order.
pub open spec fn all_bids(ss: Seq<Summary>) -> Seq<Level>
    decreases ss.len(),
{
    if ss.len() == 0 {
        Seq::empty()
    } else {
        ss[0].bids@ + all_bids(ss.drop_first())
    }
}

/// Levels contributed to the ask side by a sequence of summaries, in input
/// order.
pub open spec fn all_asks(ss: Seq<Summary>) -> Seq<Level>
    decreases ss.len(),
{
    if ss.len() == 0 {
        Seq::empty()
    } else {
        ss[0].asks@ + all_asks(ss.drop_first())
    }
}

/// Merges per-exchange summaries into one ranked aggregate: all bids of all
/// inputs sorted descending by price, all asks sorted ascending, and the
/// spread of the combined best levels.  The sort is stable, so levels of
/// equal price stand in the order the input concatenation gives them: this
/// is the tie-break, and `spec_sort_levels` pins it in the contract.
pub fn merge_summaries(summaries: Vec<Summary>) -> (r: Summary)
    ensures
        summary_wf(r),
        r.bids@ == spec_sort_levels(all_bids(summaries@), true),
        r.asks@ == spec_sort_levels(all_asks(summaries@), false),
        r.bids@.to_multiset() == all_bids(summaries@).to_multiset(),
        r.asks@.to_multiset() == all_asks(summaries@).to_multiset(),
        r.bids@.len() == all_bids(summaries@).len(),
        r.asks@.len() == all_asks(summaries@).len(),
{
    broadcast use vstd::seq_lib::group_to_multiset_ensures;

    let ghost orig = summaries@;
    let mut rest = summaries;
    let mut bids: Vec<Level> = Vec::new();
    let mut asks: Vec<Level> = Vec::new();
    proof {
        assert(bids@ + all_bids(rest@) =~= all_bids(orig));
        assert(asks@ + all_asks(rest@) =~= all_asks(orig));
    }
    while rest.len() > 0
        invariant
            bids@ + all_bids(rest@) == all_bids(orig),
            asks@ + all_asks(rest@) == all_asks(orig),
        decreases rest@.len(),
    {
        let ghost rest_before = rest@;
        let ghost bids_before = bids@;
        let ghost asks_before = asks@;
        let mut s = rest.remove(0);
        bids.append(&mut s.bids);
        asks.append(&mut s.asks);
        proof {
            assert(rest@ =~= rest_before.drop_first());
            assert(bids@ + all_bids(rest@) =~= bids_before + all_bids(rest_before));
            assert(asks@ + all_asks(rest@) =~= asks_before + all_asks(rest_before));
        }
    }
    proof {
        assert(bids@ =~= all_bids(orig));
        assert(asks@ =~= all_asks(orig));
    }
    let bids = sort_by_price(bids, true);
    let asks = sort_by_price(asks, false);
    let spread = spread_of(&bids, &asks);
    Summary { spread, bids, asks }
}

/// `a` carries the same book as `b`: equal spread and equal level
/// sequences on both sides.
pub open spec fn summary_eq(a: Summary, b: Summary) -> bool {
    &&& a.spread == b.spread
    &&& a.bids@ == b.bids@
    &&& a.asks@ == b.asks@
}

/// Copies one level; the copy equals the source level.
pub fn clone_level(l: &Level) -> (r: Level)
    ensures
        r == *l,
{
    Level { exchange: l.exchange.clone(), price: l.price, amount: l.amount }
}

/// Copies a side; the copy holds the same level sequence.
pub fn clone_levels(v: &Vec<Level>) -> (r: Vec<Level>)
    ensures
        r@ == v@,
{
    let mut out: Vec<Level> = Vec::new();
    let mut i: usize = 0;
    while i < v.len()
        invariant
            i <= v@.len(),
            out@ =~= v@.subrange(0, i as int),
        decreases v@.len() - i,
    {
        out.push(clone_level(&v[i]));
        i = i + 1;
    }
    proof {
        assert(out@ =~= v@);
    }
    out
}

/// Copies a summary; the copy carries the same book.
pub fn clone_summary(s: &Summary) -> (r: Summary)
    ensures
        summary_eq(r, *s),
{
    Summary { spread: s.spread, bids: clone_levels(&s.bids), asks: clone_levels(&s.asks) }
}

/// Summaries that carry the same books contribute the same levels.
pub proof fn lemma_all_levels_congruent(a: Seq<Summary>, b: Seq<Summary>)
    requires
        a.len() == b.len(),
        forall|i: int| 0 <= i < a.len() ==> summary_eq(#[trigger] a[i], b[i]),
    ensures
        all_bids(a) == all_bids(b),
        all_asks(a) == all_asks(b),
    decreases a.len(),
{
    if a.len() > 0 {
        lemma_all_levels_congruent(a.drop_first(), b.drop_first());
        assert(all_bids(a) =~= all_bids(b));
        assert(all_asks(a) =~= all_asks(b));
    }
}

/// Splitting a sequence of summaries splits its contributed levels: the
/// levels of `a + b` are the levels of `a` followed by those of `b`.
pub proof fn lemma_all_levels_append(a: Seq<Summary>, b: Seq<Summary>)
    ensures
        all_bids(a + b) == all_bids(a) + all_bids(b),
        all_asks(a + b) == all_asks(a) + all_asks(b),
    decreases a.len(),
{
    if a.len() == 0 {
        assert(a + b =~= b);
        assert(all_bids(a + b) =~= all_bids(a) + all_bids(b));
        assert(all_asks(a + b) =~= all_asks(a) + all_asks(b));
    } else {
        assert((a + b).drop_first() =~= a.drop_first() + b);
        lemma_all_levels_append(a.drop_first(), b);
        assert(all_bids(a + b) =~= all_bids(a) + all_bids(b));
        assert(all_asks(a + b) =~= all_asks(a) + all_asks(b));
    }
}

/// Merging is commutative in its inputs: the summaries `a + b` and `b + a`
/// contribute the same multiset of levels to each side, so the merged books
/// differ at most in the order of equal-priced levels.
pub proof fn lemma_merge_commutative(a: Seq<Summary>, b: Seq<Summary>)
    ensures
        all_bids(a + b).to_multiset() == all_bids(b + a).to_multiset(),
        all_asks(a + b).to_multiset() == all_asks(b + a).to_multiset(),
{
    lemma_all_levels_append(a, b);
    lemma_all_levels_append(b, a);
    vstd::seq_lib::lemma_multiset_commutative(all_bids(a), all_bids(b));
    vstd::seq_lib::lemma_multiset_commutative(all_bids(b), all_bids(a));
    vstd::seq_lib::lemma_multiset_commutative(all_asks(a), all_asks(b));
    vstd::seq_lib::lemma_multiset_commutative(all_asks(b), all_asks(a));
    assert(all_bids(a).to_multiset().add(all_bids(b).to_multiset()) =~= all_bids(
        b,
    ).to_multiset().add(all_bids(a).to_multiset()));
    assert(all_asks(a).to_multiset().add(all_asks(b).to_multiset()) =~= all_asks(
        b,
    ).to_multiset().add(all_asks(a).to_multiset()));
}

/// Merging is associative with respect to the levels: a summary `m` that
/// already holds exactly the levels of the summaries `inner` (as
/// `merge_summaries` ensures) contributes, ahead of any further summaries
/// `rest`, the same multiset of levels as `inner` itself would.
pub proof fn lemma_merge_associative(m: Summary, inner: Seq<Summary>, rest: Seq<Summary>)
    requires
        m.bids@.to_multiset() == all_bids(inner).to_multiset(),
        m.asks@.to_multiset() == all_asks(inner).to_multiset(),
    ensures
        all_bids(seq![m] + rest).to_multiset() == all_bids(inner + rest).to_multiset(),
        all_asks(seq![m] + rest).to_multiset() == all_asks(inner + rest).to_multiset(),
{
    lemma_all_levels_append(seq![m], rest);
    lemma_all_levels_append(inner, rest);
    assert(seq![m].drop_first() =~= Seq::<Summary>::empty());
    assert(all_bids(Seq::<Summary>::empty()) == Seq::<Level>::empty());
    assert(all_asks(Seq::<Summary>::empty()) == Seq::<Level>::empty());
    assert(seq![m][0] == m);
    assert(all_bids(seq![m]) =~= m.bids@);
    assert(all_asks(seq![m]) =~= m.asks@);
    vstd::seq_lib::lemma_multiset_commutative(all_bids(seq![m]), all_bids(rest));
    vstd::seq_lib::lemma_multiset_commutative(all_bids(inner), all_bids(rest));
    vstd::seq_lib::lemma_multiset_commutative(all_asks(seq![m]), all_asks(rest));
    vstd::seq_lib::lemma_multiset_commutative(all_asks(inner), all_asks(rest));
    assert(all_bids(seq![m] + rest).to_multiset() =~= all_bids(inner + rest).to_multiset());
    assert(all_asks(seq![m] + rest).to_multiset() =~= all_asks(inner + rest).to_multiset());
}

/// Merging no summaries yields the empty book: no bids, no asks, and a
/// spread of zero.
pub proof fn lemma_merge_empty(r: Summary)
    requires
        summary_wf(r),
        r.bids@.to_multiset() == all_bids(Seq::empty()).to_multiset(),
        r.asks@.to_multiset() == all_asks(Seq::empty()).to_multiset(),
    ensures
        r.bids@.len() == 0,
        r.asks@.len() == 0,
        r.spread == 0,
{
    broadcast use vstd::seq_lib::group_to_multiset_ensures;

    assert(all_bids(Seq::empty()).to_multiset() =~= Seq::<Level>::empty().to_multiset());
    assert(all_asks(Seq::empty()).to_multiset() =~= Seq::<Level>::empty().to_multiset());
    assert(Seq::<Level>::empty().to_multiset().len() == 0);
    assert(r.bids@.to_multiset().len() == r.bids@.len());
    assert(r.asks@.to_multiset().len() == r.asks@.len());
}

/// On a book whose level prices are pairwise distinct the sides are sorted
/// strictly: descent on bids and ascent on asks are strict.  (With two
/// exchanges quoting the same price only the non-strict order holds.)
pub proof fn lemma_sorted_strict_when_distinct(s: Summary)
    requires
        summary_wf(s),
        forall|i: int, j: int|
            0 <= i < j < s.bids@.len() ==> s.bids@[i].price != s.bids@[j].price,
        forall|i: int, j: int|
            0 <= i < j < s.asks@.len() ==> s.asks@[i].price != s.asks@[j].price,
    ensures
        forall|i: int, j: int| 0 <= i < j < s.bids@.len() ==> s.bids@[i].price > s.bids@[j].price,
        forall|i: int, j: int| 0 <= i < j < s.asks@.len() ==> s.asks@[i].price < s.asks@[j].price,
{
}

} // verus!
