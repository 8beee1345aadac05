//! The ordered collection of accepted candidates and the reporting sort.
//!
//! A scan yields candidates in discovery order (ascending start offset). For
//! final reporting they are re-sorted by X-axis length, ascending and stable:
//! candidates sharing an X-axis length keep their discovery order.

use vstd::prelude::*;

use crate::table::TableParms;

verus! {

/// Functional insertion of a candidate into a sequence already sorted by
/// `x_val`: the candidate goes before every strictly greater element and
/// after everything else, so equal elements keep their order.
pub open spec fn spec_insert_by_x<'a>(s: Seq<TableParms<'a>>, t: TableParms<'a>) -> Seq<TableParms<'a>>
    decreases s.len(),
{
    if s.len() == 0 {
        seq![t]
    } else if s.last().x_val > t.x_val {
        spec_insert_by_x(s.drop_last(), t).push(s.last())
    } else {
        s.push(t)
    }
}

/// Functional stable insertion sort by `x_val`.
pub open spec fn spec_sort_by_x<'a>(s: Seq<TableParms<'a>>) -> Seq<TableParms<'a>>
    decreases s.len(),
{
    if s.len() == 0 {
        Seq::empty()
    } else {
        spec_insert_by_x(spec_sort_by_x(s.drop_last()), s.last())
    }
}

/// Ascending order by X-axis length.
pub open spec fn spec_sorted_by_x(s: Seq<TableParms>) -> bool {
    forall|i: int, j: int| 0 <= i < j < s.len() ==> #[trigger] s[i].x_val <= #[trigger] s[j].x_val
}

/// The candidates with one given X-axis length, in order.
pub open spec fn spec_with_x<'a>(k: u32) -> spec_fn(TableParms<'a>) -> bool {
    |t: TableParms<'a>| t.x_val == k
}

/// Re-sorts the accepted candidates for reporting: a stable ascending sort
/// by X-axis length.
pub fn sort_tables<'a>(tables: &mut Vec<TableParms<'a>>)
    ensures
        final(tables)@ == spec_sort_by_x(old(tables)@),
{
    let mut sorted: Vec<TableParms<'a>> = Vec::new();
    let mut n: usize = 0;
    while n < tables.len()
        invariant
            n <= tables@.len(),
            tables@ == old(tables)@,
            sorted@ == spec_sort_by_x(tables@.subrange(0, n as int)),
        decreases tables@.len() - n,
    {
        let t: TableParms<'a> = tables[n];
        insert_sorted(&mut sorted, t);
        proof {
            let pre = tables@.subrange(0, n as int);
            let ext = tables@.subrange(0, n + 1);
            assert(ext.drop_last() =~= pre);
            assert(ext.last() == tables@[n as int]);
        }
        n = n + 1;
    }
    proof {
        assert(tables@.subrange(0, tables@.len() as int) =~= tables@);
    }
    *tables = sorted;
}

/// Inserting at the position the exec search finds agrees with the
/// functional insertion.
proof fn lemma_insert_at_pos<'a>(s: Seq<TableParms<'a>>, t: TableParms<'a>, pos: int)
    requires
        0 <= pos <= s.len(),
        forall|k: int| pos <= k < s.len() ==> #[trigger] s[k].x_val > t.x_val,
        pos > 0 ==> s[pos - 1].x_val <= t.x_val,
    ensures
        spec_insert_by_x(s, t) == s.insert(pos, t),
    decreases s.len(),
{
    if pos == s.len() {
        if s.len() == 0 {
            assert(spec_insert_by_x(s, t) =~= s.insert(pos, t));
        } else {
            assert(s.push(t) =~= s.insert(pos, t));
        }
    } else {
        assert(s[s.len() - 1].x_val > t.x_val);
        lemma_insert_at_pos(s.drop_last(), t, pos);
        assert(s.drop_last().insert(pos, t).push(s.last()) =~= s.insert(pos, t));
    }
}

/// Inserts a candidate into a vector sorted by `x_val`, before every
/// strictly greater element, keeping the order stable.
fn insert_sorted<'a>(sorted: &mut Vec<TableParms<'a>>, t: TableParms<'a>)
    ensures
        final(sorted)@ == spec_insert_by_x(old(sorted)@, t),
{
    let mut pos: usize = sorted.len();
    while pos > 0 && sorted[pos - 1].x_val > t.x_val
        invariant
            pos <= sorted@.len(),
            sorted@ == old(sorted)@,
            forall|k: int| pos <= k < sorted@.len() ==> #[trigger] sorted@[k].x_val > t.x_val,
        decreases pos,
    {
        pos = pos - 1;
    }
    proof {
        lemma_insert_at_pos(sorted@, t, pos as int);
    }
    sorted.insert(pos, t);
}

/// Filtering looks at the pushed element alone.
proof fn lemma_filter_push<'a>(
    s: Seq<TableParms<'a>>,
    t: TableParms<'a>,
    pred: spec_fn(TableParms<'a>) -> bool,
)
    ensures
        s.push(t).filter(pred) == if pred(t) {
            s.filter(pred).push(t)
        } else {
            s.filter(pred)
        },
{
    reveal(Seq::filter);
    assert(s.push(t).drop_last() =~= s);
    assert(s.push(t).last() == t);
}

/// Functional insertion keeps, for every X-axis length, the candidates
/// sharing it in their old order: the inserted one comes last among them.
proof fn lemma_insert_filter<'a>(s: Seq<TableParms<'a>>, t: TableParms<'a>, k: u32)
    ensures
        spec_insert_by_x(s, t).filter(spec_with_x(k)) == if t.x_val == k {
            s.filter(spec_with_x(k)).push(t)
        } else {
            s.filter(spec_with_x(k))
        },
    decreases s.len(),
{
    let pred = spec_with_x::<'a>(k);
    if s.len() == 0 {
        reveal(Seq::filter);
        assert(Seq::<TableParms<'a>>::empty().push(t) =~= seq![t]);
        lemma_filter_push(Seq::<TableParms<'a>>::empty(), t, pred);
        assert(s.filter(pred) =~= Seq::<TableParms<'a>>::empty().filter(pred));
    } else if s.last().x_val > t.x_val {
        lemma_insert_filter(s.drop_last(), t, k);
        lemma_filter_push(spec_insert_by_x(s.drop_last(), t), s.last(), pred);
        lemma_filter_push(s.drop_last(), s.last(), pred);
        assert(s.drop_last().push(s.last()) =~= s);
    } else {
        lemma_filter_push(s, t, pred);
    }
}

/// Every X-axis length in the functional insertion stays at or below a bound
/// that held of the sequence and of the inserted candidate.
proof fn lemma_insert_le_bound<'a>(s: Seq<TableParms<'a>>, t: TableParms<'a>, b: u32)
    requires
        forall|i: int| 0 <= i < s.len() ==> #[trigger] s[i].x_val <= b,
        t.x_val <= b,
    ensures
        forall|i: int|
            0 <= i < spec_insert_by_x(s, t).len() ==> #[trigger] spec_insert_by_x(s, t)[i].x_val
                <= b,
    decreases s.len(),
{
    if s.len() == 0 {
    } else if s.last().x_val > t.x_val {
        lemma_insert_le_bound(s.drop_last(), t, b);
    } else {
    }
}

/// Functional insertion into an ascending sequence stays ascending.
proof fn lemma_insert_sorted<'a>(s: Seq<TableParms<'a>>, t: TableParms<'a>)
    requires
        spec_sorted_by_x(s),
    ensures
        spec_sorted_by_x(spec_insert_by_x(s, t)),
    decreases s.len(),
{
    if s.len() == 0 {
    } else if s.last().x_val > t.x_val {
        assert(spec_sorted_by_x(s.drop_last()));
        lemma_insert_sorted(s.drop_last(), t);
        assert(forall|i: int|
            0 <= i < s.drop_last().len() ==> #[trigger] s.drop_last()[i].x_val <= s.last().x_val);
        lemma_insert_le_bound(s.drop_last(), t, s.last().x_val);
    } else {
    }
}

/// The reporting order is ascending by X-axis length.
pub proof fn lemma_sort_sorted<'a>(s: Seq<TableParms<'a>>)
    ensures
        spec_sorted_by_x(spec_sort_by_x(s)),
    decreases s.len(),
{
    if s.len() == 0 {
    } else {
        lemma_sort_sorted(s.drop_last());
        lemma_insert_sorted(spec_sort_by_x(s.drop_last()), s.last());
    }
}

/// Stability of the reporting sort: for every X-axis length, the candidates
/// sharing it keep their relative discovery order.
pub proof fn lemma_sort_stable<'a>(s: Seq<TableParms<'a>>, k: u32)
    ensures
        spec_sort_by_x(s).filter(spec_with_x(k)) == s.filter(spec_with_x(k)),
    decreases s.len(),
{
    let pred = spec_with_x::<'a>(k);
    if s.len() == 0 {
        reveal(Seq::filter);
    } else {
        lemma_sort_stable(s.drop_last(), k);
        lemma_insert_filter(spec_sort_by_x(s.drop_last()), s.last(), k);
        lemma_filter_push(s.drop_last(), s.last(), pred);
        assert(s.drop_last().push(s.last()) =~= s);
    }
}

/// The reporting sort is a permutation: no candidate appears or disappears.
pub proof fn lemma_sort_permutes<'a>(s: Seq<TableParms<'a>>)
    ensures
        spec_sort_by_x(s).to_multiset() == s.to_multiset(),
    decreases s.len(),
{
    broadcast use vstd::seq_lib::group_to_multiset_ensures;

    if s.len() == 0 {
    } else {
        lemma_sort_permutes(s.drop_last());
        lemma_insert_multiset(spec_sort_by_x(s.drop_last()), s.last());
        assert(s.drop_last().push(s.last()) =~= s);
    }
}

/// Functional insertion adds exactly the inserted candidate.
proof fn lemma_insert_multiset<'a>(s: Seq<TableParms<'a>>, t: TableParms<'a>)
    ensures
        spec_insert_by_x(s, t).to_multiset() == s.to_multiset().insert(t),
    decreases s.len(),
{
    broadcast use vstd::seq_lib::group_to_multiset_ensures;

    if s.len() == 0 {
        assert(Seq::<TableParms<'a>>::empty().push(t) =~= seq![t]);
    } else if s.last().x_val > t.x_val {
        lemma_insert_multiset(s.drop_last(), t);
        assert(s.drop_last().to_multiset().insert(t).insert(s.last())
            =~= s.drop_last().to_multiset().insert(s.last()).insert(t));
        assert(s.drop_last().push(s.last()) =~= s);
    } else {
    }
}

} // verus!
