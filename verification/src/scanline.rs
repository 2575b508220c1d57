//! Putting the scanlines of a render back into image order.
//!
//! Workers finish their rows in no particular order. Each hands back its row
//! together with the row's index, counted upwards from the bottom of the
//! picture, while the image is stored from the top row down. So the rows are
//! arranged by falling index and then laid end to end.

use vstd::prelude::*;
use vstd::seq_lib::seq_to_set_is_finite;
use vstd::set_lib::{lemma_int_range, lemma_subset_equality, set_int_range};

verus! {

/// A finished scanline: its index, counted from the bottom of the picture, and
/// its values from left to right.
pub type Line<T> = (usize, Vec<T>);

/// Whether the line that arrived at position `p` is placed before the one that
/// arrived at position `q`: the higher index comes first, and of two lines with
/// the same index the later arrival.
pub open spec fn placed_before<T>(lines: Seq<Line<T>>, p: int, q: int) -> bool {
    lines[p].0 > lines[q].0 || (lines[p].0 == lines[q].0 && p > q)
}

/// Whether `order` lists arrival positions of `lines`, one for each line, such
/// that each is placed before all that follow it.
pub open spec fn is_image_order<T>(lines: Seq<Line<T>>, order: Seq<int>) -> bool {
    &&& order.len() == lines.len()
    &&& forall|k: int| 0 <= k < order.len() ==> 0 <= #[trigger] order[k] < lines.len()
    &&& forall|k: int, l: int|
        0 <= k < l < order.len() ==> placed_before(lines, #[trigger] order[k], #[trigger] order[l])
}

/// The lines picked in the given order of arrival positions.
pub open spec fn arranged<T>(lines: Seq<Line<T>>, order: Seq<int>) -> Seq<Line<T>> {
    Seq::new(order.len(), |k: int| lines[order[k]])
}

/// The values of all lines laid end to end, first line first.
pub open spec fn flattened<T>(lines: Seq<Line<T>>) -> Seq<T>
    decreases lines.len(),
{
    if lines.len() == 0 {
        Seq::empty()
    } else {
        flattened(lines.drop_last()) + lines.last().1@
    }
}

/// Whether `lines` holds each scanline of an image exactly once, whatever the
/// order: as many lines as the image has rows, every index below that number,
/// no index twice, and every line `width` values long.
pub open spec fn is_full_frame<T>(lines: Seq<Line<T>>, width: nat) -> bool {
    &&& forall|p: int| 0 <= p < lines.len() ==> (#[trigger] lines[p]).0 < lines.len()
    &&& forall|p: int, q: int|
        0 <= p < q < lines.len() ==> (#[trigger] lines[p]).0 != (#[trigger] lines[q]).0
    &&& forall|p: int| 0 <= p < lines.len() ==> (#[trigger] lines[p]).1@.len() == width
}

/// Where the value at column `column` of the scanline with index `index`
/// stands in the row-major buffer of an image of `rows` rows: the scanline
/// with the highest index is the top row, and the top row comes first.
pub open spec fn buffer_offset(rows: nat, width: nat, index: usize, column: int) -> int {
    (rows - 1 - index) * width + column
}

/// Whether `values` is the row-major buffer, top row first, of the image
/// whose scanlines are `lines`.
pub open spec fn is_image_of<T>(values: Seq<T>, lines: Seq<Line<T>>, width: nat) -> bool {
    &&& values.len() == lines.len() * width
    &&& forall|p: int, i: int|
        0 <= p < lines.len() && 0 <= i < width ==> {
            &&& 0 <= #[trigger] buffer_offset(lines.len(), width, lines[p].0, i) < values.len()
            &&& values[buffer_offset(lines.len(), width, lines[p].0, i)] == lines[p].1@[i]
        }
}

/// Whether every scanline of an image has arrived exactly once: as many
/// lines as the image has rows, every index below that number, no index twice,
/// and every line `width` values long. A render that lost a row fails this.
pub fn is_complete_frame<T>(lines: &Vec<Line<T>>, width: usize) -> (complete: bool)
    ensures
        complete == is_full_frame(lines@, width as nat),
{
    let rows = lines.len();
    let mut seen: Vec<bool> = Vec::new();
    while seen.len() < rows
        invariant
            seen@.len() <= rows,
            forall|j: int| 0 <= j < seen@.len() ==> !seen@[j],
        decreases rows - seen@.len(),
    {
        seen.push(false);
    }
    let mut p: usize = 0;
    while p < rows
        invariant
            rows == lines@.len(),
            seen@.len() == rows,
            p <= rows,
            forall|q: int| 0 <= q < p ==> (#[trigger] lines@[q]).0 < rows,
            forall|q: int| 0 <= q < p ==> (#[trigger] lines@[q]).1@.len() == width,
            forall|q: int, r: int|
                0 <= q < r < p ==> (#[trigger] lines@[q]).0 != (#[trigger] lines@[r]).0,
            forall|j: int|
                0 <= j < rows ==> (seen@[j] <==> exists|q: int|
                    0 <= q < p && (#[trigger] lines@[q]).0 == j),
        decreases rows - p,
    {
        let index = lines[p].0;
        if index >= rows || lines[p].1.len() != width {
            assert(!is_full_frame(lines@, width as nat)) by {
                assert(lines@[p as int].0 >= rows || lines@[p as int].1@.len() != width);
            }
            return false;
        }
        if seen[index] {
            assert(!is_full_frame(lines@, width as nat)) by {
                let q = choose|q: int| 0 <= q < p && (#[trigger] lines@[q]).0 == index;
                assert(lines@[q].0 == lines@[p as int].0);
            }
            return false;
        }
        let ghost before = seen@;
        seen.set(index, true);
        assert forall|j: int| 0 <= j < rows implies (seen@[j] <==> exists|q: int|
            0 <= q < p + 1 && (#[trigger] lines@[q]).0 == j) by {
            if j == index {
                assert(lines@[p as int].0 == j);
            } else if before[j] {
                let q = choose|q: int| 0 <= q < p && (#[trigger] lines@[q]).0 == j;
                assert(0 <= q < p + 1 && lines@[q].0 == j);
            } else if exists|q: int| 0 <= q < p + 1 && (#[trigger] lines@[q]).0 == j {
                let q = choose|q: int| 0 <= q < p + 1 && (#[trigger] lines@[q]).0 == j;
                assert(q < p);
            }
        }
        p = p + 1;
    }
    true
}

/// Arranges finished lines for output: by falling index, and lines that share
/// an index with the later arrival first.
pub fn sort_lines<T>(lines: Vec<Line<T>>) -> (sorted: Vec<Line<T>>)
    ensures
        exists|order: Seq<int>|
            #![trigger is_image_order(lines@, order)]
            is_image_order(lines@, order) && sorted@ == arranged(lines@, order),
{
    let ghost arrived = lines@;
    let mut pending = lines;
    let mut sorted: Vec<Line<T>> = Vec::new();
    let ghost mut order: Seq<int> = Seq::empty();
    while pending.len() > 0
        invariant
            pending@ == arrived.take(pending@.len() as int),
            pending@.len() <= arrived.len(),
            order.len() == arrived.len() - pending@.len(),
            forall|k: int|
                0 <= k < order.len() ==> pending@.len() <= #[trigger] order[k] < arrived.len(),
            forall|k: int, l: int|
                0 <= k < l < order.len() ==> placed_before(
                    arrived,
                    #[trigger] order[k],
                    #[trigger] order[l],
                ),
            sorted@ == arranged(arrived, order),
        decreases pending@.len(),
    {
        let ghost position = pending@.len() - 1;
        let line = pending.pop().unwrap();
        assert(line == arrived[position]);
        let mut at: usize = 0;
        while at < sorted.len() && sorted[at].0 >= line.0
            invariant
                at <= sorted@.len(),
                sorted@ == arranged(arrived, order),
                forall|k: int| 0 <= k < at ==> sorted@[k].0 >= line.0,
            decreases sorted@.len() - at,
        {
            at = at + 1;
        }
        let ghost before = order;
        proof {
            order = order.insert(at as int, position);
            assert forall|k: int, l: int| 0 <= k < l < order.len() implies placed_before(
                arrived,
                #[trigger] order[k],
                #[trigger] order[l],
            ) by {
                if l == at {
                    assert(sorted@[k] == arrived[before[k]]);
                } else if k == at {
                    assert(sorted@[at as int] == arrived[before[at as int]]);
                    if l - 1 > at {
                        assert(placed_before(arrived, before[at as int], before[l - 1]));
                    }
                } else if l < at {
                    assert(placed_before(arrived, before[k], before[l]));
                } else if k < at {
                    assert(placed_before(arrived, before[k], before[l - 1]));
                } else {
                    assert(placed_before(arrived, before[k - 1], before[l - 1]));
                }
            }
            assert(sorted@.insert(at as int, line) =~= arranged(arrived, order));
        }
        sorted.insert(at, line);
        assert(pending@ =~= arrived.take(pending@.len() as int));
    }
    proof {
        assert(is_image_order(arrived, order));
    }
    sorted
}

/// Lays the values of the lines end to end, first line first.
pub fn flatten_lines<T>(lines: Vec<Line<T>>) -> (values: Vec<T>)
    ensures
        values@ == flattened(lines@),
{
    let mut values: Vec<T> = Vec::new();
    for line in it: lines.into_iter()
        invariant
            it.seq() == lines@,
            values@ == flattened(lines@.take(it.index() as int)),
    {
        let (_, mut row) = line;
        assert(lines@.take(it.index() + 1).drop_last() =~= lines@.take(it.index() as int));
        values.append(&mut row);
    }
    assert(lines@.take(lines@.len() as int) =~= lines@);
    values
}

/// Turns the lines of a render, in whatever order they were finished, into the
/// row-major buffer of the image: the line with the highest index first. Where
/// every scanline has arrived exactly once, each stands in the row of its
/// index.
pub fn assemble<T>(lines: Vec<Line<T>>) -> (values: Vec<T>)
    ensures
        exists|order: Seq<int>|
            #![trigger is_image_order(lines@, order)]
            is_image_order(lines@, order) && values@ == flattened(arranged(lines@, order)),
        forall|width: nat|
            #![trigger is_full_frame(lines@, width)]
            is_full_frame(lines@, width) ==> is_image_of(values@, lines@, width),
{
    let values = flatten_lines(sort_lines(lines));
    proof {
        let order = choose|order: Seq<int>|
            #![trigger is_image_order(lines@, order)]
            is_image_order(lines@, order) && values@ == flattened(arranged(lines@, order));
        assert forall|width: nat|
            #![trigger is_full_frame(lines@, width)]
            is_full_frame(lines@, width) implies is_image_of(values@, lines@, width) by {
            lemma_row_reassembly(lines@, order, width);
        }
    }
    values
}

proof fn lemma_index_falls<T>(lines: Seq<Line<T>>, order: Seq<int>, k: int, l: int)
    requires
        is_image_order(lines, order),
        forall|p: int, q: int|
            0 <= p < q < lines.len() ==> (#[trigger] lines[p]).0 != (#[trigger] lines[q]).0,
        0 <= k < l < lines.len(),
    ensures
        lines[order[k]].0 > lines[order[l]].0,
{
    assert(placed_before(lines, order[k], order[l]));
    if lines[order[k]].0 == lines[order[l]].0 {
        assert(lines[order[l]].0 != lines[order[k]].0);
    }
}

proof fn lemma_index_at_most<T>(lines: Seq<Line<T>>, order: Seq<int>, k: int)
    requires
        is_image_order(lines, order),
        forall|p: int| 0 <= p < lines.len() ==> (#[trigger] lines[p]).0 < lines.len(),
        forall|p: int, q: int|
            0 <= p < q < lines.len() ==> (#[trigger] lines[p]).0 != (#[trigger] lines[q]).0,
        0 <= k < lines.len(),
    ensures
        lines[order[k]].0 <= lines.len() - 1 - k,
    decreases k,
{
    if k > 0 {
        lemma_index_at_most(lines, order, k - 1);
        lemma_index_falls(lines, order, k - 1, k);
    }
}

proof fn lemma_index_at_least<T>(lines: Seq<Line<T>>, order: Seq<int>, k: int)
    requires
        is_image_order(lines, order),
        forall|p: int, q: int|
            0 <= p < q < lines.len() ==> (#[trigger] lines[p]).0 != (#[trigger] lines[q]).0,
        0 <= k < lines.len(),
    ensures
        lines[order[k]].0 >= lines.len() - 1 - k,
    decreases lines.len() - k,
{
    if k + 1 < lines.len() {
        lemma_index_at_least(lines, order, k + 1);
        lemma_index_falls(lines, order, k, k + 1);
    }
}

/// Where every scanline of an image has arrived exactly once, the arranged
/// lines run from the top row down: at place `k` stands the line whose index
/// is `k` below the highest.
pub proof fn lemma_lines_in_place<T>(lines: Seq<Line<T>>, order: Seq<int>, width: nat)
    requires
        is_image_order(lines, order),
        is_full_frame(lines, width),
    ensures
        forall|k: int|
            0 <= k < lines.len() ==> (#[trigger] arranged(lines, order)[k]).0 == lines.len() - 1
                - k,
{
    assert forall|k: int| 0 <= k < lines.len() implies (#[trigger] arranged(lines, order)[k]).0
        == lines.len() - 1 - k by {
        lemma_index_at_most(lines, order, k);
        lemma_index_at_least(lines, order, k);
    }
}

/// Lines of one width laid end to end: the value at column `i` of the line at
/// place `k` lands at offset `k * width + i`.
pub proof fn lemma_flattened_rows<T>(lines: Seq<Line<T>>, width: nat, k: int, i: int)
    requires
        forall|m: int| 0 <= m < lines.len() ==> (#[trigger] lines[m]).1@.len() == width,
        0 <= k < lines.len(),
        0 <= i < width,
    ensures
        flattened(lines).len() == lines.len() * width,
        0 <= k * width + i < flattened(lines).len(),
        flattened(lines)[k * width + i] == lines[k].1@[i],
    decreases lines.len(),
{
    let front = lines.drop_last();
    let n = lines.len() as int;
    let w = width as int;
    lemma_flattened_len(front, width);
    assert(n * w == (n - 1) * w + w) by (nonlinear_arith);
    assert(0 <= k * w && k * w + w <= n * w) by (nonlinear_arith)
        requires
            0 <= k < n,
            0 <= w,
    ;
    if k < n - 1 {
        lemma_flattened_rows(front, width, k, i);
    }
}

/// Lines of one width laid end to end hold `width` values for each line.
pub proof fn lemma_flattened_len<T>(lines: Seq<Line<T>>, width: nat)
    requires
        forall|m: int| 0 <= m < lines.len() ==> (#[trigger] lines[m]).1@.len() == width,
    ensures
        flattened(lines).len() == lines.len() * width,
    decreases lines.len(),
{
    let n = lines.len() as int;
    let w = width as int;
    if n > 0 {
        lemma_flattened_len(lines.drop_last(), width);
        assert(n * w == (n - 1) * w + w) by (nonlinear_arith);
    } else {
        assert(n * w == 0) by (nonlinear_arith)
            requires
                n == 0,
        ;
    }
}

proof fn lemma_value_in_place<T>(
    lines: Seq<Line<T>>,
    order: Seq<int>,
    width: nat,
    p: int,
    i: int,
)
    requires
        is_image_order(lines, order),
        is_full_frame(lines, width),
        0 <= p < lines.len(),
        0 <= i < width,
    ensures
        0 <= buffer_offset(lines.len(), width, lines[p].0, i) < flattened(
            arranged(lines, order),
        ).len(),
        flattened(arranged(lines, order))[buffer_offset(lines.len(), width, lines[p].0, i)]
            == lines[p].1@[i],
{
    let rows = arranged(lines, order);
    let k = lines.len() - 1 - lines[p].0;
    lemma_lines_in_place(lines, order, width);
    assert(rows[k].0 == lines[p].0);
    assert(rows[k] == lines[order[k]]);
    if order[k] < p {
        assert(lines[order[k]].0 != lines[p].0);
    } else if p < order[k] {
        assert(lines[p].0 != lines[order[k]].0);
    }
    assert(rows[k] == lines[p]);
    lemma_flattened_rows(rows, width, k, i);
}

/// Row reassembly. Where every scanline of an image has arrived exactly once,
/// in whatever order, the assembled buffer is the image: row-major, from the
/// top row down, each scanline in the row of its index.
pub proof fn lemma_row_reassembly<T>(lines: Seq<Line<T>>, order: Seq<int>, width: nat)
    requires
        is_image_order(lines, order),
        is_full_frame(lines, width),
    ensures
        is_image_of(flattened(arranged(lines, order)), lines, width),
{
    let values = flattened(arranged(lines, order));
    lemma_flattened_len(arranged(lines, order), width);
    assert forall|p: int, i: int| 0 <= p < lines.len() && 0 <= i < width implies {
        &&& 0 <= #[trigger] buffer_offset(lines.len(), width, lines[p].0, i) < values.len()
        &&& values[buffer_offset(lines.len(), width, lines[p].0, i)] == lines[p].1@[i]
    } by {
        lemma_value_in_place(lines, order, width, p, i);
    }
}

/// An image order leaves no arrival position out.
proof fn lemma_order_covers<T>(lines: Seq<Line<T>>, order: Seq<int>, p: int)
    requires
        is_image_order(lines, order),
        0 <= p < lines.len(),
    ensures
        order.contains(p),
{
    let all = set_int_range(0, lines.len() as int);
    assert forall|k: int, l: int|
        0 <= k < order.len() && 0 <= l < order.len() && k != l implies order[k] != order[l] by {
        if k < l {
            assert(placed_before(lines, order[k], order[l]));
        } else {
            assert(placed_before(lines, order[l], order[k]));
        }
    }
    order.unique_seq_to_set();
    lemma_int_range(0, lines.len() as int);
    seq_to_set_is_finite(order);
    assert(order.to_set().subset_of(all));
    lemma_subset_equality(order.to_set(), all);
    assert(all.contains(p));
}

/// The lines can be arranged in one way only: two image orders of the same
/// lines are the same.
pub proof fn lemma_image_order_unique<T>(lines: Seq<Line<T>>, first: Seq<int>, second: Seq<int>)
    requires
        is_image_order(lines, first),
        is_image_order(lines, second),
    ensures
        first == second,
{
    assert forall|k: int| 0 <= k < first.len() implies first[k] == second[k] by {
        lemma_same_place(lines, first, second, k);
    }
    assert(first =~= second);
}

proof fn lemma_same_place<T>(lines: Seq<Line<T>>, first: Seq<int>, second: Seq<int>, k: int)
    requires
        is_image_order(lines, first),
        is_image_order(lines, second),
        0 <= k < lines.len(),
    ensures
        first[k] == second[k],
    decreases k,
{
    assert forall|m: int| 0 <= m < k implies first[m] == second[m] by {
        lemma_same_place(lines, first, second, m);
    }
    let p = first[k];
    let q = second[k];
    if p != q {
        // each of the two stands later in the other order, so each is placed
        // before the other
        lemma_order_covers(lines, first, q);
        lemma_order_covers(lines, second, p);
        let m = choose|m: int| 0 <= m < first.len() && first[m] == q;
        let l = choose|l: int| 0 <= l < second.len() && second[l] == p;
        if m < k {
            assert(placed_before(lines, second[m], second[k]));
        } else {
            assert(placed_before(lines, first[k], first[m]));
        }
        if l < k {
            assert(placed_before(lines, first[l], first[k]));
        } else {
            assert(placed_before(lines, second[k], second[l]));
        }
    }
}

proof fn lemma_flattened_same<T>(first: Seq<Line<T>>, second: Seq<Line<T>>)
    requires
        first.len() == second.len(),
        forall|k: int| 0 <= k < first.len() ==> (#[trigger] first[k]).1@ == second[k].1@,
    ensures
        flattened(first) == flattened(second),
    decreases first.len(),
{
    if first.len() > 0 {
        assert(first.last().1@ == second.last().1@);
        assert forall|k: int| 0 <= k < first.drop_last().len() implies (#[trigger] first.drop_last()[
            k
        ]).1@ == second.drop_last()[k].1@ by {
            assert(first[k].1@ == second[k].1@);
        }
        lemma_flattened_same(first.drop_last(), second.drop_last());
    }
}

/// The order of completion does not show in the image. Two runs in which every
/// scanline of the same image arrived exactly once, and in which a scanline
/// holds the same values in both, assemble to the same buffer.
pub proof fn lemma_completion_order_irrelevant<T>(
    first: Seq<Line<T>>,
    first_order: Seq<int>,
    second: Seq<Line<T>>,
    second_order: Seq<int>,
    width: nat,
)
    requires
        is_image_order(first, first_order),
        is_image_order(second, second_order),
        is_full_frame(first, width),
        is_full_frame(second, width),
        first.len() == second.len(),
        forall|p: int, q: int|
            0 <= p < first.len() && 0 <= q < second.len() && (#[trigger] first[p]).0
                == (#[trigger] second[q]).0 ==> first[p].1@ == second[q].1@,
    ensures
        flattened(arranged(first, first_order)) == flattened(arranged(second, second_order)),
{
    let a = arranged(first, first_order);
    let b = arranged(second, second_order);
    lemma_lines_in_place(first, first_order, width);
    lemma_lines_in_place(second, second_order, width);
    assert forall|k: int| 0 <= k < a.len() implies (#[trigger] a[k]).1@ == b[k].1@ by {
        assert(a[k] == first[first_order[k]]);
        assert(b[k] == second[second_order[k]]);
        assert(a[k].0 == b[k].0);
    }
    lemma_flattened_same(a, b);
}

/// Where every scanline of an image has arrived exactly once, each index
/// below the number of lines is that of one of them.
pub proof fn lemma_every_scanline_arrived<T>(lines: Seq<Line<T>>, width: nat, index: int)
    requires
        is_full_frame(lines, width),
        0 <= index < lines.len(),
    ensures
        exists|p: int| 0 <= p < lines.len() && (#[trigger] lines[p]).0 == index,
{
    let indices = Seq::new(lines.len(), |p: int| lines[p].0 as int);
    let all = set_int_range(0, lines.len() as int);
    assert forall|p: int, q: int|
        0 <= p < indices.len() && 0 <= q < indices.len() && p != q implies indices[p]
        != indices[q] by {
        if p < q {
            assert(lines[p].0 != lines[q].0);
        } else {
            assert(lines[q].0 != lines[p].0);
        }
    }
    indices.unique_seq_to_set();
    lemma_int_range(0, lines.len() as int);
    seq_to_set_is_finite(indices);
    assert forall|j: int| indices.to_set().contains(j) implies all.contains(j) by {
        let p = choose|p: int| 0 <= p < indices.len() && indices[p] == j;
        assert(lines[p].0 < lines.len());
    }
    lemma_subset_equality(indices.to_set(), all);
    assert(all.contains(index));
    let p = choose|p: int| 0 <= p < indices.len() && indices[p] == index;
    assert(lines[p].0 == index);
}

} // verus!
