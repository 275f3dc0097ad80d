//! The grid: which occupants sit in which cell.
//!
//! A grid is a mapping from cell identifier to the occupants of that cell, in
//! the order in which they were placed. An occupant sits in at most one cell,
//! and a cell without occupants is not in the mapping at all.

use crate::text::{find_text, first_index, lemma_first_index, same_texts, texts};
use vstd::std_specs::cmp::PartialEqSpecImpl;
use vstd::prelude::*;

verus! {

/// What a grid is: cell identifier to occupants, both as character sequences.
pub type Cells = Map<Seq<char>, Seq<Seq<char>>>;

/// `row` with the first occurrence of `occupant` taken out.
pub open spec fn without_occupant(row: Seq<Seq<char>>, occupant: Seq<char>) -> Seq<Seq<char>> {
    let p = first_index(row, occupant);
    if p < row.len() {
        row.remove(p)
    } else {
        row
    }
}

/// The occupants of `cell`; none for a cell that the grid does not hold.
pub open spec fn occupants(cells: Cells, cell: Seq<char>) -> Seq<Seq<char>> {
    if cells.dom().contains(cell) {
        cells[cell]
    } else {
        Seq::empty()
    }
}

/// Whether `occupant` sits in `cell`.
pub open spec fn sits_in(cells: Cells, occupant: Seq<char>, cell: Seq<char>) -> bool {
    cells.dom().contains(cell) && cells[cell].contains(occupant)
}

/// Whether `occupant` sits anywhere.
pub open spec fn placed(cells: Cells, occupant: Seq<char>) -> bool {
    exists|cell: Seq<char>| sits_in(cells, occupant, cell)
}

/// An occupant appears at most once in the whole grid.
pub open spec fn single_occupancy(cells: Cells) -> bool {
    forall|c1: Seq<char>, c2: Seq<char>, i: int, j: int|
        #![trigger cells[c1][i], cells[c2][j]]
        cells.dom().contains(c1) && cells.dom().contains(c2) && 0 <= i < cells[c1].len() && 0 <= j
            < cells[c2].len() && cells[c1][i] == cells[c2][j] ==> c1 == c2 && i == j
}

/// No cell of the mapping is empty.
pub open spec fn no_empty_cell(cells: Cells) -> bool {
    forall|c: Seq<char>| cells.dom().contains(c) ==> (#[trigger] cells[c]).len() > 0
}

/// The two invariants of a grid.
pub open spec fn grid_wf(cells: Cells) -> bool {
    single_occupancy(cells) && no_empty_cell(cells)
}

/// The grid after `occupant` has left: it is taken out of every cell, and
/// cells left empty are dropped.
pub open spec fn unassigned(cells: Cells, occupant: Seq<char>) -> Cells {
    Map::new(
        |c: Seq<char>| cells.dom().contains(c) && without_occupant(cells[c], occupant).len() > 0,
        |c: Seq<char>| without_occupant(cells[c], occupant),
    )
}

/// The grid after `occupant` has been placed in `cell`: it leaves where it
/// was, then joins the end of `cell`.
pub open spec fn assigned(cells: Cells, occupant: Seq<char>, cell: Seq<char>) -> Cells {
    let base = unassigned(cells, occupant);
    base.insert(cell, occupants(base, cell).push(occupant))
}

/// A row that does not hold the occupant is left as it is.
proof fn lemma_without_absent(row: Seq<Seq<char>>, occupant: Seq<char>)
    requires
        !row.contains(occupant),
    ensures
        without_occupant(row, occupant) == row,
{
    lemma_first_index(row, occupant);
    let p = first_index(row, occupant);
    if p < row.len() {
        assert(row[p] == occupant);
    }
}

/// In a row that holds the occupant once, at `p`, it is `p` that is taken out.
proof fn lemma_without_at(row: Seq<Seq<char>>, occupant: Seq<char>, p: int)
    requires
        0 <= p < row.len(),
        row[p] == occupant,
        forall|i: int| 0 <= i < row.len() && row[i] == occupant ==> i == p,
    ensures
        without_occupant(row, occupant) == row.remove(p),
        !row.remove(p).contains(occupant),
{
    lemma_first_index(row, occupant);
    let q = first_index(row, occupant);
    if q >= row.len() {
        assert(row[p] == occupant);
    }
    let rest = row.remove(p);
    if rest.contains(occupant) {
        let i = choose|i: int| 0 <= i < rest.len() && rest[i] == occupant;
        if i < p {
            assert(rest[i] == row[i]);
        } else {
            assert(rest[i] == row[i + 1]);
        }
    }
}

/// Where the element at `i` of a row without the occupant stood in the row.
spec fn origin_index(row: Seq<Seq<char>>, occupant: Seq<char>, i: int) -> int {
    let p = first_index(row, occupant);
    if p < row.len() && i >= p {
        i + 1
    } else {
        i
    }
}

/// Every element of a row without the occupant comes from the row itself.
proof fn lemma_origin_index(row: Seq<Seq<char>>, occupant: Seq<char>, i: int)
    requires
        0 <= i < without_occupant(row, occupant).len(),
    ensures
        0 <= origin_index(row, occupant, i) < row.len(),
        row[origin_index(row, occupant, i)] == without_occupant(row, occupant)[i],
{
    lemma_first_index(row, occupant);
}

/// What a cell of a well-formed grid holds after `occupant` has left.
proof fn lemma_row_after(cells: Cells, occupant: Seq<char>, cell: Seq<char>)
    requires
        grid_wf(cells),
        cells.dom().contains(cell),
    ensures
        !without_occupant(cells[cell], occupant).contains(occupant),
        !cells[cell].contains(occupant) ==> without_occupant(cells[cell], occupant) == cells[cell],
{
    let row = cells[cell];
    lemma_first_index(row, occupant);
    let p = first_index(row, occupant);
    if p < row.len() {
        assert forall|i: int| 0 <= i < row.len() && row[i] == occupant implies i == p by {
            assert(cells[cell][i] == cells[cell][p]);
        }
        lemma_without_at(row, occupant, p);
    } else {
        assert(!row.contains(occupant));
    }
}

/// Leaving keeps the grid's invariants, and the one who left is nowhere.
pub proof fn lemma_unassigned_wf(cells: Cells, occupant: Seq<char>)
    requires
        grid_wf(cells),
    ensures
        grid_wf(unassigned(cells, occupant)),
        !placed(unassigned(cells, occupant), occupant),
{
    let after = unassigned(cells, occupant);
    assert forall|c1: Seq<char>, c2: Seq<char>, i: int, j: int|
        after.dom().contains(c1) && after.dom().contains(c2) && 0 <= i < after[c1].len() && 0 <= j
            < after[c2].len() && #[trigger] after[c1][i] == #[trigger] after[c2][j] implies c1 == c2
        && i == j by {
        lemma_origin_index(cells[c1], occupant, i);
        lemma_origin_index(cells[c2], occupant, j);
        let i0 = origin_index(cells[c1], occupant, i);
        let j0 = origin_index(cells[c2], occupant, j);
        assert(cells[c1][i0] == cells[c2][j0]);
    }
    if placed(after, occupant) {
        let c = choose|c: Seq<char>| sits_in(after, occupant, c);
        lemma_row_after(cells, occupant, c);
    }
}

/// Arriving keeps the grid's invariants.
pub proof fn lemma_assigned_wf(cells: Cells, occupant: Seq<char>, cell: Seq<char>)
    requires
        grid_wf(cells),
    ensures
        grid_wf(assigned(cells, occupant, cell)),
        sits_in(assigned(cells, occupant, cell), occupant, cell),
        occupants(assigned(cells, occupant, cell), cell).last() == occupant,
{
    let base = unassigned(cells, occupant);
    let after = assigned(cells, occupant, cell);
    lemma_unassigned_wf(cells, occupant);
    let row = occupants(base, cell).push(occupant);
    assert(after[cell] == row);
    assert(row[row.len() - 1] == occupant);
    assert forall|c1: Seq<char>, c2: Seq<char>, i: int, j: int|
        after.dom().contains(c1) && after.dom().contains(c2) && 0 <= i < after[c1].len() && 0 <= j
            < after[c2].len() && #[trigger] after[c1][i] == #[trigger] after[c2][j] implies c1 == c2
        && i == j by {
        let x = after[c1][i];
        if x == occupant {
            // the newcomer stands only at the end of `cell`
            if !(c1 == cell && i == row.len() - 1) {
                let c = c1;
                if c == cell {
                    assert(base.dom().contains(cell));
                    assert(base[cell][i] == occupant);
                } else {
                    assert(base[c][i] == occupant);
                }
                assert(base[c].contains(occupant));
                assert(sits_in(base, occupant, c));
                assert(false);
            }
            if !(c2 == cell && j == row.len() - 1) {
                let c = c2;
                if c == cell {
                    assert(base.dom().contains(cell));
                    assert(base[cell][j] == occupant);
                } else {
                    assert(base[c][j] == occupant);
                }
                assert(base[c].contains(occupant));
                assert(sits_in(base, occupant, c));
                assert(false);
            }
        } else {
            assert(base.dom().contains(c1) && base[c1][i] == x);
            assert(base.dom().contains(c2) && base[c2][j] == x);
            assert(base[c1][i] == base[c2][j]);
        }
    }
}

/// The cell in which `occupant` sits, if it sits anywhere.
pub open spec fn cell_of(cells: Cells, occupant: Seq<char>) -> Option<Seq<char>> {
    if placed(cells, occupant) {
        Some(choose|cell: Seq<char>| sits_in(cells, occupant, cell))
    } else {
        None
    }
}

/// In a well-formed grid the cell of an occupant is the only one it sits in.
pub proof fn lemma_cell_of(cells: Cells, occupant: Seq<char>, cell: Seq<char>)
    requires
        grid_wf(cells),
        sits_in(cells, occupant, cell),
    ensures
        cell_of(cells, occupant) == Some(cell),
{
    let found = choose|c: Seq<char>| sits_in(cells, occupant, c);
    let i = choose|i: int| 0 <= i < cells[cell].len() && cells[cell][i] == occupant;
    let j = choose|j: int| 0 <= j < cells[found].len() && cells[found][j] == occupant;
    assert(cells[cell][i] == cells[found][j]);
}

/// Taking out an occupant who sits nowhere changes nothing.
pub proof fn lemma_unassign_absent(cells: Cells, occupant: Seq<char>)
    requires
        grid_wf(cells),
        !placed(cells, occupant),
    ensures
        unassigned(cells, occupant) == cells,
{
    let after = unassigned(cells, occupant);
    assert forall|c: Seq<char>| cells.dom().contains(c) implies without_occupant(
        cells[c],
        occupant,
    ) == cells[c] by {
        if cells[c].contains(occupant) {
            assert(sits_in(cells, occupant, c));
        }
        lemma_without_absent(cells[c], occupant);
    }
    assert(after =~= cells);
}

/// Placing an occupant where it was just placed changes nothing: it is still
/// the last of that cell, and still there only once.
pub proof fn lemma_assign_twice(cells: Cells, occupant: Seq<char>, cell: Seq<char>)
    requires
        grid_wf(cells),
    ensures
        assigned(assigned(cells, occupant, cell), occupant, cell) == assigned(
            cells,
            occupant,
            cell,
        ),
        cell_of(assigned(cells, occupant, cell), occupant) == Some(cell),
        grid_wf(assigned(cells, occupant, cell)),
{
    let base = unassigned(cells, occupant);
    let once = assigned(cells, occupant, cell);
    lemma_unassigned_wf(cells, occupant);
    lemma_assigned_wf(cells, occupant, cell);
    lemma_cell_of(once, occupant, cell);
    let row = occupants(base, cell).push(occupant);
    let last = row.len() - 1;
    assert(once[cell] == row);
    // the newcomer is in `cell` only at the end
    assert forall|i: int| 0 <= i < row.len() && row[i] == occupant implies i == last by {
        assert(once[cell][i] == once[cell][last]);
    }
    lemma_without_at(row, occupant, last);
    assert(row.remove(last) =~= occupants(base, cell));
    let again = unassigned(once, occupant);
    assert forall|c: Seq<char>| c != cell && once.dom().contains(c) implies without_occupant(
        once[c],
        occupant,
    ) == once[c] by {
        if once[c].contains(occupant) {
            let i = choose|i: int| 0 <= i < once[c].len() && once[c][i] == occupant;
            assert(once[c][i] == once[cell][last]);
        }
        lemma_without_absent(once[c], occupant);
    }
    assert(again =~= base) by {
        assert forall|c: Seq<char>| again.dom().contains(c) <==> base.dom().contains(c) by {
            if c == cell {
                if base.dom().contains(cell) {
                    assert(base[cell].len() > 0);
                }
            }
        }
    }
}

/// Placing an occupant in one cell and then in another leaves it in the
/// second only, and the first is gone from the grid if the occupant was alone
/// there.
pub proof fn lemma_assign_moves(
    cells: Cells,
    occupant: Seq<char>,
    first: Seq<char>,
    second: Seq<char>,
)
    requires
        grid_wf(cells),
        first != second,
    ensures
        ({
            let moved = assigned(assigned(cells, occupant, first), occupant, second);
            &&& grid_wf(moved)
            &&& cell_of(moved, occupant) == Some(second)
            &&& !sits_in(moved, occupant, first)
            &&& (forall|i: int|
                0 <= i < occupants(cells, first).len() ==> occupants(cells, first)[i] == occupant)
                ==> !moved.dom().contains(first)
        }),
{
    let base = unassigned(cells, occupant);
    let once = assigned(cells, occupant, first);
    let moved = assigned(once, occupant, second);
    lemma_unassigned_wf(cells, occupant);
    lemma_assigned_wf(cells, occupant, first);
    lemma_unassigned_wf(once, occupant);
    lemma_assigned_wf(once, occupant, second);
    lemma_cell_of(moved, occupant, second);
    if sits_in(moved, occupant, first) {
        lemma_cell_of(moved, occupant, first);
    }
    if forall|i: int|
        0 <= i < occupants(cells, first).len() ==> occupants(cells, first)[i] == occupant {
        // nobody but the occupant was in `first`, so nothing of it is left
        if base.dom().contains(first) {
            let row = cells[first];
            lemma_origin_index(row, occupant, 0);
            lemma_row_after(cells, occupant, first);
            let left = without_occupant(row, occupant);
            let origin = origin_index(row, occupant, 0);
            assert(occupants(cells, first)[origin] == occupant);
            assert(left[0] == occupant);
            assert(left.contains(occupant));
        }
        let row = occupants(base, first).push(occupant);
        assert(row =~= seq![occupant]);
        assert(once[first] == row);
        lemma_first_index(row, occupant);
        assert(without_occupant(row, occupant).len() == 0);
        assert(!unassigned(once, occupant).dom().contains(first));
    }
}

/// The grid: cells by identifier, each with its occupants in the order in
/// which they arrived.
#[derive(Debug)]
pub struct GridState {
    assignments: Vec<(String, Vec<String>)>,
}

/// The cells of a grid as they are stored: identifier and occupants.
spec fn stored(assignments: Seq<(String, Vec<String>)>) -> Seq<(Seq<char>, Seq<Seq<char>>)> {
    Seq::new(assignments.len(), |i: int| (assignments[i].0@, texts(assignments[i].1@)))
}

/// Stored cells are sound when no identifier occurs twice, no cell is empty
/// and no occupant occurs twice.
spec fn stored_wf(e: Seq<(Seq<char>, Seq<Seq<char>>)>) -> bool {
    &&& forall|i: int, j: int| 0 <= i < e.len() && 0 <= j < e.len() && e[i].0 == e[j].0 ==> i == j
    &&& forall|i: int| 0 <= i < e.len() ==> (#[trigger] e[i]).1.len() > 0
    &&& forall|i: int, j: int, a: int, b: int|
        #![trigger e[i].1[a], e[j].1[b]]
        0 <= i < e.len() && 0 <= j < e.len() && 0 <= a < e[i].1.len() && 0 <= b < e[j].1.len()
            && e[i].1[a] == e[j].1[b] ==> i == j && a == b
}

/// The mapping that stored cells stand for.
spec fn mapping(e: Seq<(Seq<char>, Seq<Seq<char>>)>) -> Cells {
    Map::new(
        |c: Seq<char>| exists|i: int| 0 <= i < e.len() && (#[trigger] e[i]).0 == c,
        |c: Seq<char>| e[choose|i: int| 0 <= i < e.len() && (#[trigger] e[i]).0 == c].1,
    )
}

/// Each stored cell is found in the mapping under its identifier.
proof fn lemma_mapping_at(e: Seq<(Seq<char>, Seq<Seq<char>>)>, i: int)
    requires
        stored_wf(e),
        0 <= i < e.len(),
    ensures
        mapping(e).dom().contains(e[i].0),
        mapping(e)[e[i].0] == e[i].1,
{
    let c = e[i].0;
    let j = choose|j: int| 0 <= j < e.len() && (#[trigger] e[j]).0 == c;
    assert(e[j].0 == e[i].0);
}

/// Each cell of the mapping is one of the stored cells.
proof fn lemma_mapping_from(e: Seq<(Seq<char>, Seq<Seq<char>>)>, c: Seq<char>) -> (i: int)
    requires
        stored_wf(e),
        mapping(e).dom().contains(c),
    ensures
        0 <= i < e.len(),
        e[i].0 == c,
        mapping(e)[c] == e[i].1,
{
    let i = choose|i: int| 0 <= i < e.len() && (#[trigger] e[i]).0 == c;
    lemma_mapping_at(e, i);
    i
}

/// Sound stored cells stand for a well-formed grid.
proof fn lemma_mapping_wf(e: Seq<(Seq<char>, Seq<Seq<char>>)>)
    requires
        stored_wf(e),
    ensures
        grid_wf(mapping(e)),
{
    let m = mapping(e);
    assert forall|c: Seq<char>| m.dom().contains(c) implies (#[trigger] m[c]).len() > 0 by {
        let i = lemma_mapping_from(e, c);
    }
    assert forall|c1: Seq<char>, c2: Seq<char>, a: int, b: int|
        m.dom().contains(c1) && m.dom().contains(c2) && 0 <= a < m[c1].len() && 0 <= b
            < m[c2].len() && #[trigger] m[c1][a] == #[trigger] m[c2][b] implies c1 == c2 && a
        == b by {
        let i = lemma_mapping_from(e, c1);
        let j = lemma_mapping_from(e, c2);
        assert(e[i].1[a] == e[j].1[b]);
    }
}

/// No stored cell holds `occupant`.
spec fn stored_absent(e: Seq<(Seq<char>, Seq<Seq<char>>)>, occupant: Seq<char>) -> bool {
    forall|i: int, a: int|
        0 <= i < e.len() && 0 <= a < e[i].1.len() ==> #[trigger] e[i].1[a] != occupant
}

/// An occupant that no stored cell holds is placed nowhere, and the reverse.
proof fn lemma_stored_absent(e: Seq<(Seq<char>, Seq<Seq<char>>)>, occupant: Seq<char>)
    requires
        stored_wf(e),
    ensures
        stored_absent(e, occupant) <==> !placed(mapping(e), occupant),
{
    let m = mapping(e);
    if placed(m, occupant) {
        let c = choose|c: Seq<char>| sits_in(m, occupant, c);
        let i = lemma_mapping_from(e, c);
        let a = choose|a: int| 0 <= a < m[c].len() && m[c][a] == occupant;
        assert(e[i].1[a] == occupant);
    }
    if !stored_absent(e, occupant) {
        let (i, a) = choose|i: int, a: int|
            0 <= i < e.len() && 0 <= a < e[i].1.len() && #[trigger] e[i].1[a] == occupant;
        lemma_mapping_at(e, i);
        assert(m[e[i].0][a] == occupant);
        assert(sits_in(m, occupant, e[i].0));
    }
}

/// The stored cells after the occupant found at place `p` of cell `i` has
/// left.
spec fn stored_leave(e: Seq<(Seq<char>, Seq<Seq<char>>)>, i: int, p: int) -> Seq<
    (Seq<char>, Seq<Seq<char>>),
> {
    let row = e[i].1.remove(p);
    if row.len() > 0 {
        e.update(i, (e[i].0, row))
    } else {
        e.remove(i)
    }
}

proof fn lemma_stored_leave(
    e: Seq<(Seq<char>, Seq<Seq<char>>)>,
    i: int,
    p: int,
    occupant: Seq<char>,
)
    requires
        stored_wf(e),
        0 <= i < e.len(),
        0 <= p < e[i].1.len(),
        e[i].1[p] == occupant,
    ensures
        stored_wf(stored_leave(e, i, p)),
        mapping(stored_leave(e, i, p)) == unassigned(mapping(e), occupant),
{
    let e2 = stored_leave(e, i, p);
    let row = e[i].1.remove(p);
    let m = mapping(e);
    let kept = row.len() > 0;
    // where a cell of `e2` stood in `e`
    let back = |j: int|
        if !kept && j >= i {
            j + 1
        } else {
            j
        };
    assert forall|j: int| 0 <= j < e2.len() implies 0 <= back(j) < e.len() && (#[trigger] e2[j]).0
        == e[back(j)].0 && e2[j].1 == without_occupant(e[back(j)].1, occupant) by {
        let k = back(j);
        if k == i {
            assert forall|t: int| 0 <= t < e[i].1.len() && e[i].1[t] == occupant implies t == p by {
                assert(e[i].1[t] == e[i].1[p]);
            }
            lemma_without_at(e[i].1, occupant, p);
        } else {
            if e[k].1.contains(occupant) {
                let t = choose|t: int| 0 <= t < e[k].1.len() && e[k].1[t] == occupant;
                assert(e[k].1[t] == e[i].1[p]);
            }
            lemma_without_absent(e[k].1, occupant);
        }
    }
    assert forall|j: int, k: int|
        0 <= j < e2.len() && 0 <= k < e2.len() && e2[j].0 == e2[k].0 implies j == k by {
        assert(e[back(j)].0 == e[back(k)].0);
    }
    assert forall|j: int| 0 <= j < e2.len() implies (#[trigger] e2[j]).1.len() > 0 by {
        if back(j) != i {
            assert(e[back(j)].1.len() > 0);
        }
    }
    assert forall|j: int, k: int, a: int, b: int|
        0 <= j < e2.len() && 0 <= k < e2.len() && 0 <= a < e2[j].1.len() && 0 <= b
            < e2[k].1.len() && #[trigger] e2[j].1[a] == #[trigger] e2[k].1[b] implies j == k && a
        == b by {
        lemma_origin_index(e[back(j)].1, occupant, a);
        lemma_origin_index(e[back(k)].1, occupant, b);
        let a0 = origin_index(e[back(j)].1, occupant, a);
        let b0 = origin_index(e[back(k)].1, occupant, b);
        assert(e[back(j)].1[a0] == e[back(k)].1[b0]);
    }
    let target = unassigned(m, occupant);
    assert forall|c: Seq<char>| mapping(e2).dom().contains(c) implies target.dom().contains(c)
        && target[c] == mapping(e2)[c] by {
        let j = lemma_mapping_from(e2, c);
        lemma_mapping_at(e, back(j));
    }
    assert forall|c: Seq<char>| target.dom().contains(c) implies mapping(e2).dom().contains(c) by {
        let k = lemma_mapping_from(e, c);
        let j = if !kept && k > i {
            k - 1
        } else {
            k
        };
        if k == i {
            assert forall|t: int| 0 <= t < e[i].1.len() && e[i].1[t] == occupant implies t == p by {
                assert(e[i].1[t] == e[i].1[p]);
            }
            lemma_without_at(e[i].1, occupant, p);
        }
        assert(back(j) == k);
        lemma_mapping_at(e2, j);
    }
    assert(mapping(e2) =~= target);
}

/// The stored cells after `occupant`, who sat nowhere, has joined cell `j`.
proof fn lemma_stored_join(
    e: Seq<(Seq<char>, Seq<Seq<char>>)>,
    j: int,
    occupant: Seq<char>,
)
    requires
        stored_wf(e),
        stored_absent(e, occupant),
        0 <= j < e.len(),
    ensures
        stored_wf(e.update(j, (e[j].0, e[j].1.push(occupant)))),
        mapping(e.update(j, (e[j].0, e[j].1.push(occupant)))) == mapping(e).insert(
            e[j].0,
            occupants(mapping(e), e[j].0).push(occupant),
        ),
{
    let cell = e[j].0;
    let e2 = e.update(j, (cell, e[j].1.push(occupant)));
    let m = mapping(e);
    lemma_mapping_at(e, j);
    assert forall|i: int, k: int, a: int, b: int|
        0 <= i < e2.len() && 0 <= k < e2.len() && 0 <= a < e2[i].1.len() && 0 <= b
            < e2[k].1.len() && #[trigger] e2[i].1[a] == #[trigger] e2[k].1[b] implies i == k && a
        == b by {
        let new_a = i == j && a == e[j].1.len();
        let new_b = k == j && b == e[j].1.len();
        if !new_a {
            assert(e2[i].1[a] == e[i].1[a]);
        }
        if !new_b {
            assert(e2[k].1[b] == e[k].1[b]);
        }
    }
    assert forall|i: int, k: int|
        0 <= i < e2.len() && 0 <= k < e2.len() && e2[i].0 == e2[k].0 implies i == k by {
        assert(e[i].0 == e[k].0);
    }
    let target = m.insert(cell, occupants(m, cell).push(occupant));
    assert forall|c: Seq<char>| mapping(e2).dom().contains(c) implies target.dom().contains(c)
        && target[c] == mapping(e2)[c] by {
        let i = lemma_mapping_from(e2, c);
        lemma_mapping_at(e, i);
    }
    assert forall|c: Seq<char>| target.dom().contains(c) implies mapping(e2).dom().contains(c) by {
        let i = if c == cell {
            j
        } else {
            lemma_mapping_from(e, c)
        };
        assert(e2[i].0 == c);
        lemma_mapping_at(e2, i);
    }
    assert(mapping(e2) =~= target);
}

/// The stored cells after `occupant`, who sat nowhere, has opened `cell`.
proof fn lemma_stored_open(
    e: Seq<(Seq<char>, Seq<Seq<char>>)>,
    cell: Seq<char>,
    occupant: Seq<char>,
)
    requires
        stored_wf(e),
        stored_absent(e, occupant),
        forall|i: int| 0 <= i < e.len() ==> (#[trigger] e[i]).0 != cell,
    ensures
        stored_wf(e.push((cell, seq![occupant]))),
        mapping(e.push((cell, seq![occupant]))) == mapping(e).insert(
            cell,
            occupants(mapping(e), cell).push(occupant),
        ),
{
    let e2 = e.push((cell, seq![occupant]));
    let m = mapping(e);
    let n = e.len() as int;
    if m.dom().contains(cell) {
        let i = lemma_mapping_from(e, cell);
    }
    assert(occupants(m, cell).push(occupant) =~= seq![occupant]);
    assert forall|i: int, k: int, a: int, b: int|
        0 <= i < e2.len() && 0 <= k < e2.len() && 0 <= a < e2[i].1.len() && 0 <= b
            < e2[k].1.len() && #[trigger] e2[i].1[a] == #[trigger] e2[k].1[b] implies i == k && a
        == b by {
        if i < n {
            assert(e2[i].1[a] == e[i].1[a]);
        }
        if k < n {
            assert(e2[k].1[b] == e[k].1[b]);
        }
    }
    assert forall|i: int, k: int|
        0 <= i < e2.len() && 0 <= k < e2.len() && e2[i].0 == e2[k].0 implies i == k by {
        if i < n {
            assert(e2[i] == e[i]);
        }
        if k < n {
            assert(e2[k] == e[k]);
        }
    }
    assert forall|i: int| 0 <= i < e2.len() implies (#[trigger] e2[i]).1.len() > 0 by {
        if i < n {
            assert(e2[i] == e[i]);
        }
    }
    let target = m.insert(cell, occupants(m, cell).push(occupant));
    assert forall|c: Seq<char>| mapping(e2).dom().contains(c) implies target.dom().contains(c)
        && target[c] == mapping(e2)[c] by {
        let i = lemma_mapping_from(e2, c);
        if i < n {
            assert(e2[i] == e[i]);
            lemma_mapping_at(e, i);
        }
    }
    assert forall|c: Seq<char>| target.dom().contains(c) implies mapping(e2).dom().contains(c) by {
        let i = if c == cell {
            n
        } else {
            lemma_mapping_from(e, c)
        };
        assert(e2[i].0 == c);
        lemma_mapping_at(e2, i);
    }
    assert(mapping(e2) =~= target);
}

impl View for GridState {
    type V = Cells;

    closed spec fn view(&self) -> Cells {
        mapping(stored(self.assignments@))
    }
}

impl Default for GridState {
    fn default() -> (grid: GridState)
        ensures
            grid@ == Map::<Seq<char>, Seq<Seq<char>>>::empty(),
    {
        GridState::new()
    }
}

impl Clone for GridState {
    fn clone(&self) -> (copy: GridState)
        ensures
            copy@ == self@,
    {
        proof {
            use_type_invariant(self);
        }
        let mut assignments: Vec<(String, Vec<String>)> = Vec::new();
        let mut i: usize = 0;
        while i < self.assignments.len()
            invariant
                i <= self.assignments.len(),
                assignments.len() == i,
                forall|k: int|
                    0 <= k < i ==> (#[trigger] stored(assignments@)[k]) == stored(
                        self.assignments@,
                    )[k],
            decreases self.assignments.len() - i,
        {
            let row = &self.assignments[i].1;
            let mut members: Vec<String> = Vec::new();
            let mut k: usize = 0;
            while k < row.len()
                invariant
                    k <= row.len(),
                    members.len() == k,
                    forall|t: int| 0 <= t < k ==> members[t]@ == row[t]@,
                decreases row.len() - k,
            {
                members.push(row[k].clone());
                k = k + 1;
            }
            assert(texts(members@) =~= texts(row@));
            let ghost before = stored(assignments@);
            assignments.push((self.assignments[i].0.clone(), members));
            assert forall|k: int| 0 <= k < i + 1 implies (#[trigger] stored(assignments@)[k])
                == stored(self.assignments@)[k] by {
                if k < i {
                    assert(stored(assignments@)[k] == before[k]);
                }
            }
            i = i + 1;
        }
        assert(stored(assignments@) =~= stored(self.assignments@));
        GridState { assignments }
    }
}

/// Whether every cell of `a` is a cell of `b`, with the same occupants in the
/// same order.
pub open spec fn cells_within(a: Cells, b: Cells) -> bool {
    forall|c: Seq<char>| #[trigger] a.dom().contains(c) ==> b.dom().contains(c) && b[c] == a[c]
}

/// Two grids are equal when they are the same mapping, in whatever order
/// their cells came to be.
impl PartialEq for GridState {
    fn eq(&self, other: &GridState) -> (same: bool) {
        let same = self.within(other) && other.within(self);
        proof {
            if same {
                assert(self@ =~= other@);
            }
        }
        same
    }
}

impl Eq for GridState {

}

impl PartialEqSpecImpl for GridState {
    open spec fn obeys_eq_spec() -> bool {
        true
    }

    open spec fn eq_spec(&self, other: &GridState) -> bool {
        self@ == other@
    }
}

impl GridState {
    #[verifier::type_invariant]
    spec fn sound(self) -> bool {
        stored_wf(stored(self.assignments@))
    }

    /// The grid with no cell.
    pub fn new() -> (grid: GridState)
        ensures
            grid@ == Map::<Seq<char>, Seq<Seq<char>>>::empty(),
    {
        let grid = GridState { assignments: Vec::new() };
        assert(grid@ =~= Map::<Seq<char>, Seq<Seq<char>>>::empty());
        grid
    }

    /// Index of the stored cell named `cell`.
    fn find_cell(&self, cell: &str) -> (found: Option<usize>)
        ensures
            match found {
                Some(i) => i < self.assignments.len() && stored(self.assignments@)[i as int].0
                    == cell@,
                None => forall|i: int|
                    0 <= i < self.assignments.len() ==> (#[trigger] stored(
                        self.assignments@,
                    )[i]).0 != cell@,
            },
    {
        let wanted = cell.to_owned();
        let mut i: usize = 0;
        while i < self.assignments.len()
            invariant
                i <= self.assignments.len(),
                wanted@ == cell@,
                forall|k: int| 0 <= k < i ==> (#[trigger] stored(self.assignments@)[k]).0 != cell@,
            decreases self.assignments.len() - i,
        {
            if self.assignments[i].0 == wanted {
                return Some(i);
            }
            i = i + 1;
        }
        None
    }

    /// Index of the stored cell that holds `occupant`, and its place there.
    fn locate(&self, occupant: &str) -> (found: Option<(usize, usize)>)
        ensures
            match found {
                Some((i, p)) => {
                    &&& i < self.assignments.len()
                    &&& p < self.assignments[i as int].1.len()
                    &&& stored(self.assignments@)[i as int].1[p as int] == occupant@
                },
                None => stored_absent(stored(self.assignments@), occupant@),
            },
    {
        let ghost e = stored(self.assignments@);
        let wanted = occupant.to_owned();
        let mut i: usize = 0;
        while i < self.assignments.len()
            invariant
                i <= self.assignments.len(),
                e == stored(self.assignments@),
                wanted@ == occupant@,
                forall|k: int, a: int|
                    0 <= k < i && 0 <= a < e[k].1.len() ==> #[trigger] e[k].1[a] != occupant@,
            decreases self.assignments.len() - i,
        {
            match find_text(&self.assignments[i].1, 0, &wanted) {
                Some(p) => {
                    return Some((i, p));
                },
                None => {
                    assert forall|a: int| 0 <= a < e[i as int].1.len() implies #[trigger] e[i as int].1[a]
                        != occupant@ by {
                        assert(e[i as int].1[a] == self.assignments[i as int].1[a]@);
                    }
                },
            }
            i = i + 1;
        }
        None
    }

    /// Whether every cell of this grid is a cell of `other`, with the same
    /// occupants in the same order.
    fn within(&self, other: &GridState) -> (all: bool)
        ensures
            all == cells_within(self@, other@),
    {
        let ghost mine = stored(self.assignments@);
        let ghost theirs = stored(other.assignments@);
        proof {
            use_type_invariant(self);
            use_type_invariant(other);
        }
        let mut i: usize = 0;
        while i < self.assignments.len()
            invariant
                i <= self.assignments.len(),
                mine == stored(self.assignments@),
                theirs == stored(other.assignments@),
                stored_wf(mine),
                stored_wf(theirs),
                forall|k: int|
                    0 <= k < i ==> other@.dom().contains((#[trigger] mine[k]).0) && other@[mine[k].0]
                        == mine[k].1,
            decreases self.assignments.len() - i,
        {
            let ghost c = mine[i as int].0;
            proof {
                lemma_mapping_at(mine, i as int);
            }
            match other.find_cell(self.assignments[i].0.as_str()) {
                None => {
                    proof {
                        if other@.dom().contains(c) {
                            let j = lemma_mapping_from(theirs, c);
                        }
                        assert(self@.dom().contains(c) && !other@.dom().contains(c));
                    }
                    return false;
                },
                Some(j) => {
                    proof {
                        lemma_mapping_at(theirs, j as int);
                    }
                    if !same_texts(&self.assignments[i].1, &other.assignments[j].1) {
                        assert(self@.dom().contains(c) && other@[c] != self@[c]);
                        return false;
                    }
                },
            }
            i = i + 1;
        }
        proof {
            assert forall|c: Seq<char>| self@.dom().contains(c) implies other@.dom().contains(c)
                && other@[c] == self@[c] by {
                let k = lemma_mapping_from(mine, c);
            }
        }
        true
    }

    /// Whether the grid holds no cell at all.
    pub fn is_empty(&self) -> (empty: bool)
        ensures
            empty == (self@ == Map::<Seq<char>, Seq<Seq<char>>>::empty()),
            grid_wf(self@),
    {
        let empty = self.assignments.len() == 0;
        proof {
            use_type_invariant(self);
            let e = stored(self.assignments@);
            lemma_mapping_wf(e);
            if empty {
                assert(self@ =~= Map::<Seq<char>, Seq<Seq<char>>>::empty());
            } else {
                lemma_mapping_at(e, 0);
            }
        }
        empty
    }

    /// Whether the grid holds `cell`, which it does exactly when somebody sits
    /// in it.
    pub fn contains_cell(&self, cell: &str) -> (held: bool)
        ensures
            held == self@.dom().contains(cell@),
            held == (occupants(self@, cell@).len() > 0),
            grid_wf(self@),
    {
        let ghost e = stored(self.assignments@);
        proof {
            use_type_invariant(self);
            lemma_mapping_wf(e);
        }
        match self.find_cell(cell) {
            Some(i) => {
                proof {
                    lemma_mapping_at(e, i as int);
                }
                true
            },
            None => {
                proof {
                    if self@.dom().contains(cell@) {
                        let i = lemma_mapping_from(e, cell@);
                    }
                }
                false
            },
        }
    }

    /// The occupants of `cell` in the order in which they arrived; none for a
    /// cell that the grid does not hold.
    pub fn occupants_of(&self, cell: &str) -> (list: Vec<String>)
        ensures
            texts(list@) == occupants(self@, cell@),
            grid_wf(self@),
    {
        let ghost e = stored(self.assignments@);
        proof {
            use_type_invariant(self);
            lemma_mapping_wf(e);
        }
        match self.find_cell(cell) {
            Some(i) => {
                let row = &self.assignments[i].1;
                let mut list: Vec<String> = Vec::new();
                let mut k: usize = 0;
                while k < row.len()
                    invariant
                        k <= row.len(),
                        list.len() == k,
                        forall|t: int| 0 <= t < k ==> list[t]@ == row[t]@,
                    decreases row.len() - k,
                {
                    list.push(row[k].clone());
                    k = k + 1;
                }
                proof {
                    lemma_mapping_at(e, i as int);
                    assert(texts(list@) =~= e[i as int].1);
                }
                list
            },
            None => {
                proof {
                    if self@.dom().contains(cell@) {
                        let i = lemma_mapping_from(e, cell@);
                    }
                }
                let list: Vec<String> = Vec::new();
                assert(texts(list@) =~= Seq::<Seq<char>>::empty());
                list
            },
        }
    }

    /// The cell in which `occupant` sits, if it sits anywhere.
    pub fn cell_of(&self, occupant: &str) -> (cell: Option<String>)
        ensures
            match cell {
                Some(c) => cell_of(self@, occupant@) == Some(c@),
                None => cell_of(self@, occupant@) is None,
            },
            grid_wf(self@),
    {
        let ghost e = stored(self.assignments@);
        proof {
            use_type_invariant(self);
            lemma_mapping_wf(e);
            lemma_stored_absent(e, occupant@);
        }
        match self.locate(occupant) {
            Some((i, p)) => {
                let c = self.assignments[i].0.clone();
                proof {
                    lemma_mapping_at(e, i as int);
                    assert(self@[c@][p as int] == occupant@);
                    lemma_cell_of(self@, occupant@, c@);
                }
                Some(c)
            },
            None => None,
        }
    }

    /// Takes `occupant` out of the cell in which it sits and drops that cell
    /// if nobody is left in it. Nothing changes where `occupant` sits nowhere.
    pub fn unassign(&mut self, occupant: &str)
        ensures
            grid_wf(old(self)@),
            grid_wf(final(self)@),
            final(self)@ == unassigned(old(self)@, occupant@),
            !placed(final(self)@, occupant@),
            !placed(old(self)@, occupant@) ==> final(self)@ == old(self)@,
    {
        let ghost e = stored(self.assignments@);
        proof {
            use_type_invariant(&*self);
            lemma_mapping_wf(e);
            lemma_stored_absent(e, occupant@);
            lemma_unassigned_wf(mapping(e), occupant@);
            if !placed(mapping(e), occupant@) {
                lemma_unassign_absent(mapping(e), occupant@);
            }
        }
        match self.locate(occupant) {
            Some((i, p)) => {
                let mut cells: Vec<(String, Vec<String>)> = Vec::new();
                core::mem::swap(&mut self.assignments, &mut cells);
                let (key, mut members) = cells.remove(i);
                members.remove(p);
                let ghost row = texts(members@);
                assert(row =~= e[i as int].1.remove(p as int));
                if members.len() > 0 {
                    cells.insert(i, (key, members));
                }
                proof {
                    assert(stored(cells@) =~= stored_leave(e, i as int, p as int));
                    lemma_stored_leave(e, i as int, p as int, occupant@);
                }
                self.assignments = cells;
            },
            None => {
                proof {
                    lemma_unassign_absent(mapping(e), occupant@);
                }
            },
        }
    }

    /// Places `occupant` in `cell`: it leaves the cell in which it sat, that
    /// cell is dropped if nobody is left in it, and `occupant` becomes the
    /// last of `cell`. An occupant already in `cell` moves to its end.
    pub fn assign(&mut self, occupant: &str, cell: &str)
        ensures
            grid_wf(old(self)@),
            grid_wf(final(self)@),
            final(self)@ == assigned(old(self)@, occupant@, cell@),
            cell_of(final(self)@, occupant@) == Some(cell@),
    {
        let ghost before = self@;
        proof {
            use_type_invariant(&*self);
            lemma_mapping_wf(stored(self.assignments@));
            lemma_assign_twice(before, occupant@, cell@);
        }
        self.unassign(occupant);
        let ghost e = stored(self.assignments@);
        proof {
            use_type_invariant(&*self);
            lemma_stored_absent(e, occupant@);
        }
        let found = self.find_cell(cell);
        let mut cells: Vec<(String, Vec<String>)> = Vec::new();
        core::mem::swap(&mut self.assignments, &mut cells);
        match found {
            Some(j) => {
                let (key, mut members) = cells.remove(j);
                members.push(occupant.to_owned());
                assert(texts(members@) =~= e[j as int].1.push(occupant@));
                cells.insert(j, (key, members));
                proof {
                    assert(stored(cells@) =~= e.update(
                        j as int,
                        (e[j as int].0, e[j as int].1.push(occupant@)),
                    ));
                    lemma_stored_join(e, j as int, occupant@);
                }
            },
            None => {
                let mut members: Vec<String> = Vec::new();
                members.push(occupant.to_owned());
                assert(texts(members@) =~= seq![occupant@]);
                cells.push((cell.to_owned(), members));
                proof {
                    assert(stored(cells@) =~= e.push((cell@, seq![occupant@])));
                    lemma_stored_open(e, cell@, occupant@);
                }
            },
        }
        self.assignments = cells;
    }
}

} // verus!
