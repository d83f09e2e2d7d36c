//! The k-th smallest entry of a matrix whose rows and columns are sorted,
//! found by walking outward from the top-left corner, smallest entry first.

use vstd::prelude::*;
use vstd::set_lib::{lemma_len_subset, lemma_set_disjoint_lens};

verus! {

/// A cell of the matrix, as (row, column).
pub type Cell = (int, int);

/// All cells of an `n` by `m` matrix.
pub open spec fn grid_cells(n: int, m: int) -> Set<Cell> {
    Set::new(|c: Cell| 0 <= c.0 < n && 0 <= c.1 < m)
}

/// The first `m` cells of row `i`.
spec fn row_cells(i: int, m: int) -> Set<Cell> {
    Set::new(|c: Cell| c.0 == i && 0 <= c.1 < m)
}

proof fn lemma_row_cells(i: int, m: nat)
    ensures
        row_cells(i, m as int).finite(),
        row_cells(i, m as int).len() == m,
    decreases m,
{
    if m == 0 {
        assert(row_cells(i, 0) =~= Set::empty());
    } else {
        lemma_row_cells(i, (m - 1) as nat);
        assert(row_cells(i, m as int) =~= row_cells(i, m - 1).insert((i, m - 1)));
    }
}

pub proof fn lemma_grid_cells(n: nat, m: nat)
    ensures
        grid_cells(n as int, m as int).finite(),
        grid_cells(n as int, m as int).len() == n * m,
    decreases n,
{
    if n == 0 {
        assert(grid_cells(0, m as int) =~= Set::empty());
    } else {
        lemma_grid_cells((n - 1) as nat, m);
        lemma_row_cells(n - 1, m);
        let prev = grid_cells(n - 1, m as int);
        let row = row_cells(n - 1, m as int);
        assert(grid_cells(n as int, m as int) =~= prev + row);
        assert(prev.disjoint(row));
        lemma_set_disjoint_lens(prev, row);
        assert(n * m == (n - 1) * m + m) by (nonlinear_arith)
            requires
                n >= 1,
        ;
    }
}

/// What each row of a matrix holds.
pub open spec fn rows_view(matrix: Seq<Vec<i32>>) -> Seq<Seq<i32>> {
    matrix.map_values(|r: Vec<i32>| r@)
}

/// The entry at cell `c`.
pub open spec fn at(mat: Seq<Seq<i32>>, c: Cell) -> int {
    mat[c.0][c.1] as int
}

/// A non-empty rectangular matrix whose rows and columns are each sorted in
/// ascending order.
pub open spec fn is_sorted_matrix(mat: Seq<Seq<i32>>) -> bool {
    &&& mat.len() >= 1
    &&& mat[0].len() >= 1
    &&& forall|i: int| 0 <= i < mat.len() ==> #[trigger] mat[i].len() == mat[0].len()
    &&& forall|i: int, j1: int, j2: int|
        #![trigger mat[i][j1], mat[i][j2]]
        0 <= i < mat.len() && 0 <= j1 <= j2 < mat[0].len() ==> mat[i][j1] <= mat[i][j2]
    &&& forall|i1: int, i2: int, j: int|
        #![trigger mat[i1][j], mat[i2][j]]
        0 <= i1 <= i2 < mat.len() && 0 <= j < mat[0].len() ==> mat[i1][j] <= mat[i2][j]
}

/// The cells whose entry is below `v`.
pub open spec fn cells_below(mat: Seq<Seq<i32>>, v: int) -> Set<Cell> {
    grid_cells(mat.len() as int, mat[0].len() as int).filter(|c: Cell| at(mat, c) < v)
}

/// The cells whose entry is at most `v`.
pub open spec fn cells_upto(mat: Seq<Seq<i32>>, v: int) -> Set<Cell> {
    grid_cells(mat.len() as int, mat[0].len() as int).filter(|c: Cell| at(mat, c) <= v)
}

/// A candidate on the frontier: its entry, row and column.
pub type Candidate = (i32, usize, usize);

spec fn cell_of(e: Candidate) -> Cell {
    (e.1 as int, e.2 as int)
}

/// Whether cell `c` has been reached, in the row-major `visited` flags.
spec fn seen(visited: Seq<bool>, m: int, c: Cell) -> bool {
    visited[c.0 * m + c.1]
}

proof fn lemma_index(x: int, y: int, n: int, m: int)
    requires
        0 <= x < n,
        0 <= y < m,
    ensures
        0 <= x * m + y < n * m,
{
    assert(0 <= x * m + y < n * m) by (nonlinear_arith)
        requires
            0 <= x < n,
            0 <= y < m,
    ;
}

proof fn lemma_index_injective(x1: int, y1: int, x2: int, y2: int, m: int)
    requires
        0 <= x1,
        0 <= x2,
        0 <= y1 < m,
        0 <= y2 < m,
        x1 * m + y1 == x2 * m + y2,
    ensures
        x1 == x2 && y1 == y2,
{
    if x1 < x2 {
        assert(x1 * m + y1 < x2 * m + y2) by (nonlinear_arith)
            requires
                x1 < x2,
                0 <= y1 < m,
                0 <= y2,
        ;
    } else if x2 < x1 {
        assert(x2 * m + y2 < x1 * m + y1) by (nonlinear_arith)
            requires
                x2 < x1,
                0 <= y2 < m,
                0 <= y1,
        ;
    }
}

/// The bookkeeping of the walk: `popped` holds the cells taken so far, each
/// at most every cell not taken; `fr` holds the reached cells not taken yet;
/// every neighbor below or to the right of a taken cell other than `hole`
/// has been reached.
#[verifier::opaque]
spec fn walk_ok_but(
    mat: Seq<Seq<i32>>,
    visited: Seq<bool>,
    fr: Seq<Candidate>,
    popped: Set<Cell>,
    hole: Cell,
) -> bool {
    let n = mat.len() as int;
    let m = mat[0].len() as int;
    &&& visited.len() == n * m
    &&& popped.finite()
    &&& popped.subset_of(grid_cells(n, m))
    &&& forall|i: int|
        #![trigger fr[i]]
        0 <= i < fr.len() ==> {
            let c = cell_of(fr[i]);
            &&& 0 <= c.0 < n
            &&& 0 <= c.1 < m
            &&& fr[i].0 as int == at(mat, c)
            &&& !popped.contains(c)
            &&& seen(visited, m, c)
        }
    &&& forall|i: int, j: int|
        #![trigger fr[i], fr[j]]
        0 <= i < j < fr.len() ==> cell_of(fr[i]) != cell_of(fr[j])
    &&& forall|c: Cell|
        #![trigger seen(visited, m, c)]
        grid_cells(n, m).contains(c) && seen(visited, m, c) ==> popped.contains(c) || exists|i: int|
            0 <= i < fr.len() && cell_of(#[trigger] fr[i]) == c
    &&& forall|c: Cell| #[trigger] popped.contains(c) ==> seen(visited, m, c)
    &&& forall|p: Cell|
        #[trigger] popped.contains(p) && p != hole ==> (p.0 + 1 < n ==> seen(
            visited,
            m,
            (p.0 + 1, p.1),
        )) && (p.1 + 1 < m ==> seen(visited, m, (p.0, p.1 + 1)))
    &&& seen(visited, m, (0, 0))
    &&& forall|p: Cell, c: Cell|
        #![trigger popped.contains(p), popped.contains(c)]
        popped.contains(p) && grid_cells(n, m).contains(c) && !popped.contains(c) ==> at(mat, p)
            <= at(mat, c)
}

/// The bookkeeping of the walk, with no exception.
spec fn walk_ok(mat: Seq<Seq<i32>>, visited: Seq<bool>, fr: Seq<Candidate>, popped: Set<Cell>) -> bool {
    walk_ok_but(mat, visited, fr, popped, (-1, -1))
}

/// The plain facts the bookkeeping keeps.
proof fn lemma_walk_facts(
    mat: Seq<Seq<i32>>,
    visited: Seq<bool>,
    fr: Seq<Candidate>,
    popped: Set<Cell>,
    hole: Cell,
)
    requires
        walk_ok_but(mat, visited, fr, popped, hole),
    ensures
        visited.len() == mat.len() * mat[0].len(),
        popped.finite(),
        popped.subset_of(grid_cells(mat.len() as int, mat[0].len() as int)),
        forall|i: int|
            #![trigger fr[i]]
            0 <= i < fr.len() ==> {
                let c = cell_of(fr[i]);
                &&& 0 <= c.0 < mat.len()
                &&& 0 <= c.1 < mat[0].len()
                &&& !popped.contains(c)
            },
{
    reveal(walk_ok_but);
}

/// Every cell not taken yet is at least some frontier entry: walking back
/// from it toward the top-left corner, the first cell not taken lies on the
/// frontier, and entries only grow along the way.
proof fn lemma_frontier_below(
    mat: Seq<Seq<i32>>,
    visited: Seq<bool>,
    fr: Seq<Candidate>,
    popped: Set<Cell>,
    c: Cell,
) -> (i: int)
    requires
        is_sorted_matrix(mat),
        walk_ok(mat, visited, fr, popped),
        grid_cells(mat.len() as int, mat[0].len() as int).contains(c),
        !popped.contains(c),
    ensures
        0 <= i < fr.len(),
        fr[i].0 as int <= at(mat, c),
    decreases c.0 + c.1,
{
    reveal(walk_ok_but);
    let n = mat.len() as int;
    let m = mat[0].len() as int;
    if seen(visited, m, c) {
        let i = choose|i: int| 0 <= i < fr.len() && cell_of(#[trigger] fr[i]) == c;
        i
    } else if c.1 > 0 {
        let l = (c.0, c.1 - 1);
        assert(grid_cells(n, m).contains(l));
        if popped.contains(l) {
            assert(false);
        }
        let i = lemma_frontier_below(mat, visited, fr, popped, l);
        assert(mat[c.0][c.1 - 1] <= mat[c.0][c.1]);
        i
    } else {
        assert(c.0 > 0);
        let u = (c.0 - 1, c.1);
        assert(grid_cells(n, m).contains(u));
        if popped.contains(u) {
            assert(false);
        }
        let i = lemma_frontier_below(mat, visited, fr, popped, u);
        assert(mat[c.0 - 1][c.1] <= mat[c.0][c.1]);
        i
    }
}

/// Taking the smallest frontier entry keeps the bookkeeping, except that
/// the neighbors of the taken cell are still to be reached.
proof fn lemma_take(
    mat: Seq<Seq<i32>>,
    visited: Seq<bool>,
    fr: Seq<Candidate>,
    popped: Set<Cell>,
    b: int,
)
    requires
        is_sorted_matrix(mat),
        walk_ok(mat, visited, fr, popped),
        0 <= b < fr.len(),
        forall|i: int| 0 <= i < fr.len() ==> fr[b].0 <= #[trigger] fr[i].0,
    ensures
        walk_ok_but(mat, visited, fr.remove(b), popped.insert(cell_of(fr[b])), cell_of(fr[b])),
{
    reveal(walk_ok_but);
    let n = mat.len() as int;
    let m = mat[0].len() as int;
    let taken = cell_of(fr[b]);
    let fr1 = fr.remove(b);
    let popped1 = popped.insert(taken);
    assert forall|i: int| 0 <= i < fr1.len() implies #[trigger] fr1[i] == fr[if i < b {
        i
    } else {
        i + 1
    }] by {}
    assert forall|i: int| #![trigger fr1[i]] 0 <= i < fr1.len() implies !popped1.contains(
        cell_of(fr1[i]),
    ) by {
        let j = if i < b {
            i
        } else {
            i + 1
        };
        assert(fr1[i] == fr[j]);
        if j < b {
            assert(cell_of(fr[j]) != cell_of(fr[b]));
        } else {
            assert(cell_of(fr[b]) != cell_of(fr[j]));
        }
    }
    assert forall|i: int, j: int| #![trigger fr1[i], fr1[j]] 0 <= i < j < fr1.len() implies cell_of(
        fr1[i],
    ) != cell_of(fr1[j]) by {
        let i0 = if i < b {
            i
        } else {
            i + 1
        };
        let j0 = if j < b {
            j
        } else {
            j + 1
        };
        assert(fr1[i] == fr[i0] && fr1[j] == fr[j0]);
        assert(cell_of(fr[i0]) != cell_of(fr[j0]));
    }
    assert forall|c: Cell|
        #![trigger seen(visited, m, c)]
        grid_cells(n, m).contains(c) && seen(visited, m, c) implies popped1.contains(c) || exists|
            i: int,
        | 0 <= i < fr1.len() && cell_of(#[trigger] fr1[i]) == c by {
        if !popped.contains(c) {
            let j = choose|j: int| 0 <= j < fr.len() && cell_of(#[trigger] fr[j]) == c;
            if j < b {
                assert(fr1[j] == fr[j]);
            } else if j > b {
                assert(fr1[j - 1] == fr[j]);
            }
        }
    }
    assert forall|p: Cell, c: Cell|
        #![trigger popped1.contains(p), popped1.contains(c)]
        popped1.contains(p) && grid_cells(n, m).contains(c) && !popped1.contains(c) implies at(
            mat,
            p,
        ) <= at(mat, c) by {
        if p == taken {
            let i = lemma_frontier_below(mat, visited, fr, popped, c);
            assert(fr[b].0 <= fr[i].0);
        } else {
            assert(popped.contains(p) && popped.contains(c) == false);
        }
    }
    assert(seen(visited, m, taken));
    assert forall|c: Cell| #[trigger] popped1.contains(c) implies seen(visited, m, c) by {
        if c != taken {
            assert(popped.contains(c));
        }
    }
    assert forall|p: Cell|
        #[trigger] popped1.contains(p) && p != taken implies (p.0 + 1 < n ==> seen(
            visited,
            m,
            (p.0 + 1, p.1),
        )) && (p.1 + 1 < m ==> seen(visited, m, (p.0, p.1 + 1))) by {
        assert(popped.contains(p) && p != (-1int, -1int));
    }
}

/// Reaching a cell not reached before, and putting it on the frontier,
/// keeps the bookkeeping.
proof fn lemma_push(
    mat: Seq<Seq<i32>>,
    visited: Seq<bool>,
    fr: Seq<Candidate>,
    popped: Set<Cell>,
    hole: Cell,
    e: Candidate,
)
    requires
        walk_ok_but(mat, visited, fr, popped, hole),
        grid_cells(mat.len() as int, mat[0].len() as int).contains(cell_of(e)),
        e.0 as int == at(mat, cell_of(e)),
        !seen(visited, mat[0].len() as int, cell_of(e)),
    ensures
        walk_ok_but(
            mat,
            visited.update(e.1 * mat[0].len() + e.2, true),
            fr.push(e),
            popped,
            hole,
        ),
{
    reveal(walk_ok_but);
    let n = mat.len() as int;
    let m = mat[0].len() as int;
    let c = cell_of(e);
    let t = c.0 * m + c.1;
    let v1 = visited.update(t, true);
    let fr1 = fr.push(e);
    lemma_index(c.0, c.1, n, m);
    assert forall|d: Cell|
        #![trigger seen(v1, m, d)]
        grid_cells(n, m).contains(d) implies seen(v1, m, d) == (seen(visited, m, d) || d == c) by {
        lemma_index(d.0, d.1, n, m);
        if d.0 * m + d.1 == t {
            lemma_index_injective(d.0, d.1, c.0, c.1, m);
        }
    }
    assert forall|i: int| #![trigger fr1[i]] 0 <= i < fr1.len() implies seen(v1, m, cell_of(fr1[i]))
        && !popped.contains(cell_of(fr1[i])) by {
        if i < fr.len() {
            assert(fr1[i] == fr[i]);
            assert(grid_cells(n, m).contains(cell_of(fr[i])));
        }
    }
    assert forall|i: int, j: int| #![trigger fr1[i], fr1[j]] 0 <= i < j < fr1.len() implies cell_of(
        fr1[i],
    ) != cell_of(fr1[j]) by {
        assert(fr1[i] == fr[i]);
        if j == fr.len() {
            assert(seen(visited, m, cell_of(fr[i])));
        } else {
            assert(fr1[j] == fr[j]);
        }
    }
    assert forall|d: Cell|
        #![trigger seen(v1, m, d)]
        grid_cells(n, m).contains(d) && seen(v1, m, d) implies popped.contains(d) || exists|i: int|
            0 <= i < fr1.len() && cell_of(#[trigger] fr1[i]) == d by {
        if d == c {
            assert(cell_of(fr1[fr.len() as int]) == d);
        } else {
            assert(seen(visited, m, d));
            if !popped.contains(d) {
                let j = choose|j: int| 0 <= j < fr.len() && cell_of(#[trigger] fr[j]) == d;
                assert(fr1[j] == fr[j]);
            }
        }
    }
    assert forall|d: Cell| #[trigger] popped.contains(d) implies seen(v1, m, d) by {
        assert(grid_cells(n, m).contains(d));
    }
    assert forall|p: Cell|
        #[trigger] popped.contains(p) && p != hole implies (p.0 + 1 < n ==> seen(
            v1,
            m,
            (p.0 + 1, p.1),
        )) && (p.1 + 1 < m ==> seen(v1, m, (p.0, p.1 + 1))) by {
        assert(grid_cells(n, m).contains(p));
        if p.0 + 1 < n {
            assert(grid_cells(n, m).contains((p.0 + 1, p.1)));
        }
        if p.1 + 1 < m {
            assert(grid_cells(n, m).contains((p.0, p.1 + 1)));
        }
    }
    assert(grid_cells(n, m).contains((0, 0)));
}

/// Once the neighbors of the taken cell are reached, the bookkeeping holds
/// with no exception.
proof fn lemma_close(
    mat: Seq<Seq<i32>>,
    visited: Seq<bool>,
    fr: Seq<Candidate>,
    popped: Set<Cell>,
    hole: Cell,
)
    requires
        walk_ok_but(mat, visited, fr, popped, hole),
        hole.0 + 1 < mat.len() ==> seen(visited, mat[0].len() as int, (hole.0 + 1, hole.1)),
        hole.1 + 1 < mat[0].len() ==> seen(visited, mat[0].len() as int, (hole.0, hole.1 + 1)),
    ensures
        walk_ok(mat, visited, fr, popped),
{
    reveal(walk_ok_but);
}

/// Where the smallest entry of a non-empty frontier stands.
fn index_of_min(fr: &Vec<Candidate>) -> (b: usize)
    requires
        fr@.len() > 0,
    ensures
        b < fr@.len(),
        forall|i: int| 0 <= i < fr@.len() ==> fr@[b as int].0 <= #[trigger] fr@[i].0,
{
    let mut b: usize = 0;
    let mut i: usize = 1;
    while i < fr.len()
        invariant
            b < i <= fr@.len(),
            forall|j: int| 0 <= j < i ==> fr@[b as int].0 <= #[trigger] fr@[j].0,
        decreases fr@.len() - i,
    {
        if fr[i].0 < fr[b].0 {
            b = i;
        }
        i = i + 1;
    }
    b
}

/// While fewer cells are taken than the matrix has, the frontier is not
/// empty.
proof fn lemma_frontier_nonempty(
    mat: Seq<Seq<i32>>,
    visited: Seq<bool>,
    fr: Seq<Candidate>,
    popped: Set<Cell>,
)
    requires
        is_sorted_matrix(mat),
        walk_ok(mat, visited, fr, popped),
        popped.len() < mat.len() * mat[0].len(),
    ensures
        fr.len() > 0,
{
    let grid = grid_cells(mat.len() as int, mat[0].len() as int);
    lemma_grid_cells(mat.len() as nat, mat[0].len() as nat);
    lemma_walk_facts(mat, visited, fr, popped, (-1, -1));
    if grid.subset_of(popped) {
        lemma_len_subset(grid, popped);
    }
    let c = choose|c: Cell| grid.contains(c) && !popped.contains(c);
    lemma_frontier_below(mat, visited, fr, popped, c);
}

/// Takes the smallest frontier entry and reaches its neighbors below and to
/// the right; returns the cell taken.
fn take_smallest(
    matrix: &Vec<Vec<i32>>,
    n: usize,
    m: usize,
    visited: &mut Vec<bool>,
    fr: &mut Vec<Candidate>,
    popped: Ghost<Set<Cell>>,
) -> (taken: Ghost<Cell>)
    requires
        is_sorted_matrix(rows_view(matrix@)),
        n == matrix@.len(),
        m == matrix@[0]@.len(),
        n * m <= usize::MAX,
        walk_ok(rows_view(matrix@), old(visited)@, old(fr)@, popped@),
        old(fr)@.len() > 0,
    ensures
        !popped@.contains(taken@),
        walk_ok(rows_view(matrix@), final(visited)@, final(fr)@, popped@.insert(taken@)),
{
    let ghost mat = rows_view(matrix@);
    proof {
        lemma_walk_facts(mat, visited@, fr@, popped@, (-1, -1));
    }
    let b = index_of_min(fr);
    let ghost fr0 = fr@;
    let ghost visited0 = visited@;
    let (_, x, y) = fr.remove(b);
    let ghost taken: Cell = (x as int, y as int);
    let ghost popped1 = popped@.insert(taken);
    proof {
        assert(cell_of(fr0[b as int]) == taken);
        lemma_take(mat, visited0, fr0, popped@, b as int);
        lemma_walk_facts(mat, visited@, fr@, popped1, taken);
    }
    if x + 1 < n {
        proof {
            lemma_index(x + 1, y as int, n as int, m as int);
        }
        if !visited[(x + 1) * m + y] {
            assert(matrix@[x + 1]@ == mat[x + 1]);
            let e = (matrix[x + 1][y], x + 1, y);
            proof {
                lemma_push(mat, visited@, fr@, popped1, taken, e);
            }
            fr.push(e);
            visited.set((x + 1) * m + y, true);
            proof {
                lemma_walk_facts(mat, visited@, fr@, popped1, taken);
            }
        }
    }
    if y + 1 < m {
        proof {
            lemma_index(x as int, y + 1, n as int, m as int);
        }
        if !visited[x * m + y + 1] {
            assert(matrix@[x as int]@ == mat[x as int]);
            let e = (matrix[x][y + 1], x, y + 1);
            proof {
                lemma_push(mat, visited@, fr@, popped1, taken, e);
            }
            fr.push(e);
            visited.set(x * m + y + 1, true);
        }
    }
    proof {
        lemma_close(mat, visited@, fr@, popped1, taken);
    }
    Ghost(taken)
}

/// With `k - 1` cells taken, the smallest frontier entry is the `k`-th
/// smallest entry.
proof fn lemma_answer(
    mat: Seq<Seq<i32>>,
    visited: Seq<bool>,
    fr: Seq<Candidate>,
    popped: Set<Cell>,
    b: int,
)
    requires
        is_sorted_matrix(mat),
        walk_ok(mat, visited, fr, popped),
        0 <= b < fr.len(),
        forall|i: int| 0 <= i < fr.len() ==> fr[b].0 <= #[trigger] fr[i].0,
    ensures
        cells_below(mat, fr[b].0 as int).len() <= popped.len(),
        popped.len() + 1 <= cells_upto(mat, fr[b].0 as int).len(),
{
    reveal(walk_ok_but);
    let r = fr[b].0 as int;
    let grid = grid_cells(mat.len() as int, mat[0].len() as int);
    lemma_grid_cells(mat.len() as nat, mat[0].len() as nat);
    let top = cell_of(fr[b]);
    assert forall|c: Cell| #[trigger] cells_below(mat, r).contains(c) implies popped.contains(c) by {
        if !popped.contains(c) {
            let i = lemma_frontier_below(mat, visited, fr, popped, c);
            assert(fr[b].0 <= fr[i].0);
        }
    }
    lemma_len_subset(cells_below(mat, r), popped);
    assert forall|c: Cell| #[trigger] popped.insert(top).contains(c) implies cells_upto(
        mat,
        r,
    ).contains(c) by {
        if c != top {
            assert(popped.contains(c) && grid.contains(top) && !popped.contains(top));
        }
    }
    lemma_len_subset(cells_upto(mat, r), grid);
    lemma_len_subset(popped.insert(top), cells_upto(mat, r));
}

/// The `k`-th smallest entry, counting repeated entries separately: fewer
/// than `k` entries lie below it, and at least `k` are at most it.
pub fn kth_smallest(matrix: Vec<Vec<i32>>, k: i32) -> (r: i32)
    requires
        is_sorted_matrix(rows_view(matrix@)),
        1 <= k <= matrix@.len() * matrix@[0]@.len(),
        matrix@.len() * matrix@[0]@.len() <= usize::MAX,
    ensures
        cells_below(rows_view(matrix@), r as int).len() < k,
        k <= cells_upto(rows_view(matrix@), r as int).len(),
{
    let ghost mat = rows_view(matrix@);
    let n = matrix.len();
    let m = matrix[n - 1].len();
    proof {
        assert(mat[n - 1].len() == mat[0].len());
        lemma_index(n - 1, m - 1, n as int, m as int);
    }
    let mut visited: Vec<bool> = vec![false; n * m];
    let mut fr: Vec<Candidate> = Vec::new();
    assert(matrix@[0]@ == mat[0]);
    fr.push((matrix[0][0], 0, 0));
    visited.set(0, true);
    let ghost mut popped: Set<Cell> = Set::empty();
    proof {
        reveal(walk_ok_but);
        assert(0 * (m as int) + 0 == 0);
        assert(seen(visited@, m as int, (0, 0)));
        assert forall|c: Cell|
            #![trigger seen(visited@, m as int, c)]
            grid_cells(n as int, m as int).contains(c) && seen(visited@, m as int, c) implies popped.contains(c)
                || exists|i: int| 0 <= i < fr@.len() && cell_of(#[trigger] fr@[i]) == c by {
            lemma_index(c.0, c.1, n as int, m as int);
            if c.0 * m + c.1 == 0 {
                lemma_index_injective(c.0, c.1, 0, 0, m as int);
                assert(cell_of(fr@[0]) == c);
            }
        }
        assert(walk_ok(mat, visited@, fr@, popped));
    }
    let mut count: i32 = k - 1;
    while count > 0
        invariant
            mat == rows_view(matrix@),
            is_sorted_matrix(mat),
            n == mat.len(),
            m == mat[0].len(),
            n * m <= usize::MAX,
            0 <= count < k <= n * m,
            walk_ok(mat, visited@, fr@, popped),
            popped.finite(),
            popped.len() == (k - 1) - count,
        decreases count,
    {
        proof {
            lemma_frontier_nonempty(mat, visited@, fr@, popped);
        }
        let taken = take_smallest(&matrix, n, m, &mut visited, &mut fr, Ghost(popped));
        proof {
            popped = popped.insert(taken@);
        }
        count = count - 1;
    }
    proof {
        lemma_frontier_nonempty(mat, visited@, fr@, popped);
    }
    let b = index_of_min(&fr);
    proof {
        lemma_answer(mat, visited@, fr@, popped, b as int);
    }
    fr[b].0
}

} // verus!
