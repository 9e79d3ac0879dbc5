//! Topology of a regular surface grid stored row-major: vertex (row, col) sits at
//! index `row * cols + col`, and each face is the quad between four neighbouring vertices.
use vstd::prelude::*;

verus! {

/// The row-major index of grid vertex (row, col).
pub open spec fn vertex_index(row: int, col: int, cols: int) -> int {
    row * cols + col
}

/// The corner vertex indices of the face whose top-left vertex is (row, col), in the
/// order (row, col), (row, col + 1), (row + 1, col), (row + 1, col + 1).
pub open spec fn face_corners_of(row: int, col: int, cols: int) -> (usize, usize, usize, usize) {
    (
        vertex_index(row, col, cols) as usize,
        vertex_index(row, col + 1, cols) as usize,
        vertex_index(row + 1, col, cols) as usize,
        vertex_index(row + 1, col + 1, cols) as usize,
    )
}

proof fn lemma_corner_bounds(rows: int, cols: int, r: int, c: int)
    requires
        1 <= rows,
        1 <= cols,
        0 <= r < rows - 1,
        0 <= c < cols - 1,
    ensures
        0 <= r * cols + c,
        (r + 1) * cols + c + 1 < rows * cols,
        (r + 1) * cols == r * cols + cols,
{
    assert((r + 1) * cols + c + 1 < rows * cols) by (nonlinear_arith)
        requires
            0 <= r < rows - 1,
            0 <= c < cols - 1,
    ;
    assert(0 <= r * cols) by (nonlinear_arith)
        requires
            0 <= r,
            0 <= cols,
    ;
    assert((r + 1) * cols == r * cols + cols) by (nonlinear_arith);
}

/// The faces of a `rows` x `cols` vertex grid in row-major face order, each as the
/// indices of its four corner vertices.
pub fn face_corners(rows: usize, cols: usize) -> (faces: Vec<(usize, usize, usize, usize)>)
    requires
        1 <= rows,
        1 <= cols,
        rows * cols <= usize::MAX,
    ensures
        faces@.len() == (rows - 1) * (cols - 1),
        forall|r: int, c: int|
            0 <= r < rows - 1 && 0 <= c < cols - 1 ==> #[trigger] faces@[r * (cols - 1) + c]
                == face_corners_of(r, c, cols as int),
{
    let mut faces: Vec<(usize, usize, usize, usize)> = Vec::new();
    let mut r: usize = 0;
    let fc: usize = cols - 1;
    while r < rows - 1
        invariant
            1 <= rows,
            1 <= cols,
            rows * cols <= usize::MAX,
            fc == cols - 1,
            r <= rows - 1,
            faces@.len() == r * fc,
            forall|r2: int, c2: int|
                0 <= r2 < r && 0 <= c2 < fc ==> #[trigger] faces@[r2 * fc + c2]
                    == face_corners_of(r2, c2, cols as int),
        decreases rows - 1 - r,
    {
        let mut c: usize = 0;
        while c < fc
            invariant
                1 <= rows,
                1 <= cols,
                rows * cols <= usize::MAX,
                fc == cols - 1,
                r < rows - 1,
                c <= fc,
                faces@.len() == r * fc + c,
                forall|r2: int, c2: int|
                    0 <= r2 < r && 0 <= c2 < fc ==> #[trigger] faces@[r2 * fc + c2]
                        == face_corners_of(r2, c2, cols as int),
                forall|c2: int|
                    0 <= c2 < c ==> #[trigger] faces@[r * fc + c2] == face_corners_of(
                        r as int,
                        c2,
                        cols as int,
                    ),
            decreases fc - c,
        {
            proof {
                lemma_corner_bounds(rows as int, cols as int, r as int, c as int);
            }
            let top = r * cols + c;
            let bottom = top + cols;
            let ghost before = faces@;
            faces.push((top, top + 1, bottom, bottom + 1));
            proof {
                assert forall|r2: int, c2: int|
                    0 <= r2 < r && 0 <= c2 < fc implies #[trigger] faces@[r2 * fc + c2]
                    == face_corners_of(r2, c2, cols as int) by {
                    assert(r2 * fc + c2 < r * fc) by (nonlinear_arith)
                        requires
                            0 <= r2 < r,
                            0 <= c2 < fc,
                    ;
                    assert(faces@[r2 * fc + c2] == before[r2 * fc + c2]);
                }
                assert forall|c2: int| 0 <= c2 < c + 1 implies #[trigger] faces@[r * fc + c2]
                    == face_corners_of(r as int, c2, cols as int) by {
                    if c2 < c {
                        assert(faces@[r * fc + c2] == before[r * fc + c2]);
                    }
                }
            }
            c = c + 1;
        }
        proof {
            assert((r + 1) * fc == r * fc + fc) by (nonlinear_arith);
            assert forall|r2: int, c2: int|
                0 <= r2 < r + 1 && 0 <= c2 < fc implies #[trigger] faces@[r2 * fc + c2]
                == face_corners_of(r2, c2, cols as int) by {
                if r2 == r {
                    assert(faces@[r * fc + c2] == face_corners_of(r as int, c2, cols as int));
                }
            }
        }
        r = r + 1;
    }
    faces
}

/// A row-major list of `len` entries has exactly one entry per vertex of a `rows` x
/// `cols` grid.
pub fn grid_shape_matches(len: usize, rows: usize, cols: usize) -> (b: bool)
    ensures
        b == (len == rows * cols),
{
    match rows.checked_mul(cols) {
        Some(n) => len == n,
        None => false,
    }
}

/// The slot of vertex (row, col) in the row-major vertex list of a `rows` x `cols` grid,
/// or `None` when the position lies outside the grid (`row >= rows` or `col >= cols`).
pub fn vertex_slot(row: usize, col: usize, rows: usize, cols: usize) -> (slot: Option<usize>)
    requires
        rows * cols <= usize::MAX,
    ensures
        slot is None <==> (row >= rows || col >= cols),
        slot matches Some(k) ==> k == vertex_index(row as int, col as int, cols as int) && k
            < rows * cols,
{
    if row >= rows || col >= cols {
        return None;
    }
    proof {
        assert(row * cols + col < rows * cols) by (nonlinear_arith)
            requires
                row < rows,
                col < cols,
        ;
        assert(0 <= row * cols) by (nonlinear_arith);
    }
    Some(row * cols + col)
}

} // verus!
