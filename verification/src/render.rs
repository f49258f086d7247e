//! Pixel buffer layout and the recursion bound of the shading loop.

use vstd::prelude::*;

verus! {

/// Whether a hit found while tracing at recursion depth `depth` may spawn a
/// mirror-reflected ray.  Reflection stops exactly when the depth reaches
/// the scene's configured maximum.
pub open spec fn spec_reflection_allowed(depth: u32, max_depth: u32) -> bool {
    depth < max_depth
}

/// Decides whether the shading loop may recurse into a reflected ray.
pub fn reflection_allowed(depth: u32, max_depth: u32) -> (r: bool)
    ensures
        r == spec_reflection_allowed(depth, max_depth),
{
    depth < max_depth
}

/// A trace that starts at the maximum depth never spawns a reflected ray,
/// whatever the scene holds: its recursive colour component is zero.
pub proof fn lemma_no_reflection_at_max_depth(max_depth: u32)
    ensures
        !spec_reflection_allowed(max_depth, max_depth),
{
}

/// The rendered rows laid end to end, top row first.
pub open spec fn spec_concat_rows(rows: Seq<Seq<u8>>) -> Seq<u8>
    decreases rows.len(),
{
    if rows.len() == 0 {
        Seq::empty()
    } else {
        spec_concat_rows(rows.drop_last()) + rows.last()
    }
}

/// Position of the first channel byte of pixel `(x, y)` in a row-major
/// RGB buffer `width` pixels wide.
pub open spec fn spec_pixel_offset(width: nat, x: nat, y: nat) -> nat {
    3 * (y * width + x)
}

/// Computes the buffer position of pixel `(x, y)`.
pub fn pixel_offset(width: usize, height: usize, x: usize, y: usize) -> (r: usize)
    requires
        x < width,
        y < height,
        3 * (width * height) <= usize::MAX,
    ensures
        r == spec_pixel_offset(width as nat, x as nat, y as nat),
{
    proof {
        assert(y * width + x < width * height) by (nonlinear_arith)
            requires
                x < width,
                y < height,
        ;
        assert(width * height >= 0) by (nonlinear_arith);
    }
    3 * (y * width + x)
}

/// Joins independently rendered pixel rows into one flat buffer, in row
/// index order.  The result is a function of the row contents alone, so a
/// render is byte-identical however the rows were scheduled.
pub fn assemble_rows(rows: &Vec<Vec<u8>>) -> (r: Vec<u8>)
    ensures
        r@ == spec_concat_rows(rows.deep_view()),
{
    let ghost dv = rows.deep_view();
    let mut out: Vec<u8> = Vec::new();
    let mut j: usize = 0;
    while j < rows.len()
        invariant
            j <= rows@.len(),
            dv == rows.deep_view(),
            out@ == spec_concat_rows(dv.take(j as int)),
        decreases rows@.len() - j,
    {
        let row = &rows[j];
        let mut i: usize = 0;
        while i < row.len()
            invariant
                i <= row@.len(),
                row@ == dv[j as int],
                j < dv.len(),
                out@ == spec_concat_rows(dv.take(j as int)) + row@.take(i as int),
            decreases row@.len() - i,
        {
            out.push(row[i]);
            i = i + 1;
            proof {
                assert(row@.take(i as int) =~= row@.take(i - 1).push(row@[i - 1]));
            }
        }
        j = j + 1;
        proof {
            assert(row@.take(row@.len() as int) =~= row@);
            assert(dv.take(j as int).drop_last() =~= dv.take(j - 1));
            assert(spec_concat_rows(dv.take(j as int))
                == spec_concat_rows(dv.take(j - 1)) + dv[j - 1]);
        }
    }
    proof {
        assert(dv.take(dv.len() as int) =~= dv);
    }
    out
}

/// Where each byte of the assembled buffer comes from, when every row has
/// the same length: byte `i` of row `y` stands at position
/// `y * row_len + i`.  Output placement depends only on the row's index,
/// never on the order in which rows were produced.
pub proof fn lemma_concat_rows_uniform(rows: Seq<Seq<u8>>, row_len: nat)
    requires
        forall|k: int| 0 <= k < rows.len() ==> (#[trigger] rows[k]).len() == row_len,
    ensures
        spec_concat_rows(rows).len() == rows.len() * row_len,
        forall|y: int, i: int|
            0 <= y < rows.len() && 0 <= i < row_len
                ==> spec_concat_rows(rows)[y * row_len + i] == #[trigger] rows[y][i],
    decreases rows.len(),
{
    if rows.len() == 0 {
    } else {
        let prefix = rows.drop_last();
        let n = rows.len() as int;
        assert(forall|k: int| 0 <= k < prefix.len() ==> (#[trigger] prefix[k]).len() == row_len);
        lemma_concat_rows_uniform(prefix, row_len);
        assert((n - 1) * row_len + row_len == n * row_len) by (nonlinear_arith);
        assert(spec_concat_rows(rows).len() == rows.len() * row_len);
        assert forall|y: int, i: int|
            0 <= y < rows.len() && 0 <= i < row_len implies
            spec_concat_rows(rows)[y * row_len + i] == #[trigger] rows[y][i] by {
            if y < n - 1 {
                assert(0 <= y * row_len + i && y * row_len + i < (n - 1) * row_len)
                    by (nonlinear_arith)
                    requires
                        0 <= y < n - 1,
                        0 <= i < row_len,
                ;
                assert(spec_concat_rows(rows)[y * row_len + i]
                    == spec_concat_rows(prefix)[y * row_len + i]);
                assert(prefix[y] == rows[y]);
            } else {
                assert(y == n - 1);
                assert(spec_concat_rows(rows)[y * row_len + i] == rows.last()[i]);
            }
        }
    }
}

} // verus!
