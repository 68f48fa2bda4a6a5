//! Index buffers of the primitive meshes.
//!
//! Each primitive (box, sphere, cylinder, torus, line grid) is a vertex
//! list plus a triangle list of vertex indices. The vertex positions,
//! normals and texture coordinates are computed by the caller; here are
//! the triangle lists, which depend only on how many vertices each part
//! of the mesh has and in which order they are laid out.

use vstd::prelude::*;
use vstd::arithmetic::div_mod::lemma_fundamental_div_mod_converse;
use vstd::arithmetic::div_mod::lemma_fundamental_div_mod;

verus! {

/// Primitive geometry generator. Each primitive's index buffer comes
/// from an associated function; the vertices are laid out as documented
/// there.
pub struct Geometry;

/// The two triangles of a quad whose four corners are the vertices
/// `b .. b + 4`, wound `b, b+1, b+2` and `b, b+2, b+3`.
pub open spec fn quad(b: int) -> Seq<int> {
    seq![b, b + 1, b + 2, b, b + 2, b + 3]
}

/// `n` quads over the consecutive vertex groups `0..4`, `4..8`, ...
pub open spec fn quads(n: nat) -> Seq<int>
    decreases n,
{
    if n == 0 {
        Seq::empty()
    } else {
        quads((n - 1) as nat) + quad(4 * (n - 1))
    }
}

/// The two triangles of the lattice cell whose upper-left vertex is `a`
/// and lower-left vertex is `b`: `a, b, a+1` and `b, b+1, a+1`.
pub open spec fn lattice_cell(a: int, b: int) -> Seq<int> {
    seq![a, b, a + 1, b, b + 1, a + 1]
}

/// The first `s` cells of lattice row `r` in a lattice `cols` cells wide
/// (rows of `cols + 1` vertices).
pub open spec fn lattice_row(r: int, cols: int, s: nat) -> Seq<int>
    decreases s,
{
    if s == 0 {
        Seq::empty()
    } else {
        let a = r * (cols + 1) + (s - 1);
        lattice_row(r, cols, (s - 1) as nat) + lattice_cell(a, a + cols + 1)
    }
}

/// All cells of a lattice of `rows` by `cols` cells, row by row.
pub open spec fn lattice(rows: nat, cols: nat) -> Seq<int>
    decreases rows,
{
    if rows == 0 {
        Seq::empty()
    } else {
        lattice((rows - 1) as nat, cols) + lattice_row(rows - 1, cols as int, cols)
    }
}

/// The `s` side quads of a cylinder whose wall vertices come in
/// (bottom, top) pairs: quad `i` joins pairs `i` and `i + 1`.
pub open spec fn cylinder_side(s: nat) -> Seq<int>
    decreases s,
{
    if s == 0 {
        Seq::empty()
    } else {
        let b = 2 * (s - 1);
        cylinder_side((s - 1) as nat) + seq![b, b + 1, b + 2, b + 1, b + 3, b + 2]
    }
}

/// The `s` triangles of a top cap: a fan around `center` over the ring
/// vertices that follow it.
pub open spec fn top_fan(center: int, s: nat) -> Seq<int>
    decreases s,
{
    if s == 0 {
        Seq::empty()
    } else {
        let i = s - 1;
        top_fan(center, (s - 1) as nat) + seq![center, center + 1 + i, center + 2 + i]
    }
}

/// The `s` triangles of a bottom cap: the fan of `top_fan` wound the
/// other way, so that it faces down.
pub open spec fn bottom_fan(center: int, s: nat) -> Seq<int>
    decreases s,
{
    if s == 0 {
        Seq::empty()
    } else {
        let i = s - 1;
        bottom_fan(center, (s - 1) as nat) + seq![center, center + 2 + i, center + 1 + i]
    }
}

/// The index buffer of a cylinder with `s` segments: side wall, then top
/// cap around vertex `2 (s + 1)`, then bottom cap around the vertex after
/// the top ring.
pub open spec fn cylinder(s: nat) -> Seq<int> {
    let top: int = 2 * (s + 1) as int;
    let bottom: int = top + s + 2;
    cylinder_side(s) + top_fan(top, s) + bottom_fan(bottom, s)
}

/// `v` holds exactly the entries of `spec`.
pub open spec fn holds_indices(v: Seq<u32>, spec: Seq<int>) -> bool {
    &&& v.len() == spec.len()
    &&& forall|k: int| 0 <= k < v.len() ==> v[k] as int == spec[k]
}

/// Every entry of `s` is a vertex index below `count`.
pub open spec fn indices_below(s: Seq<int>, count: int) -> bool {
    forall|k: int| 0 <= k < s.len() ==> 0 <= #[trigger] s[k] < count
}

proof fn lemma_quads(n: nat)
    ensures
        quads(n).len() == 6 * n,
        indices_below(quads(n), 4 * n as int),
    decreases n,
{
    if n > 0 {
        lemma_quads((n - 1) as nat);
        let prev = quads((n - 1) as nat);
        assert forall|k: int| 0 <= k < quads(n).len() implies 0 <= #[trigger] quads(n)[k] < 4 * n by {
            if k < prev.len() {
                assert(quads(n)[k] == prev[k]);
            }
        }
    }
}

proof fn lemma_lattice_row(r: nat, cols: nat, s: nat)
    requires
        s <= cols,
    ensures
        lattice_row(r as int, cols as int, s).len() == 6 * s,
        forall|k: int|
            0 <= k < 6 * s ==> r * (cols + 1) <= #[trigger] lattice_row(r as int, cols as int, s)[k]
                < (r + 2) * (cols + 1),
    decreases s,
{
    if s > 0 {
        lemma_lattice_row(r, cols, (s - 1) as nat);
        let prev = lattice_row(r as int, cols as int, (s - 1) as nat);
        let cur = lattice_row(r as int, cols as int, s);
        assert((r + 2) * (cols + 1) == r * (cols + 1) + 2 * (cols + 1)) by (nonlinear_arith);
        assert forall|k: int| 0 <= k < 6 * s implies r * (cols + 1) <= #[trigger] cur[k] < (r + 2) * (
        cols + 1) by {
            if k < prev.len() {
                assert(cur[k] == prev[k]);
            }
        }
    }
}

proof fn lemma_lattice(rows: nat, cols: nat)
    ensures
        lattice(rows, cols).len() == 6 * rows * cols,
        indices_below(lattice(rows, cols), ((rows + 1) * (cols + 1)) as int),
    decreases rows,
{
    if rows > 0 {
        lemma_lattice((rows - 1) as nat, cols);
        lemma_lattice_row((rows - 1) as nat, cols, cols);
        let prev = lattice((rows - 1) as nat, cols);
        let cur = lattice(rows, cols);
        let row = lattice_row(rows - 1, cols as int, cols);
        assert(((rows - 1) as nat) as int == rows - 1);
        assert(row.len() == 6 * cols);
        assert(cur.len() == prev.len() + row.len());
        assert(prev.len() == 6 * (rows - 1) * cols);
        let total = 6 * (rows - 1) * cols + 6 * cols;
        assert(cur.len() == total);
        assert(total == 6 * rows * cols) by (nonlinear_arith)
            requires
                total == 6 * (rows - 1) * cols + 6 * cols,
        ;
        assert(6 * rows * cols == 6 * (rows - 1) * cols + 6 * cols) by (nonlinear_arith)
            requires
                rows > 0,
        ;
        assert((rows - 1 + 2) * (cols + 1) == (rows + 1) * (cols + 1)) by (nonlinear_arith);
        assert(rows * (cols + 1) <= (rows + 1) * (cols + 1)) by (nonlinear_arith);
        assert forall|k: int| 0 <= k < cur.len() implies 0 <= #[trigger] cur[k] < (rows + 1) * (cols
            + 1) by {
            if k < prev.len() {
                assert(cur[k] == prev[k]);
            } else {
                assert(cur[k] == row[k - prev.len()]);
                assert(0 <= (rows - 1) * (cols + 1)) by (nonlinear_arith)
                    requires
                        rows > 0,
                ;
            }
        }
    } else {
        assert(6 * rows * cols == 0) by (nonlinear_arith)
            requires
                rows == 0,
        ;
    }
}

proof fn lemma_cylinder_parts(s: nat, top: int, bottom: int)
    ensures
        cylinder_side(s).len() == 6 * s,
        indices_below(cylinder_side(s), (2 * s + 2) as int),
        top_fan(top, s).len() == 3 * s,
        forall|k: int| 0 <= k < 3 * s ==> top <= #[trigger] top_fan(top, s)[k] <= top + s + 1,
        bottom_fan(bottom, s).len() == 3 * s,
        forall|k: int| 0 <= k < 3 * s ==> bottom <= #[trigger] bottom_fan(bottom, s)[k] <= bottom + s + 1,
    decreases s,
{
    if s > 0 {
        lemma_cylinder_parts((s - 1) as nat, top, bottom);
        let ps = cylinder_side((s - 1) as nat);
        let pt = top_fan(top, (s - 1) as nat);
        let pb = bottom_fan(bottom, (s - 1) as nat);
        assert forall|k: int| 0 <= k < cylinder_side(s).len() implies 0 <= #[trigger] cylinder_side(
            s,
        )[k] < 2 * s + 2 by {
            if k < ps.len() {
                assert(cylinder_side(s)[k] == ps[k]);
            }
        }
        assert forall|k: int| 0 <= k < 3 * s implies top <= #[trigger] top_fan(top, s)[k] <= top + s
            + 1 by {
            if k < pt.len() {
                assert(top_fan(top, s)[k] == pt[k]);
            }
        }
        assert forall|k: int| 0 <= k < 3 * s implies bottom <= #[trigger] bottom_fan(bottom, s)[k]
            <= bottom + s + 1 by {
            if k < pb.len() {
                assert(bottom_fan(bottom, s)[k] == pb[k]);
            }
        }
    }
}

/// Quad `q` of `quads(n)` is the two triangles `4q, 4q+1, 4q+2` and
/// `4q, 4q+2, 4q+3`: entry `k` belongs to quad `k / 6`.
pub proof fn lemma_quads_entries(n: nat)
    ensures
        quads(n).len() == 6 * n,
        forall|k: int|
            0 <= k < 6 * n ==> #[trigger] quads(n)[k] == 4 * (k / 6) + seq![0int, 1, 2, 0, 2, 3][k % 6],
    decreases n,
{
    lemma_quads(n);
    if n > 0 {
        lemma_quads_entries((n - 1) as nat);
        let prev = quads((n - 1) as nat);
        assert forall|k: int| 0 <= k < 6 * n implies #[trigger] quads(n)[k] == 4 * (k / 6) + seq![
            0int,
            1,
            2,
            0,
            2,
            3,
        ][k % 6] by {
            if k < 6 * (n - 1) {
                assert(quads(n)[k] == prev[k]);
            } else {
                let j = k - 6 * (n - 1);
                lemma_fundamental_div_mod_converse(k, 6, n - 1, j);
                assert(quads(n)[k] == quad(4 * (n - 1))[j]);
            }
        }
    }
}

/// Wall quad `i` of a cylinder joins the (bottom, top) vertex pairs `i`
/// and `i + 1`: entries `6i .. 6i + 6` are `2i, 2i+1, 2i+2, 2i+1, 2i+3,
/// 2i+2`, so every wall vertex `0 ..= 2s + 1` is used. Then come the top
/// cap triangles `(2s+2, 2s+3+i, 2s+4+i)` and the bottom cap triangles
/// `(3s+4, 3s+6+i, 3s+5+i)`, for `i` in `0 .. s`.
pub proof fn lemma_cylinder_entries(s: nat)
    ensures
        cylinder(s).len() == 12 * s,
        forall|k: int|
            0 <= k < 6 * s ==> #[trigger] cylinder(s)[k] == 2 * (k / 6) + seq![0int, 1, 2, 1, 3, 2][k % 6],
        forall|k: int|
            6 * s <= k < 9 * s ==> #[trigger] cylinder(s)[k] == seq![
                2 * s + 2int,
                2 * s + 3 + (k - 6 * s) / 3,
                2 * s + 4 + (k - 6 * s) / 3,
            ][(k - 6 * s) % 3],
        forall|k: int|
            9 * s <= k < 12 * s ==> #[trigger] cylinder(s)[k] == seq![
                3 * s + 4int,
                3 * s + 6 + (k - 9 * s) / 3,
                3 * s + 5 + (k - 9 * s) / 3,
            ][(k - 9 * s) % 3],
{
    let top: int = 2 * (s + 1) as int;
    let bottom: int = top + s + 2;
    lemma_cylinder_parts(s, top, bottom);
    lemma_side_entries(s);
    lemma_fan_entries(top, bottom, s);
    let side = cylinder_side(s);
    let tf = top_fan(top, s);
    let bf = bottom_fan(bottom, s);
    let c = cylinder(s);
    assert(c == side + tf + bf);
    assert forall|k: int| 0 <= k < 6 * s implies #[trigger] c[k] == 2 * (k / 6) + seq![0int, 1, 2, 1, 3, 2][k
        % 6] by {
        assert(c[k] == side[k]);
    }
    assert forall|k: int| 6 * s <= k < 9 * s implies #[trigger] c[k] == seq![
        2 * s + 2int,
        2 * s + 3 + (k - 6 * s) / 3,
        2 * s + 4 + (k - 6 * s) / 3,
    ][(k - 6 * s) % 3] by {
        assert(c[k] == tf[k - 6 * s]);
    }
    assert forall|k: int| 9 * s <= k < 12 * s implies #[trigger] c[k] == seq![
        3 * s + 4int,
        3 * s + 6 + (k - 9 * s) / 3,
        3 * s + 5 + (k - 9 * s) / 3,
    ][(k - 9 * s) % 3] by {
        assert(c[k] == bf[k - 9 * s]);
    }
}

proof fn lemma_side_entries(s: nat)
    ensures
        forall|k: int|
            0 <= k < 6 * s ==> #[trigger] cylinder_side(s)[k] == 2 * (k / 6) + seq![0int, 1, 2, 1, 3, 2][k
                % 6],
    decreases s,
{
    if s > 0 {
        lemma_side_entries((s - 1) as nat);
        lemma_cylinder_parts((s - 1) as nat, 0, 0);
        let prev = cylinder_side((s - 1) as nat);
        assert forall|k: int| 0 <= k < 6 * s implies #[trigger] cylinder_side(s)[k] == 2 * (k / 6) + seq![
            0int,
            1,
            2,
            1,
            3,
            2,
        ][k % 6] by {
            if k < 6 * (s - 1) {
                assert(cylinder_side(s)[k] == prev[k]);
            } else {
                let j = k - 6 * (s - 1);
                lemma_fundamental_div_mod_converse(k, 6, s - 1, j);
                let b = 2 * (s - 1);
                assert(cylinder_side(s)[k] == seq![b, b + 1, b + 2, b + 1, b + 3, b + 2][j]);
            }
        }
    }
}

proof fn lemma_fan_entries(top: int, bottom: int, s: nat)
    ensures
        forall|k: int|
            0 <= k < 3 * s ==> #[trigger] top_fan(top, s)[k] == seq![top, top + 1 + k / 3, top + 2 + k / 3][k
                % 3],
        forall|k: int|
            0 <= k < 3 * s ==> #[trigger] bottom_fan(bottom, s)[k] == seq![
                bottom,
                bottom + 2 + k / 3,
                bottom + 1 + k / 3,
            ][k % 3],
    decreases s,
{
    if s > 0 {
        lemma_fan_entries(top, bottom, (s - 1) as nat);
        lemma_cylinder_parts((s - 1) as nat, top, bottom);
        let pt = top_fan(top, (s - 1) as nat);
        let pb = bottom_fan(bottom, (s - 1) as nat);
        assert forall|k: int| 0 <= k < 3 * s implies #[trigger] top_fan(top, s)[k] == seq![
            top,
            top + 1 + k / 3,
            top + 2 + k / 3,
        ][k % 3] by {
            if k < 3 * (s - 1) {
                assert(top_fan(top, s)[k] == pt[k]);
            } else {
                let j = k - 3 * (s - 1);
                lemma_fundamental_div_mod_converse(k, 3, s - 1, j);
                let i = s - 1;
                assert(top_fan(top, s)[k] == seq![top, top + 1 + i, top + 2 + i][j]);
            }
        }
        assert forall|k: int| 0 <= k < 3 * s implies #[trigger] bottom_fan(bottom, s)[k] == seq![
            bottom,
            bottom + 2 + k / 3,
            bottom + 1 + k / 3,
        ][k % 3] by {
            if k < 3 * (s - 1) {
                assert(bottom_fan(bottom, s)[k] == pb[k]);
            } else {
                let j = k - 3 * (s - 1);
                lemma_fundamental_div_mod_converse(k, 3, s - 1, j);
                let i = s - 1;
                assert(bottom_fan(bottom, s)[k] == seq![bottom, bottom + 2 + i, bottom + 1 + i][j]);
            }
        }
    }
}

proof fn lemma_lattice_row_entries(r: int, cols: nat, s: nat)
    requires
        s <= cols,
    ensures
        lattice_row(r, cols as int, s).len() == 6 * s,
        forall|k: int|
            0 <= k < 6 * s ==> #[trigger] lattice_row(r, cols as int, s)[k] == seq![
                r * (cols + 1) + k / 6,
                r * (cols + 1) + k / 6 + cols + 1,
                r * (cols + 1) + k / 6 + 1,
                r * (cols + 1) + k / 6 + cols + 1,
                r * (cols + 1) + k / 6 + cols + 2,
                r * (cols + 1) + k / 6 + 1,
            ][k % 6],
    decreases s,
{
    if s > 0 {
        lemma_lattice_row_entries(r, cols, (s - 1) as nat);
        let prev = lattice_row(r, cols as int, (s - 1) as nat);
        let cur = lattice_row(r, cols as int, s);
        assert forall|k: int| 0 <= k < 6 * s implies #[trigger] cur[k] == seq![
            r * (cols + 1) + k / 6,
            r * (cols + 1) + k / 6 + cols + 1,
            r * (cols + 1) + k / 6 + 1,
            r * (cols + 1) + k / 6 + cols + 1,
            r * (cols + 1) + k / 6 + cols + 2,
            r * (cols + 1) + k / 6 + 1,
        ][k % 6] by {
            if k < 6 * (s - 1) {
                assert(cur[k] == prev[k]);
            } else {
                let j = k - 6 * (s - 1);
                lemma_fundamental_div_mod_converse(k, 6, s - 1, j);
                let a = r * (cols + 1) + (s - 1);
                assert(cur[k] == lattice_cell(a, a + cols + 1)[j]);
            }
        }
    }
}

/// Cell `(row, col)` of a lattice `cols` cells wide is the two triangles
/// `a, b, a+1` and `b, b+1, a+1`, where `a = row (cols + 1) + col` is its
/// upper-left vertex and `b = a + cols + 1` the one below it; the cells
/// come row by row, so entry `k` belongs to cell `k / 6`, which is cell
/// `(k / 6) % cols` of row `(k / 6) / cols`.
pub proof fn lemma_lattice_entries(rows: nat, cols: nat)
    ensures
        lattice(rows, cols).len() == 6 * rows * cols,
        forall|k: int|
            0 <= k < 6 * rows * cols ==> #[trigger] lattice(rows, cols)[k] == seq![
                (k / 6) / (cols as int) * (cols + 1) + (k / 6) % (cols as int),
                (k / 6) / (cols as int) * (cols + 1) + (k / 6) % (cols as int) + cols + 1,
                (k / 6) / (cols as int) * (cols + 1) + (k / 6) % (cols as int) + 1,
                (k / 6) / (cols as int) * (cols + 1) + (k / 6) % (cols as int) + cols + 1,
                (k / 6) / (cols as int) * (cols + 1) + (k / 6) % (cols as int) + cols + 2,
                (k / 6) / (cols as int) * (cols + 1) + (k / 6) % (cols as int) + 1,
            ][k % 6],
    decreases rows,
{
    lemma_lattice(rows, cols);
    if rows > 0 {
        lemma_lattice_entries((rows - 1) as nat, cols);
        lemma_lattice_row_entries(rows - 1, cols, cols);
        let prev = lattice((rows - 1) as nat, cols);
        let row = lattice_row(rows - 1, cols as int, cols);
        let cur = lattice(rows, cols);
        assert(((rows - 1) as nat) as int == rows - 1);
        assert(cur == prev + row);
        assert(prev.len() == 6 * (rows - 1) * cols);
        assert forall|k: int| 0 <= k < 6 * rows * cols implies #[trigger] cur[k] == seq![
            (k / 6) / (cols as int) * (cols + 1) + (k / 6) % (cols as int),
            (k / 6) / (cols as int) * (cols + 1) + (k / 6) % (cols as int) + cols + 1,
            (k / 6) / (cols as int) * (cols + 1) + (k / 6) % (cols as int) + 1,
            (k / 6) / (cols as int) * (cols + 1) + (k / 6) % (cols as int) + cols + 1,
            (k / 6) / (cols as int) * (cols + 1) + (k / 6) % (cols as int) + cols + 2,
            (k / 6) / (cols as int) * (cols + 1) + (k / 6) % (cols as int) + 1,
        ][k % 6] by {
            if k < prev.len() {
                assert(cur[k] == prev[k]);
            } else {
                let k2 = k - prev.len();
                assert(cur[k] == row[k2]);
                assert(0 <= k2 < 6 * cols) by (nonlinear_arith)
                    requires
                        k2 == k - 6 * (rows - 1) * cols,
                        k < 6 * rows * cols,
                        k >= 6 * (rows - 1) * cols,
                ;
                lemma_fundamental_div_mod(k2, 6);
                let c = k2 / 6;
                let j = k2 % 6;
                let q = (rows - 1) * cols + c;
                assert(k == q * 6 + j) by (nonlinear_arith)
                    requires
                        k2 == k - 6 * (rows - 1) * cols,
                        k2 == 6 * c + j,
                        q == (rows - 1) * cols + c,
                ;
                assert(0 <= j < 6);
                lemma_fundamental_div_mod_converse(k, 6, q, j);
                assert(0 <= c < cols);
                lemma_fundamental_div_mod_converse(q, cols as int, rows - 1, c);
            }
        }
    } else {
        assert(6 * rows * cols == 0) by (nonlinear_arith)
            requires
                rows == 0,
        ;
    }
}

/// Append the six entries of `entries` to `v`.
fn push_six(v: &mut Vec<u32>, e0: u32, e1: u32, e2: u32, e3: u32, e4: u32, e5: u32)
    ensures
        final(v)@ == old(v)@ + seq![e0, e1, e2, e3, e4, e5],
{
    v.push(e0);
    v.push(e1);
    v.push(e2);
    v.push(e3);
    v.push(e4);
    v.push(e5);
    assert(v@ =~= old(v)@ + seq![e0, e1, e2, e3, e4, e5]);
}

/// Append the three entries to `v`.
fn push_three(v: &mut Vec<u32>, e0: u32, e1: u32, e2: u32)
    ensures
        final(v)@ == old(v)@ + seq![e0, e1, e2],
{
    v.push(e0);
    v.push(e1);
    v.push(e2);
    assert(v@ =~= old(v)@ + seq![e0, e1, e2]);
}

/// Indices of `n` quads over vertices `0 .. 4 n`.
fn quad_list(n: u32) -> (res: Vec<u32>)
    requires
        4 * n <= u32::MAX + 1,
    ensures
        holds_indices(res@, quads(n as nat)),
{
    let mut v: Vec<u32> = Vec::new();
    let mut q: u32 = 0;
    while q < n
        invariant
            q <= n,
            4 * n <= u32::MAX + 1,
            holds_indices(v@, quads(q as nat)),
        decreases n - q,
    {
        let b = 4 * q;
        let ghost prev = v@;
        push_six(&mut v, b, b + 1, b + 2, b, b + 2, b + 3);
        proof {
            let sp = quads((q + 1) as nat);
            assert(sp == quads(q as nat) + quad(4 * q));
            assert forall|k: int| 0 <= k < v@.len() implies v@[k] as int == sp[k] by {
                if k < prev.len() {
                    assert(v@[k] == prev[k]);
                }
            }
        }
        q = q + 1;
    }
    v
}

/// Indices of a lattice of `rows` by `cols` cells over `rows + 1` rows of
/// `cols + 1` vertices.
fn lattice_list(rows: u32, cols: u32) -> (res: Vec<u32>)
    requires
        (rows + 1) * (cols + 1) <= u32::MAX + 1,
    ensures
        holds_indices(res@, lattice(rows as nat, cols as nat)),
{
    let mut v: Vec<u32> = Vec::new();
    let mut r: u32 = 0;
    while r < rows
        invariant
            r <= rows,
            (rows + 1) * (cols + 1) <= u32::MAX + 1,
            holds_indices(v@, lattice(r as nat, cols as nat)),
        decreases rows - r,
    {
        let mut s: u32 = 0;
        while s < cols
            invariant
                r < rows,
                s <= cols,
                (rows + 1) * (cols + 1) <= u32::MAX + 1,
                holds_indices(v@, lattice(r as nat, cols as nat) + lattice_row(r as int, cols as int, s as nat)),
            decreases cols - s,
        {
            proof {
                assert(r * (cols + 1) + s + cols + 3 <= (rows + 1) * (cols + 1)) by (nonlinear_arith)
                    requires
                        r < rows,
                        s < cols,
                ;
            }
            let a = r * (cols + 1) + s;
            let b = a + cols + 1;
            let ghost prev = v@;
            push_six(&mut v, a, b, a + 1, b, b + 1, a + 1);
            proof {
                let base = lattice(r as nat, cols as nat);
                let sp = base + lattice_row(r as int, cols as int, (s + 1) as nat);
                assert(lattice_row(r as int, cols as int, (s + 1) as nat) == lattice_row(r as int, cols as int, s as nat) + lattice_cell(a as int, b as int));
                assert forall|k: int| 0 <= k < v@.len() implies v@[k] as int == sp[k] by {
                    if k < prev.len() {
                        assert(v@[k] == prev[k]);
                        if k < base.len() {
                        } else {
                            assert(sp[k] == lattice_row(r as int, cols as int, (s + 1) as nat)[k - base.len()]);
                        }
                    } else {
                        assert(sp[k] == lattice_row(r as int, cols as int, (s + 1) as nat)[k - base.len()]);
                    }
                }
            }
            s = s + 1;
        }
        proof {
            assert(lattice((r + 1) as nat, cols as nat) == lattice(r as nat, cols as nat) + lattice_row(r as int, cols as int, cols as nat));
        }
        r = r + 1;
    }
    v
}

impl Geometry {
    /// Index buffer of an axis-aligned box: its 24 vertices come as six
    /// faces of four corners each; every face is one quad.
    pub fn box_indices() -> (res: Vec<u32>)
        ensures
            holds_indices(res@, quads(6)),
            res@.len() == 36,
            indices_below(quads(6), 24),
            forall|k: int|
                0 <= k < 36 ==> #[trigger] res@[k] as int == 4 * (k / 6) + seq![0int, 1, 2, 0, 2, 3][k % 6],
    {
        proof {
            lemma_quads(6);
            lemma_quads_entries(6);
        }
        quad_list(6)
    }

    /// Index buffer of a UV sphere with `segments` rings and `segments`
    /// sectors: its vertices come as `segments + 1` rings of
    /// `segments + 1` vertices, and every ring-sector cell is two
    /// triangles, `2 × segments²` in all.
    pub fn sphere_indices(segments: u32) -> (res: Vec<u32>)
        requires
            (segments + 1) * (segments + 1) <= u32::MAX,
            segments * segments * 6 <= u32::MAX,
        ensures
            holds_indices(res@, lattice(segments as nat, segments as nat)),
            res@.len() == 6 * segments * segments,
            indices_below(lattice(segments as nat, segments as nat), (segments + 1) * (segments + 1)),
            forall|k: int|
                0 <= k < res@.len() ==> #[trigger] res@[k] as int == seq![
                    (k / 6) / (segments as int) * (segments + 1) + (k / 6) % (segments as int),
                    (k / 6) / (segments as int) * (segments + 1) + (k / 6) % (segments as int) + segments + 1,
                    (k / 6) / (segments as int) * (segments + 1) + (k / 6) % (segments as int) + 1,
                    (k / 6) / (segments as int) * (segments + 1) + (k / 6) % (segments as int) + segments + 1,
                    (k / 6) / (segments as int) * (segments + 1) + (k / 6) % (segments as int) + segments + 2,
                    (k / 6) / (segments as int) * (segments + 1) + (k / 6) % (segments as int) + 1,
                ][k % 6],
    {
        proof {
            lemma_lattice(segments as nat, segments as nat);
            lemma_lattice_entries(segments as nat, segments as nat);
        }
        lattice_list(segments, segments)
    }

    /// Index buffer of a torus: its vertices come as `major_segments + 1`
    /// tube rings of `minor_segments + 1` vertices, and every cell between
    /// neighbouring rings is two triangles.
    pub fn torus_indices(major_segments: u32, minor_segments: u32) -> (res: Vec<u32>)
        requires
            (major_segments + 1) * (minor_segments + 1) <= u32::MAX + 1,
        ensures
            holds_indices(res@, lattice(major_segments as nat, minor_segments as nat)),
            res@.len() == 6 * major_segments * minor_segments,
            indices_below(
                lattice(major_segments as nat, minor_segments as nat),
                (major_segments + 1) * (minor_segments + 1),
            ),
            forall|k: int|
                0 <= k < res@.len() ==> #[trigger] res@[k] as int == seq![
                    (k / 6) / (minor_segments as int) * (minor_segments + 1) + (k / 6) % (minor_segments as int),
                    (k / 6) / (minor_segments as int) * (minor_segments + 1) + (k / 6) % (minor_segments as int) + minor_segments + 1,
                    (k / 6) / (minor_segments as int) * (minor_segments + 1) + (k / 6) % (minor_segments as int) + 1,
                    (k / 6) / (minor_segments as int) * (minor_segments + 1) + (k / 6) % (minor_segments as int) + minor_segments + 1,
                    (k / 6) / (minor_segments as int) * (minor_segments + 1) + (k / 6) % (minor_segments as int) + minor_segments + 2,
                    (k / 6) / (minor_segments as int) * (minor_segments + 1) + (k / 6) % (minor_segments as int) + 1,
                ][k % 6],
    {
        proof {
            lemma_lattice(major_segments as nat, minor_segments as nat);
            lemma_lattice_entries(major_segments as nat, minor_segments as nat);
        }
        lattice_list(major_segments, minor_segments)
    }

    /// Index buffer of a cylinder with `segments` segments. Its vertices
    /// are the `segments + 1` (bottom, top) pairs of the wall, then the top
    /// centre and the `segments + 1` top-ring vertices, then the bottom
    /// centre and the `segments + 1` bottom-ring vertices:
    /// `4 segments + 6` in all. The wall is `segments` quads, each cap a
    /// fan of `segments` triangles.
    pub fn cylinder_indices(segments: u32) -> (res: Vec<u32>)
        requires
            4 * segments + 6 <= u32::MAX,
        ensures
            holds_indices(res@, cylinder(segments as nat)),
            res@.len() == 12 * segments,
            indices_below(cylinder(segments as nat), 4 * segments + 6),
            forall|k: int|
                0 <= k < 6 * segments ==> #[trigger] res@[k] as int == 2 * (k / 6) + seq![0int, 1, 2, 1, 3, 2][k
                    % 6],
            forall|k: int|
                6 * segments <= k < 9 * segments ==> #[trigger] res@[k] as int == seq![
                    2 * segments + 2int,
                    2 * segments + 3 + (k - 6 * segments) / 3,
                    2 * segments + 4 + (k - 6 * segments) / 3,
                ][(k - 6 * segments) % 3],
            forall|k: int|
                9 * segments <= k < 12 * segments ==> #[trigger] res@[k] as int == seq![
                    3 * segments + 4int,
                    3 * segments + 6 + (k - 9 * segments) / 3,
                    3 * segments + 5 + (k - 9 * segments) / 3,
                ][(k - 9 * segments) % 3],
    {
        let mut v: Vec<u32> = Vec::new();
        let ghost sn = segments as nat;
        let mut i: u32 = 0;
        while i < segments
            invariant
                i <= segments,
                4 * segments + 6 <= u32::MAX,
                holds_indices(v@, cylinder_side(i as nat)),
            decreases segments - i,
        {
            let base = i * 2;
            let ghost prev = v@;
            push_six(&mut v, base, base + 1, base + 2, base + 1, base + 3, base + 2);
            proof {
                let sp = cylinder_side((i + 1) as nat);
                assert forall|k: int| 0 <= k < v@.len() implies v@[k] as int == sp[k] by {
                    if k < prev.len() {
                        assert(v@[k] == prev[k]);
                    }
                }
            }
            i = i + 1;
        }
        let top_center: u32 = 2 * (segments + 1);
        let ghost side = v@;
        let mut i: u32 = 0;
        while i < segments
            invariant
                i <= segments,
                4 * segments + 6 <= u32::MAX,
                top_center == 2 * (segments + 1),
                holds_indices(side, cylinder_side(sn)),
                holds_indices(v@, cylinder_side(sn) + top_fan(top_center as int, i as nat)),
            decreases segments - i,
        {
            let ghost prev = v@;
            push_three(&mut v, top_center, top_center + 1 + i, top_center + 2 + i);
            proof {
                let sp = cylinder_side(sn) + top_fan(top_center as int, (i + 1) as nat);
                let sp0 = cylinder_side(sn) + top_fan(top_center as int, i as nat);
                assert(sp =~= sp0 + seq![top_center as int, top_center + 1 + i, top_center + 2 + i]);
                assert forall|k: int| 0 <= k < v@.len() implies v@[k] as int == sp[k] by {
                    if k < prev.len() {
                        assert(v@[k] == prev[k]);
                        assert(sp[k] == sp0[k]);
                    }
                }
            }
            i = i + 1;
        }
        let bot_center: u32 = top_center + 1 + (segments + 1);
        let mut i: u32 = 0;
        while i < segments
            invariant
                i <= segments,
                4 * segments + 6 <= u32::MAX,
                top_center == 2 * (segments + 1),
                bot_center == top_center + segments + 2,
                holds_indices(v@, cylinder_side(sn) + top_fan(top_center as int, sn) + bottom_fan(bot_center as int, i as nat)),
            decreases segments - i,
        {
            let ghost prev = v@;
            push_three(&mut v, bot_center, bot_center + 2 + i, bot_center + 1 + i);
            proof {
                let head = cylinder_side(sn) + top_fan(top_center as int, sn);
                let sp = head + bottom_fan(bot_center as int, (i + 1) as nat);
                let sp0 = head + bottom_fan(bot_center as int, i as nat);
                assert(sp =~= sp0 + seq![bot_center as int, bot_center + 2 + i, bot_center + 1 + i]);
                assert forall|k: int| 0 <= k < v@.len() implies v@[k] as int == sp[k] by {
                    if k < prev.len() {
                        assert(v@[k] == prev[k]);
                        assert(sp[k] == sp0[k]);
                    }
                }
            }
            i = i + 1;
        }
        proof {
            let top: int = 2 * (sn + 1) as int;
            let bottom: int = top + sn + 2;
            lemma_cylinder_parts(sn, top, bottom);
            lemma_cylinder_entries(sn);
            let c = cylinder(sn);
            let side = cylinder_side(sn);
            let tf = top_fan(top, sn);
            assert forall|k: int| 0 <= k < c.len() implies 0 <= #[trigger] c[k] < 4 * sn + 6 by {
                if k < side.len() {
                    assert(c[k] == side[k]);
                } else if k < side.len() + tf.len() {
                    assert(c[k] == tf[k - side.len()]);
                } else {
                    assert(c[k] == bottom_fan(bottom, sn)[k - side.len() - tf.len()]);
                }
            }
        }
        v
    }

    /// Index buffer of a line grid with `divisions × subdivisions` cells
    /// along each axis: its vertices come as `divisions × subdivisions + 1`
    /// pairs of line quads (one along each axis), four corners per quad.
    pub fn grid_indices(divisions: u32, subdivisions: u32) -> (res: Vec<u32>)
        requires
            divisions * subdivisions <= u32::MAX,
            8 * (divisions * subdivisions + 1) <= u32::MAX + 1,
        ensures
            holds_indices(res@, quads((2 * (divisions * subdivisions + 1)) as nat)),
            indices_below(
                quads((2 * (divisions * subdivisions + 1)) as nat),
                8 * (divisions * subdivisions + 1),
            ),
            res@.len() == 12 * (divisions * subdivisions + 1),
            forall|k: int|
                0 <= k < res@.len() ==> #[trigger] res@[k] as int == 4 * (k / 6) + seq![0int, 1, 2, 0, 2, 3][k
                    % 6],
    {
        let total_lines = divisions * subdivisions;
        proof {
            lemma_quads((2 * (total_lines + 1)) as nat);
            lemma_quads_entries((2 * (total_lines + 1)) as nat);
        }
        quad_list(2 * (total_lines + 1))
    }
}

} // verus!
