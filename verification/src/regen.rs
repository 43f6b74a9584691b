use crate::layer::Layer;
use crate::model::{filled_at, grid_bounded, Model};
use crate::regen_temp::{
    back_exposed, bottom_exposed, corner_vertex, find_pos, front_exposed, left_exposed,
    lemma_find_pos, right_exposed, temp_matches, top_exposed,
};
use crate::utils::{push_absent, scale_spec};
use crate::vertex::{Pos3, ScaledVertex, Vertex};
use crate::voxel::Voxel;
use vstd::prelude::*;

verus! {

// The fixed corner-index pattern of each face: two counter-clockwise
// triangles over the canonical corner numbering.

pub open spec fn indices_top() -> Seq<u32> {
    seq![0u32, 1u32, 3u32, 3u32, 1u32, 2u32]
}

pub open spec fn indices_bottom() -> Seq<u32> {
    seq![4u32, 5u32, 7u32, 5u32, 6u32, 7u32]
}

pub open spec fn indices_front() -> Seq<u32> {
    seq![1u32, 5u32, 2u32, 5u32, 6u32, 2u32]
}

pub open spec fn indices_back() -> Seq<u32> {
    seq![4u32, 7u32, 3u32, 0u32, 4u32, 3u32]
}

pub open spec fn indices_left() -> Seq<u32> {
    seq![0u32, 1u32, 4u32, 4u32, 5u32, 1u32]
}

pub open spec fn indices_right() -> Seq<u32> {
    seq![7u32, 6u32, 2u32, 7u32, 2u32, 3u32]
}

/// The state the mesh compiler carries across the whole pass.
///
/// * `verts` is the growing vertex buffer.
/// * `inds` is the growing triangle index list.
/// * `culled` holds, in increasing order, every pre-deduplication slot
///   whose corner was never pushed because an equal position already
///   existed in `verts`.
/// * `offset` is the number of pre-deduplication slots handed out so far:
///   eight per processed filled voxel, whether or not its corners were
///   deduplicated. Slot `offset + c` belongs to corner `c` of the voxel
///   being processed.
pub ghost struct GenState {
    pub verts: Seq<Vertex>,
    pub inds: Seq<u32>,
    pub culled: Seq<usize>,
    pub offset: int,
}

/// The state a compilation starts from.
pub open spec fn init_state() -> GenState {
    GenState { verts: Seq::empty(), inds: Seq::empty(), culled: Seq::empty(), offset: 0 }
}

/// How many entries of `s` are below `x`.
pub open spec fn count_lt(s: Seq<usize>, x: int) -> int
    decreases s.len(),
{
    if s.len() == 0 {
        0
    } else {
        count_lt(s.drop_last(), x) + if s.last() < x {
            1int
        } else {
            0int
        }
    }
}

/// The entries of `s` grow strictly from left to right.
pub open spec fn strictly_increasing(s: Seq<usize>) -> bool {
    forall|i: int, j: int| 0 <= i < j < s.len() ==> s[i] < s[j]
}

/// A corner's duplicate mark: the index of the vertex it duplicates, or
/// `-1` when the corner's vertex was freshly pushed.
pub open spec fn dup_mark(o: Option<int>) -> i32 {
    match o {
        Some(i) => i as i32,
        None => -1i32,
    }
}

/// The index emitted for raw corner index `ind` of the current voxel.
/// A deduplicated corner reuses the index of the vertex it matched.
/// Any other corner owns pre-deduplication slot `ind + offset` and its
/// vertex really was pushed, so its final position in the vertex buffer is
/// that slot minus the number of earlier slots that were culled and hence
/// never occupied a position.
pub open spec fn effective_index(ind: int, offset: int, culled: Seq<usize>, dups: Seq<i32>) -> u32 {
    if dups[ind] == -1 {
        (ind + offset - count_lt(culled, ind + offset)) as u32
    } else {
        dups[ind] as u32
    }
}

/// The six indices emitted for one face: the face's corner pattern, each
/// entry resolved by [`effective_index`].
pub open spec fn emitted(pattern: Seq<u32>, offset: int, culled: Seq<usize>, dups: Seq<i32>) -> Seq<
    u32,
> {
    Seq::new(pattern.len(), |k: int| effective_index(pattern[k] as int, offset, culled, dups))
}

/// Appends one face's six indices to the state.
pub open spec fn emit_face(t: GenState, pattern: Seq<u32>, dups: Seq<i32>) -> GenState {
    GenState {
        verts: t.verts,
        inds: t.inds + emitted(pattern, t.offset, t.culled, dups),
        culled: t.culled,
        offset: t.offset,
    }
}

/// Processes one corner: a corner with a duplicate mark contributes its
/// pre-deduplication slot to `culled`; any other corner pushes its vertex.
pub open spec fn corner_update(t: GenState, v: Vertex, d: i32, c: int) -> GenState {
    if d == -1 {
        GenState { verts: t.verts.push(v), inds: t.inds, culled: t.culled, offset: t.offset }
    } else {
        GenState {
            verts: t.verts,
            inds: t.inds,
            culled: push_absent(t.culled, (c + t.offset) as usize),
            offset: t.offset,
        }
    }
}

/// Processes the eight corners of the voxel at `(y, x, z)`: each corner is
/// resolved against the vertex buffer as it stands on entry, then pushed or
/// culled, in the canonical corner order.
pub open spec fn corners_state(s: GenState, g: Seq<Seq<Seq<Voxel>>>, y: int, x: int, z: int)
    -> GenState {
    let v0 = corner_vertex(g, y, x, z, 0);
    let v1 = corner_vertex(g, y, x, z, 1);
    let v2 = corner_vertex(g, y, x, z, 2);
    let v3 = corner_vertex(g, y, x, z, 3);
    let v4 = corner_vertex(g, y, x, z, 4);
    let v5 = corner_vertex(g, y, x, z, 5);
    let v6 = corner_vertex(g, y, x, z, 6);
    let v7 = corner_vertex(g, y, x, z, 7);
    let d0 = dup_mark(find_pos(s.verts, v0.pos));
    let d1 = dup_mark(find_pos(s.verts, v1.pos));
    let d2 = dup_mark(find_pos(s.verts, v2.pos));
    let d3 = dup_mark(find_pos(s.verts, v3.pos));
    let d4 = dup_mark(find_pos(s.verts, v4.pos));
    let d5 = dup_mark(find_pos(s.verts, v5.pos));
    let d6 = dup_mark(find_pos(s.verts, v6.pos));
    let d7 = dup_mark(find_pos(s.verts, v7.pos));
    let t1 = corner_update(s, v0, d0, 0);
    let t2 = corner_update(t1, v1, d1, 1);
    let t3 = corner_update(t2, v2, d2, 2);
    let t4 = corner_update(t3, v3, d3, 3);
    let t5 = corner_update(t4, v4, d4, 4);
    let t6 = corner_update(t5, v5, d5, 5);
    let t7 = corner_update(t6, v6, d6, 6);
    corner_update(t7, v7, d7, 7)
}

/// Processes the filled voxel at `(y, x, z)`: resolves the eight corners
/// against the vertex buffer as it stands on entry, pushes or culls each
/// corner in order, emits the index pattern of every exposed face, and
/// finally advances `offset` by eight.
pub open spec fn process_voxel(s: GenState, g: Seq<Seq<Seq<Voxel>>>, y: int, x: int, z: int)
    -> GenState {
    let t8 = corners_state(s, g, y, x, z);
    let dups = dups_of(s.verts, g, y, x, z);
    let e1 = if top_exposed(g, y, x, z) {
        emit_face(t8, indices_top(), dups)
    } else {
        t8
    };
    let e2 = if bottom_exposed(g, y, x, z) {
        emit_face(e1, indices_bottom(), dups)
    } else {
        e1
    };
    let e3 = if right_exposed(g, y, x, z) {
        emit_face(e2, indices_right(), dups)
    } else {
        e2
    };
    let e4 = if left_exposed(g, y, x, z) {
        emit_face(e3, indices_left(), dups)
    } else {
        e3
    };
    let e5 = if front_exposed(g, y, x, z) {
        emit_face(e4, indices_front(), dups)
    } else {
        e4
    };
    let e6 = if back_exposed(g, y, x, z) {
        emit_face(e5, indices_back(), dups)
    } else {
        e5
    };
    GenState { verts: e6.verts, inds: e6.inds, culled: e6.culled, offset: e6.offset + 8 }
}

/// Processes the first `n` cells of row `x` of layer `y`, in order;
/// unfilled cells contribute nothing.
pub open spec fn process_cells(s: GenState, g: Seq<Seq<Seq<Voxel>>>, y: int, x: int, n: int)
    -> GenState
    decreases n,
{
    if n <= 0 {
        s
    } else {
        let t = process_cells(s, g, y, x, n - 1);
        if g[y][x][n - 1].filled {
            process_voxel(t, g, y, x, n - 1)
        } else {
            t
        }
    }
}

/// Processes the first `n` rows of layer `y`, each row in full.
pub open spec fn process_rows(s: GenState, g: Seq<Seq<Seq<Voxel>>>, y: int, n: int) -> GenState
    decreases n,
{
    if n <= 0 {
        s
    } else {
        let t = process_rows(s, g, y, n - 1);
        process_cells(t, g, y, n - 1, g[y][n - 1].len() as int)
    }
}

/// Processes the first `n` layers, each in full.
pub open spec fn process_layers(g: Seq<Seq<Seq<Voxel>>>, n: int) -> GenState
    decreases n,
{
    if n <= 0 {
        init_state()
    } else {
        process_rows(process_layers(g, n - 1), g, n - 1, g[n - 1].len() as int)
    }
}

/// The full compilation pass over a model's occupancy grid. The result is
/// a function of the grid alone: compiling equal models gives equal meshes.
pub open spec fn gen_state(g: Seq<Seq<Seq<Voxel>>>) -> GenState {
    process_layers(g, g.len() as int)
}

// ================= counting =================

/// How many of a voxel's six faces are exposed.
pub open spec fn exposed_count(g: Seq<Seq<Seq<Voxel>>>, y: int, x: int, z: int) -> int {
    (if top_exposed(g, y, x, z) {
        1int
    } else {
        0int
    }) + (if bottom_exposed(g, y, x, z) {
        1int
    } else {
        0int
    }) + (if right_exposed(g, y, x, z) {
        1int
    } else {
        0int
    }) + (if left_exposed(g, y, x, z) {
        1int
    } else {
        0int
    }) + (if front_exposed(g, y, x, z) {
        1int
    } else {
        0int
    }) + (if back_exposed(g, y, x, z) {
        1int
    } else {
        0int
    })
}

/// Filled cells among the first `n` cells of row `x` of layer `y`.
pub open spec fn count_row(g: Seq<Seq<Seq<Voxel>>>, y: int, x: int, n: int) -> int
    decreases n,
{
    if n <= 0 {
        0
    } else {
        count_row(g, y, x, n - 1) + if g[y][x][n - 1].filled {
            1int
        } else {
            0int
        }
    }
}

/// Filled cells in the first `n` rows of layer `y`.
pub open spec fn count_rows(g: Seq<Seq<Seq<Voxel>>>, y: int, n: int) -> int
    decreases n,
{
    if n <= 0 {
        0
    } else {
        count_rows(g, y, n - 1) + count_row(g, y, n - 1, g[y][n - 1].len() as int)
    }
}

/// Filled cells in the first `n` layers.
pub open spec fn count_layers(g: Seq<Seq<Seq<Voxel>>>, n: int) -> int
    decreases n,
{
    if n <= 0 {
        0
    } else {
        count_layers(g, n - 1) + count_rows(g, n - 1, g[n - 1].len() as int)
    }
}

/// All filled cells of the grid.
pub open spec fn count_filled(g: Seq<Seq<Seq<Voxel>>>) -> int {
    count_layers(g, g.len() as int)
}

/// Exposed faces of the filled cells among the first `n` of row `x`.
pub open spec fn exposed_row(g: Seq<Seq<Seq<Voxel>>>, y: int, x: int, n: int) -> int
    decreases n,
{
    if n <= 0 {
        0
    } else {
        exposed_row(g, y, x, n - 1) + if g[y][x][n - 1].filled {
            exposed_count(g, y, x, n - 1)
        } else {
            0int
        }
    }
}

/// Exposed faces of the filled cells in the first `n` rows of layer `y`.
pub open spec fn exposed_rows(g: Seq<Seq<Seq<Voxel>>>, y: int, n: int) -> int
    decreases n,
{
    if n <= 0 {
        0
    } else {
        exposed_rows(g, y, n - 1) + exposed_row(g, y, n - 1, g[y][n - 1].len() as int)
    }
}

/// Exposed faces of the filled cells in the first `n` layers.
pub open spec fn exposed_layers(g: Seq<Seq<Seq<Voxel>>>, n: int) -> int
    decreases n,
{
    if n <= 0 {
        0
    } else {
        exposed_layers(g, n - 1) + exposed_rows(g, n - 1, g[n - 1].len() as int)
    }
}

/// Exposed faces of every filled cell of the grid.
pub open spec fn total_exposed(g: Seq<Seq<Seq<Voxel>>>) -> int {
    exposed_layers(g, g.len() as int)
}

// ================= counting lemmas =================

/// In a sequence whose entries are all below `x`, `count_lt` counts them all.
pub proof fn lemma_count_lt_all(s: Seq<usize>, x: int)
    requires
        forall|i: int| 0 <= i < s.len() ==> s[i] < x,
    ensures
        count_lt(s, x) == s.len(),
    decreases s.len(),
{
    if s.len() > 0 {
        lemma_count_lt_all(s.drop_last(), x);
    }
}

/// `count_lt` never counts more entries than there are.
pub proof fn lemma_count_lt_len(s: Seq<usize>, x: int)
    ensures
        0 <= count_lt(s, x) <= s.len(),
    decreases s.len(),
{
    if s.len() > 0 {
        lemma_count_lt_len(s.drop_last(), x);
    }
}

/// A strictly increasing sequence has at most `x` entries below `x`: its
/// entries below `x` are distinct values inside `[0, x)`.
pub proof fn lemma_count_lt_bound(s: Seq<usize>, x: int)
    requires
        strictly_increasing(s),
        0 <= x,
    ensures
        count_lt(s, x) <= x,
    decreases s.len(),
{
    if s.len() == 0 {
    } else {
        let s1 = s.drop_last();
        assert(forall|i: int, j: int| 0 <= i < j < s1.len() ==> s1[i] < s1[j]);
        if (s.last() as int) < x {
            assert(forall|i: int| 0 <= i < s1.len() ==> s1[i] < s.last());
            lemma_count_lt_all(s1, s.last() as int);
            lemma_count_lt_bound(s1, s.last() as int);
            lemma_count_lt_len(s1, x);
        } else {
            lemma_count_lt_bound(s1, x);
        }
    }
}

/// In a strictly increasing sequence whose entries are all below `b`, none
/// of them equal to `a`, at most `b - a - 1` entries are `a` or above: they
/// are distinct values inside `(a, b)`.
pub proof fn lemma_count_ge_bound(s: Seq<usize>, a: int, b: int)
    requires
        strictly_increasing(s),
        forall|i: int| 0 <= i < s.len() ==> s[i] < b,
        forall|i: int| 0 <= i < s.len() ==> s[i] != a,
        0 <= a < b,
    ensures
        s.len() - count_lt(s, a) <= b - a - 1,
    decreases s.len(),
{
    if s.len() == 0 {
    } else {
        let s1 = s.drop_last();
        assert(forall|i: int, j: int| 0 <= i < j < s1.len() ==> s1[i] < s1[j]);
        if (s.last() as int) < a {
            lemma_count_ge_bound(s1, a, b);
        } else {
            assert(s.last() > a);
            assert(forall|i: int| 0 <= i < s1.len() ==> s1[i] < s.last());
            lemma_count_ge_bound(s1, a, s.last() as int);
        }
    }
}

// ================= emitting indices =================

/// How many entries of `culled` are below `limit`.
fn count_below(culled: &Vec<usize>, limit: usize) -> (c: usize)
    ensures
        c == count_lt(culled@, limit as int),
{
    let mut c: usize = 0;
    let n = culled.len();
    for j in 0..n
        invariant
            n == culled@.len(),
            c == count_lt(culled@.take(j as int), limit as int),
            c <= j,
    {
        proof {
            assert(culled@.take(j + 1).drop_last() =~= culled@.take(j as int));
            assert(culled@.take(j + 1).last() == culled@[j as int]);
        }
        if culled[j] < limit {
            c = c + 1;
        }
    }
    proof {
        assert(culled@.take(n as int) =~= culled@);
    }
    c
}

/// Appends the six indices of one face to `vector`.
///
/// `indices` is the face's fixed corner pattern, `index_offset` the first
/// pre-deduplication slot of the current voxel, `culled` the culled slots
/// so far in increasing order, and `duplicate_list` the per-corner
/// duplicate marks (`-1`, or the index of the matched vertex). Each raw
/// corner index resolves as [`effective_index`] says.
pub fn push_indices(vector: &mut Vec<u32>, indices: &Vec<u32>, index_offset: u32, culled: &Vec<
    usize,
>, duplicate_list: &Vec<i32>)
    requires
        indices@.len() == 6,
        forall|k: int| 0 <= k < 6 ==> #[trigger] indices@[k] < 8,
        duplicate_list@.len() == 8,
        forall|k: int| 0 <= k < 8 ==> #[trigger] duplicate_list@[k] >= -1,
        strictly_increasing(culled@),
        index_offset + 8 <= 0x7fff_ffff,
    ensures
        final(vector)@ == old(vector)@ + emitted(
            indices@,
            index_offset as int,
            culled@,
            duplicate_list@,
        ),
{
    let n = indices.len();
    for k in 0..n
        invariant
            n == 6,
            indices@.len() == 6,
            forall|j: int| 0 <= j < 6 ==> #[trigger] indices@[j] < 8,
            duplicate_list@.len() == 8,
            forall|j: int| 0 <= j < 8 ==> #[trigger] duplicate_list@[j] >= -1,
            strictly_increasing(culled@),
            index_offset + 8 <= 0x7fff_ffff,
            vector@.len() == old(vector)@.len() + k,
            old(vector)@.is_prefix_of(vector@),
            forall|j: int|
                0 <= j < k ==> vector@[old(vector)@.len() + j] == effective_index(
                    indices@[j] as int,
                    index_offset as int,
                    culled@,
                    duplicate_list@,
                ),
    {
        let ind = indices[k];
        let d = duplicate_list[ind as usize];
        let val: u32 = if d == -1 {
            let slot = ind + index_offset;
            let cull = count_below(culled, slot as usize);
            proof {
                lemma_count_lt_bound(culled@, slot as int);
            }
            slot - (cull as u32)
        } else {
            d as u32
        };
        assert(val == effective_index(
            indices@[k as int] as int,
            index_offset as int,
            culled@,
            duplicate_list@,
        ));
        vector.push(val);
    }
    proof {
        assert(vector@ =~= old(vector)@ + emitted(
            indices@,
            index_offset as int,
            culled@,
            duplicate_list@,
        ));
    }
}


// ================= the compilation invariant =================

/// What holds of the compiler's state between voxels.
///
/// * Every pre-deduplication slot either produced a vertex or was culled,
///   so `verts` and `culled` together account for exactly `offset` slots.
/// * Culled slots were recorded in strictly increasing order, and all of
///   them belong to voxels that are done.
/// * Every emitted index points into the vertex buffer.
/// * No two vertices of the buffer share a position: deduplication works.
pub open spec fn st_inv(s: GenState) -> bool {
    &&& s.verts.len() + s.culled.len() == s.offset
    &&& strictly_increasing(s.culled)
    &&& forall|i: int| 0 <= i < s.culled.len() ==> (#[trigger] s.culled[i] as int) < s.offset
    &&& forall|i: int| 0 <= i < s.inds.len() ==> (#[trigger] s.inds[i] as int) < s.verts.len()
    &&& forall|i: int, j: int|
        #![trigger s.verts[i], s.verts[j]]
        0 <= i < j < s.verts.len() ==> s.verts[i].pos != s.verts[j].pos
}

/// A vertex that processing the voxel at `(y, x, z)` pushes: it is the
/// vertex of one of the voxel's first `c` corners, and its position was
/// absent from the vertex buffer `verts0` that the voxel started from.
pub open spec fn pushed_corner(
    verts0: Seq<Vertex>,
    g: Seq<Seq<Seq<Voxel>>>,
    y: int,
    x: int,
    z: int,
    c: int,
    v: Vertex,
) -> bool {
    exists|cc: int|
        0 <= cc < c && v == corner_vertex(g, y, x, z, cc) && find_pos(
            verts0,
            corner_vertex(g, y, x, z, cc).pos,
        ) is None
}

/// A slot that processing the voxel at `(y, x, z)` culls: the slot of one
/// of the voxel's first `c` corners, whose position already had a vertex in
/// the buffer `verts0` that the voxel started from.
pub open spec fn culled_slot(
    verts0: Seq<Vertex>,
    g: Seq<Seq<Seq<Voxel>>>,
    y: int,
    x: int,
    z: int,
    c: int,
    offset: int,
    slot: usize,
) -> bool {
    exists|cc: int|
        0 <= cc < c && slot as int == cc + offset && find_pos(
            verts0,
            corner_vertex(g, y, x, z, cc).pos,
        ) is Some
}

/// What holds after the first `c` corners of the voxel at `(y, x, z)` have
/// been processed, starting from state `s`: the books still balance, the
/// vertex buffer has grown only by corners of this voxel whose position was
/// not yet present, and the culled list has grown only by slots of this
/// voxel whose corner matched an existing vertex.
pub open spec fn voxel_mid_inv(
    s: GenState,
    t: GenState,
    g: Seq<Seq<Seq<Voxel>>>,
    y: int,
    x: int,
    z: int,
    c: int,
) -> bool {
    &&& t.offset == s.offset
    &&& t.inds == s.inds
    &&& t.verts.len() + t.culled.len() == s.offset + c
    &&& s.verts.is_prefix_of(t.verts)
    &&& strictly_increasing(t.culled)
    &&& forall|i: int| 0 <= i < t.culled.len() ==> (#[trigger] t.culled[i] as int) < s.offset + c
    &&& forall|i: int|
        0 <= i < t.culled.len() ==> s.culled.contains(#[trigger] t.culled[i]) || culled_slot(
            s.verts,
            g,
            y,
            x,
            z,
            c,
            s.offset,
            t.culled[i],
        )
    &&& forall|i: int|
        s.verts.len() <= i < t.verts.len() ==> pushed_corner(
            s.verts,
            g,
            y,
            x,
            z,
            c,
            #[trigger] t.verts[i],
        )
    &&& forall|i: int, j: int|
        #![trigger t.verts[i], t.verts[j]]
        0 <= i < j < t.verts.len() ==> t.verts[i].pos != t.verts[j].pos
    &&& forall|cc: int|
        0 <= cc < c && find_pos(s.verts, (#[trigger] corner_vertex(g, y, x, z, cc)).pos) is None
            ==> {
            let vi = cc + s.offset - count_lt(t.culled, cc + s.offset);
            &&& 0 <= vi < t.verts.len()
            &&& t.verts[vi] == corner_vertex(g, y, x, z, cc)
        }
}

/// Before any corner is processed, the mid-voxel invariant is the state
/// invariant itself.
pub proof fn lemma_voxel_mid_init(s: GenState, g: Seq<Seq<Seq<Voxel>>>, y: int, x: int, z: int)
    requires
        st_inv(s),
    ensures
        voxel_mid_inv(s, s, g, y, x, z, 0),
{
    assert(s.verts.is_prefix_of(s.verts)) by {
        assert(s.verts.subrange(0, s.verts.len() as int) =~= s.verts);
    }
    assert forall|i: int| 0 <= i < s.culled.len() implies s.culled.contains(
        #[trigger] s.culled[i],
    ) by {
        assert(s.culled[i] == s.culled[i]);
    }
}


/// Two different corners of one cube sit at two different positions; the
/// bounded grid keeps the coordinate casts from wrapping.
pub proof fn lemma_corner_positions_distinct(
    g: Seq<Seq<Seq<Voxel>>>,
    y: int,
    x: int,
    z: int,
    c1: int,
    c2: int,
)
    requires
        grid_bounded(g),
        0 <= y < g.len(),
        0 <= x < g[y].len(),
        0 <= z < g[y][x].len(),
        0 <= c1 < 8,
        0 <= c2 < 8,
        c1 != c2,
    ensures
        corner_vertex(g, y, x, z, c1).pos != corner_vertex(g, y, x, z, c2).pos,
{
    assert(g[y].len() < u32::MAX);
    assert(g[y][x].len() < u32::MAX);
    assert(x + 1 <= u32::MAX && y + 1 <= u32::MAX && z + 1 <= u32::MAX);
}

/// Processing one more corner keeps the mid-voxel invariant.
#[verifier::rlimit(100)]
pub proof fn lemma_corner_step(
    s: GenState,
    t: GenState,
    g: Seq<Seq<Seq<Voxel>>>,
    y: int,
    x: int,
    z: int,
    c: int,
)
    requires
        st_inv(s),
        grid_bounded(g),
        0 <= y < g.len(),
        0 <= x < g[y].len(),
        0 <= z < g[y][x].len(),
        s.offset + 8 <= 0x7fff_ffff,
        0 <= c < 8,
        voxel_mid_inv(s, t, g, y, x, z, c),
    ensures
        ({
            let v = corner_vertex(g, y, x, z, c);
            let d = dup_mark(find_pos(s.verts, v.pos));
            voxel_mid_inv(s, corner_update(t, v, d, c), g, y, x, z, c + 1)
        }),
{
    let v = corner_vertex(g, y, x, z, c);
    let fp = find_pos(s.verts, v.pos);
    let d = dup_mark(fp);
    let t1 = corner_update(t, v, d, c);
    lemma_find_pos(s.verts, v.pos);
    match fp {
        None => {
            assert(d == -1);
            assert(t1.verts == t.verts.push(v));
            assert(s.verts.is_prefix_of(t1.verts)) by {
                assert(t1.verts.subrange(0, s.verts.len() as int) =~= t.verts.subrange(
                    0,
                    s.verts.len() as int,
                ));
            }
            assert forall|i: int|
                0 <= i < t1.culled.len() implies s.culled.contains(#[trigger] t1.culled[i])
                || culled_slot(s.verts, g, y, x, z, c + 1, s.offset, t1.culled[i]) by {
                if !s.culled.contains(t.culled[i]) {
                    assert(culled_slot(s.verts, g, y, x, z, c, s.offset, t.culled[i]));
                    let cc = choose|cc: int|
                        0 <= cc < c && t.culled[i] as int == cc + s.offset && find_pos(
                            s.verts,
                            corner_vertex(g, y, x, z, cc).pos,
                        ) is Some;
                    assert(0 <= cc < c + 1 && t1.culled[i] as int == cc + s.offset && find_pos(
                        s.verts,
                        corner_vertex(g, y, x, z, cc).pos,
                    ) is Some);
                }
            }
            assert forall|i: int|
                s.verts.len() <= i < t1.verts.len() implies pushed_corner(
                s.verts,
                g,
                y,
                x,
                z,
                c + 1,
                #[trigger] t1.verts[i],
            ) by {
                if i < t.verts.len() {
                    assert(pushed_corner(s.verts, g, y, x, z, c, t.verts[i]));
                    let cc = choose|cc: int|
                        0 <= cc < c && t.verts[i] == corner_vertex(g, y, x, z, cc) && find_pos(
                            s.verts,
                            corner_vertex(g, y, x, z, cc).pos,
                        ) is None;
                    assert(t1.verts[i] == t.verts[i]);
                    assert(0 <= cc < c + 1 && t1.verts[i] == corner_vertex(g, y, x, z, cc)
                        && find_pos(s.verts, corner_vertex(g, y, x, z, cc).pos) is None);
                } else {
                    assert(t1.verts[i] == v);
                    assert(0 <= c < c + 1 && t1.verts[i] == corner_vertex(g, y, x, z, c)
                        && find_pos(s.verts, corner_vertex(g, y, x, z, c).pos) is None);
                }
            }
            assert forall|i: int, j: int|
                #![trigger t1.verts[i], t1.verts[j]]
                0 <= i < j < t1.verts.len() implies t1.verts[i].pos != t1.verts[j].pos by {
                if j < t.verts.len() {
                } else {
                    assert(t1.verts[j] == v);
                    if i < s.verts.len() {
                        assert(t1.verts[i] == s.verts[i]);
                    } else {
                        assert(pushed_corner(s.verts, g, y, x, z, c, t.verts[i]));
                        let cc = choose|cc: int|
                            0 <= cc < c && t.verts[i] == corner_vertex(g, y, x, z, cc) && find_pos(
                                s.verts,
                                corner_vertex(g, y, x, z, cc).pos,
                            ) is None;
                        lemma_corner_positions_distinct(g, y, x, z, cc, c);
                    }
                }
            }
        
            assert forall|cc: int|
                0 <= cc < c + 1 && find_pos(
                    s.verts,
                    (#[trigger] corner_vertex(g, y, x, z, cc)).pos,
                ) is None implies {
                let vi = cc + s.offset - count_lt(t1.culled, cc + s.offset);
                &&& 0 <= vi < t1.verts.len()
                &&& t1.verts[vi] == corner_vertex(g, y, x, z, cc)
            } by {
                if cc < c {
                    let vi = cc + s.offset - count_lt(t.culled, cc + s.offset);
                    assert(0 <= vi < t.verts.len() && t.verts[vi] == corner_vertex(g, y, x, z, cc));
                    assert(t1.verts[vi] == t.verts[vi]);
                } else {
                    assert(corner_vertex(g, y, x, z, cc) == v);
                    lemma_count_lt_all(t.culled, cc + s.offset);
                    assert(count_lt(t1.culled, cc + s.offset) == t.culled.len());
                    assert(cc + s.offset - count_lt(t1.culled, cc + s.offset) == t.verts.len());
                    assert(t1.verts[t.verts.len() as int] == v);
                }
            }
        },
        Some(ix) => {
            assert(0 <= ix < s.verts.len());
            assert(s.verts.len() <= s.offset);
            assert(d == ix as i32);
            assert(d != -1);
            let slot = (c + t.offset) as usize;
            assert(slot as int == c + s.offset);
            assert(forall|i: int|
                0 <= i < t.culled.len() ==> (#[trigger] t.culled[i] as int) < slot);
            assert(!t.culled.contains(slot));
            assert(t1.culled == t.culled.push(slot));
            assert(strictly_increasing(t1.culled));
            assert forall|i: int|
                0 <= i < t1.culled.len() implies s.culled.contains(#[trigger] t1.culled[i])
                || culled_slot(s.verts, g, y, x, z, c + 1, s.offset, t1.culled[i]) by {
                if i < t.culled.len() {
                    if !s.culled.contains(t.culled[i]) {
                        assert(culled_slot(s.verts, g, y, x, z, c, s.offset, t.culled[i]));
                        let cc = choose|cc: int|
                            0 <= cc < c && t.culled[i] as int == cc + s.offset && find_pos(
                                s.verts,
                                corner_vertex(g, y, x, z, cc).pos,
                            ) is Some;
                        assert(0 <= cc < c + 1 && t1.culled[i] as int == cc + s.offset && find_pos(
                            s.verts,
                            corner_vertex(g, y, x, z, cc).pos,
                        ) is Some);
                    }
                } else {
                    assert(t1.culled[i] == slot);
                    assert(0 <= c < c + 1 && t1.culled[i] as int == c + s.offset && find_pos(
                        s.verts,
                        corner_vertex(g, y, x, z, c).pos,
                    ) is Some);
                }
            }
            assert forall|i: int|
                s.verts.len() <= i < t1.verts.len() implies pushed_corner(
                s.verts,
                g,
                y,
                x,
                z,
                c + 1,
                #[trigger] t1.verts[i],
            ) by {
                assert(pushed_corner(s.verts, g, y, x, z, c, t.verts[i]));
                let cc = choose|cc: int|
                    0 <= cc < c && t.verts[i] == corner_vertex(g, y, x, z, cc) && find_pos(
                        s.verts,
                        corner_vertex(g, y, x, z, cc).pos,
                    ) is None;
                assert(0 <= cc < c + 1 && t1.verts[i] == corner_vertex(g, y, x, z, cc) && find_pos(
                    s.verts,
                    corner_vertex(g, y, x, z, cc).pos,
                ) is None);
            }
        
            assert(t1.culled.drop_last() =~= t.culled);
            assert(t1.culled.last() == slot);
            assert forall|cc: int|
                0 <= cc < c + 1 && find_pos(
                    s.verts,
                    (#[trigger] corner_vertex(g, y, x, z, cc)).pos,
                ) is None implies {
                let vi = cc + s.offset - count_lt(t1.culled, cc + s.offset);
                &&& 0 <= vi < t1.verts.len()
                &&& t1.verts[vi] == corner_vertex(g, y, x, z, cc)
            } by {
                assert(cc != c);
                let vi = cc + s.offset - count_lt(t.culled, cc + s.offset);
                assert(0 <= vi < t.verts.len() && t.verts[vi] == corner_vertex(g, y, x, z, cc));
                assert(count_lt(t1.culled, cc + s.offset) == count_lt(t.culled, cc + s.offset) + (
                if (slot as int) < cc + s.offset {
                    1int
                } else {
                    0int
                }));
                assert(slot as int >= cc + s.offset);
            }
        },
    }
}


/// A face pattern fit for emission: six raw corner indices, each below
/// eight.
pub open spec fn face_pattern_ok(pattern: Seq<u32>) -> bool {
    &&& pattern.len() == 6
    &&& forall|k: int| 0 <= k < 6 ==> #[trigger] pattern[k] < 8
}

/// The duplicate marks of the voxel at `(y, x, z)`, resolved against the
/// vertex buffer `verts`.
pub open spec fn dups_of(verts: Seq<Vertex>, g: Seq<Seq<Seq<Voxel>>>, y: int, x: int, z: int) -> Seq<
    i32,
> {
    Seq::new(8, |c: int| dup_mark(find_pos(verts, corner_vertex(g, y, x, z, c).pos)))
}

/// Every index a face emission produces points into the vertex buffer as
/// it stands after the voxel's eight corners were processed.
pub proof fn lemma_emitted_valid(s: GenState, t: GenState, g: Seq<Seq<Seq<Voxel>>>, y: int, x: int,
    z: int, pattern: Seq<u32>)
    requires
        st_inv(s),
        s.offset + 8 <= 0x7fff_ffff,
        voxel_mid_inv(s, t, g, y, x, z, 8),
        face_pattern_ok(pattern),
    ensures
        ({
            let dups = dups_of(s.verts, g, y, x, z);
            forall|k: int| #![trigger emitted(pattern, t.offset, t.culled, dups)[k]]
                0 <= k < 6 ==> (emitted(pattern, t.offset, t.culled, dups)[k] as int)
                    < t.verts.len()
        }),
{
    let dups = dups_of(s.verts, g, y, x, z);
    assert forall|k: int|
        0 <= k < 6 implies (#[trigger] emitted(pattern, t.offset, t.culled, dups)[k] as int)
        < t.verts.len() by {
        let ind = pattern[k] as int;
        let fp = find_pos(s.verts, corner_vertex(g, y, x, z, ind).pos);
        lemma_find_pos(s.verts, corner_vertex(g, y, x, z, ind).pos);
        match fp {
            Some(ix) => {
                assert(0 <= ix < s.verts.len());
                assert(s.verts.len() <= s.offset);
                assert(dups[ind] == ix as i32);
                assert(dups[ind] != -1);
                assert(s.verts.len() <= t.verts.len());
            },
            None => {
                assert(dups[ind] == -1i32);
                let slot = ind + s.offset;
                // the slot of a corner that was pushed is in no culled list
                assert forall|i: int| 0 <= i < t.culled.len() implies (#[trigger] t.culled[i] as int)
                    != slot by {
                    if s.culled.contains(t.culled[i]) {
                        let j = choose|j: int| 0 <= j < s.culled.len() && s.culled[j] == t.culled[i];
                        assert((s.culled[j] as int) < s.offset);
                    } else {
                        let cc = choose|cc: int|
                            0 <= cc < 8 && t.culled[i] as int == cc + s.offset && find_pos(
                                s.verts,
                                corner_vertex(g, y, x, z, cc).pos,
                            ) is Some;
                        assert(cc != ind);
                    }
                }
                lemma_count_ge_bound(t.culled, slot, s.offset + 8);
                lemma_count_lt_bound(t.culled, slot);
                lemma_count_lt_len(t.culled, slot);
                assert(t.verts.len() == s.offset + 8 - t.culled.len());
                assert(slot - count_lt(t.culled, slot) < t.verts.len());
            },
        }
    }
}

/// Every face pattern is six corner indices below eight.
pub proof fn lemma_patterns_ok()
    ensures
        face_pattern_ok(indices_top()),
        face_pattern_ok(indices_bottom()),
        face_pattern_ok(indices_right()),
        face_pattern_ok(indices_left()),
        face_pattern_ok(indices_front()),
        face_pattern_ok(indices_back()),
{
    assert forall|k: int| 0 <= k < 6 implies #[trigger] indices_top()[k] < 8 by {
        if k == 0 {
        } else if k == 1 {
        } else if k == 2 {
        } else if k == 3 {
        } else if k == 4 {
        } else {
        }
    }
    assert forall|k: int| 0 <= k < 6 implies #[trigger] indices_bottom()[k] < 8 by {
        if k == 0 {
        } else if k == 1 {
        } else if k == 2 {
        } else if k == 3 {
        } else if k == 4 {
        } else {
        }
    }
    assert forall|k: int| 0 <= k < 6 implies #[trigger] indices_right()[k] < 8 by {
        if k == 0 {
        } else if k == 1 {
        } else if k == 2 {
        } else if k == 3 {
        } else if k == 4 {
        } else {
        }
    }
    assert forall|k: int| 0 <= k < 6 implies #[trigger] indices_left()[k] < 8 by {
        if k == 0 {
        } else if k == 1 {
        } else if k == 2 {
        } else if k == 3 {
        } else if k == 4 {
        } else {
        }
    }
    assert forall|k: int| 0 <= k < 6 implies #[trigger] indices_front()[k] < 8 by {
        if k == 0 {
        } else if k == 1 {
        } else if k == 2 {
        } else if k == 3 {
        } else if k == 4 {
        } else {
        }
    }
    assert forall|k: int| 0 <= k < 6 implies #[trigger] indices_back()[k] < 8 by {
        if k == 0 {
        } else if k == 1 {
        } else if k == 2 {
        } else if k == 3 {
        } else if k == 4 {
        } else {
        }
    }
}

/// Emitting one face onto a state whose indices are all valid yields a
/// state whose indices are all valid; nothing else changes.
pub proof fn lemma_emit_step(
    s: GenState,
    t8: GenState,
    e_in: GenState,
    g: Seq<Seq<Seq<Voxel>>>,
    y: int,
    x: int,
    z: int,
    pattern: Seq<u32>,
)
    requires
        st_inv(s),
        s.offset + 8 <= 0x7fff_ffff,
        voxel_mid_inv(s, t8, g, y, x, z, 8),
        face_pattern_ok(pattern),
        e_in.verts == t8.verts,
        e_in.culled == t8.culled,
        e_in.offset == t8.offset,
        forall|i: int| 0 <= i < e_in.inds.len() ==> (#[trigger] e_in.inds[i] as int)
            < t8.verts.len(),
    ensures
        ({
            let e = emit_face(e_in, pattern, dups_of(s.verts, g, y, x, z));
            &&& e.verts == t8.verts
            &&& e.culled == t8.culled
            &&& e.offset == t8.offset
            &&& e.inds.len() == e_in.inds.len() + 6
            &&& forall|i: int| 0 <= i < e.inds.len() ==> (#[trigger] e.inds[i] as int)
                < t8.verts.len()
        }),
{
    lemma_emitted_valid(s, t8, g, y, x, z, pattern);
    let dups = dups_of(s.verts, g, y, x, z);
    let e = emit_face(e_in, pattern, dups);
    assert forall|i: int| 0 <= i < e.inds.len() implies (#[trigger] e.inds[i] as int)
        < t8.verts.len() by {
        if i < e_in.inds.len() {
            assert(e.inds[i] == e_in.inds[i]);
        } else {
            assert(e.inds[i] == emitted(pattern, t8.offset, t8.culled, dups)[i
                - e_in.inds.len()]);
        }
    }
}

/// Some vertex of the buffer sits above the ground plane. Every processed
/// voxel guarantees this: its up corners sit at height at least one.
pub open spec fn has_up_vertex(vs: Seq<Vertex>) -> bool {
    exists|i: int| 0 <= i < vs.len() && #[trigger] vs[i].pos.y >= 1
}

/// Whether some vertex of the buffer sits at position `p`.
pub open spec fn pos_in(vs: Seq<Vertex>, p: Pos3) -> bool {
    exists|i: int| 0 <= i < vs.len() && (#[trigger] vs[i]).pos == p
}

/// Prefixes compose.
pub proof fn lemma_prefix_trans(a: Seq<Vertex>, b: Seq<Vertex>, c: Seq<Vertex>)
    requires
        a.is_prefix_of(b),
        b.is_prefix_of(c),
    ensures
        a.is_prefix_of(c),
{
    assert forall|i: int| 0 <= i < a.len() implies c.subrange(0, a.len() as int)[i] == a[i] by {
        assert(a[i] == b.subrange(0, a.len() as int)[i]);
        assert(b[i] == c.subrange(0, b.len() as int)[i]);
    }
    assert(a =~= c.subrange(0, a.len() as int));
}

/// A position present in a buffer is present in every extension of it.
pub proof fn lemma_pos_in_prefix(a: Seq<Vertex>, b: Seq<Vertex>, p: Pos3)
    requires
        pos_in(a, p),
        a.is_prefix_of(b),
    ensures
        pos_in(b, p),
{
    let i = choose|i: int| 0 <= i < a.len() && (#[trigger] a[i]).pos == p;
    assert(a[i] == b.subrange(0, a.len() as int)[i]);
    assert(b[i].pos == p);
}

/// After a voxel's corners are processed, the mid-voxel invariant holds of
/// the state [`corners_state`] describes.
pub proof fn lemma_corners_state_mid(s: GenState, g: Seq<Seq<Seq<Voxel>>>, y: int, x: int, z: int)
    requires
        st_inv(s),
        grid_bounded(g),
        0 <= y < g.len(),
        0 <= x < g[y].len(),
        0 <= z < g[y][x].len(),
        s.offset + 8 <= 0x7fff_ffff,
    ensures
        voxel_mid_inv(s, corners_state(s, g, y, x, z), g, y, x, z, 8),
{
    let v0 = corner_vertex(g, y, x, z, 0);
    let v1 = corner_vertex(g, y, x, z, 1);
    let v2 = corner_vertex(g, y, x, z, 2);
    let v3 = corner_vertex(g, y, x, z, 3);
    let v4 = corner_vertex(g, y, x, z, 4);
    let v5 = corner_vertex(g, y, x, z, 5);
    let v6 = corner_vertex(g, y, x, z, 6);
    let v7 = corner_vertex(g, y, x, z, 7);
    let d0 = dup_mark(find_pos(s.verts, v0.pos));
    let d1 = dup_mark(find_pos(s.verts, v1.pos));
    let d2 = dup_mark(find_pos(s.verts, v2.pos));
    let d3 = dup_mark(find_pos(s.verts, v3.pos));
    let d4 = dup_mark(find_pos(s.verts, v4.pos));
    let d5 = dup_mark(find_pos(s.verts, v5.pos));
    let d6 = dup_mark(find_pos(s.verts, v6.pos));
    let d7 = dup_mark(find_pos(s.verts, v7.pos));
    let t1 = corner_update(s, v0, d0, 0);
    let t2 = corner_update(t1, v1, d1, 1);
    let t3 = corner_update(t2, v2, d2, 2);
    let t4 = corner_update(t3, v3, d3, 3);
    let t5 = corner_update(t4, v4, d4, 4);
    let t6 = corner_update(t5, v5, d5, 5);
    let t7 = corner_update(t6, v6, d6, 6);
    let t8 = corner_update(t7, v7, d7, 7);
    lemma_voxel_mid_init(s, g, y, x, z);
    lemma_corner_step(s, s, g, y, x, z, 0);
    lemma_corner_step(s, t1, g, y, x, z, 1);
    lemma_corner_step(s, t2, g, y, x, z, 2);
    lemma_corner_step(s, t3, g, y, x, z, 3);
    lemma_corner_step(s, t4, g, y, x, z, 4);
    lemma_corner_step(s, t5, g, y, x, z, 5);
    lemma_corner_step(s, t6, g, y, x, z, 6);
    lemma_corner_step(s, t7, g, y, x, z, 7);
    assert(t8 == corners_state(s, g, y, x, z));
}

/// After a voxel's corners are processed, each of its eight corner
/// positions has a vertex in the buffer: the corner either found one or
/// pushed its own.
proof fn lemma_corners_in_state(s: GenState, g: Seq<Seq<Seq<Voxel>>>, y: int, x: int, z: int)
    requires
        st_inv(s),
        grid_bounded(g),
        0 <= y < g.len(),
        0 <= x < g[y].len(),
        0 <= z < g[y][x].len(),
        s.offset + 8 <= 0x7fff_ffff,
    ensures
        forall|c: int|
            0 <= c < 8 ==> pos_in(
                corners_state(s, g, y, x, z).verts,
                (#[trigger] corner_vertex(g, y, x, z, c)).pos,
            ),
{
    lemma_corners_state_mid(s, g, y, x, z);
    let t8 = corners_state(s, g, y, x, z);
    assert forall|c: int| 0 <= c < 8 implies pos_in(
        t8.verts,
        (#[trigger] corner_vertex(g, y, x, z, c)).pos,
    ) by {
        let p = corner_vertex(g, y, x, z, c).pos;
        lemma_find_pos(s.verts, p);
        match find_pos(s.verts, p) {
            Some(ix) => {
                assert(t8.verts[ix] == s.verts[ix]);
                assert(t8.verts[ix].pos == p);
            },
            None => {
                let vi = c + s.offset - count_lt(t8.culled, c + s.offset);
                assert(t8.verts[vi] == corner_vertex(g, y, x, z, c));
            },
        }
    }
}

/// Processing one filled voxel preserves the state invariant, hands out
/// exactly eight new slots, and emits six indices for each exposed face.
#[verifier::rlimit(100)]
pub proof fn lemma_process_voxel_inv(s: GenState, g: Seq<Seq<Seq<Voxel>>>, y: int, x: int, z: int)
    requires
        st_inv(s),
        grid_bounded(g),
        0 <= y < g.len(),
        0 <= x < g[y].len(),
        0 <= z < g[y][x].len(),
        s.offset + 8 <= 0x7fff_ffff,
    ensures
        st_inv(process_voxel(s, g, y, x, z)),
        process_voxel(s, g, y, x, z).offset == s.offset + 8,
        process_voxel(s, g, y, x, z).inds.len() == s.inds.len() + 6 * exposed_count(g, y, x, z),
        process_voxel(s, g, y, x, z).verts.len() >= s.verts.len(),
        has_up_vertex(process_voxel(s, g, y, x, z).verts),
        has_up_vertex(s.verts) ==> has_up_vertex(process_voxel(s, g, y, x, z).verts),
        s.verts.is_prefix_of(process_voxel(s, g, y, x, z).verts),
        forall|c: int|
            0 <= c < 8 ==> pos_in(
                process_voxel(s, g, y, x, z).verts,
                (#[trigger] corner_vertex(g, y, x, z, c)).pos,
            ),
{
    let v0 = corner_vertex(g, y, x, z, 0);
    let v1 = corner_vertex(g, y, x, z, 1);
    let v2 = corner_vertex(g, y, x, z, 2);
    let v3 = corner_vertex(g, y, x, z, 3);
    let v4 = corner_vertex(g, y, x, z, 4);
    let v5 = corner_vertex(g, y, x, z, 5);
    let v6 = corner_vertex(g, y, x, z, 6);
    let v7 = corner_vertex(g, y, x, z, 7);
    let d0 = dup_mark(find_pos(s.verts, v0.pos));
    let d1 = dup_mark(find_pos(s.verts, v1.pos));
    let d2 = dup_mark(find_pos(s.verts, v2.pos));
    let d3 = dup_mark(find_pos(s.verts, v3.pos));
    let d4 = dup_mark(find_pos(s.verts, v4.pos));
    let d5 = dup_mark(find_pos(s.verts, v5.pos));
    let d6 = dup_mark(find_pos(s.verts, v6.pos));
    let d7 = dup_mark(find_pos(s.verts, v7.pos));
    let t1 = corner_update(s, v0, d0, 0);
    let t2 = corner_update(t1, v1, d1, 1);
    let t3 = corner_update(t2, v2, d2, 2);
    let t4 = corner_update(t3, v3, d3, 3);
    let t5 = corner_update(t4, v4, d4, 4);
    let t6 = corner_update(t5, v5, d5, 5);
    let t7 = corner_update(t6, v6, d6, 6);
    let t8 = corner_update(t7, v7, d7, 7);
    lemma_voxel_mid_init(s, g, y, x, z);
    lemma_corner_step(s, s, g, y, x, z, 0);
    lemma_corner_step(s, t1, g, y, x, z, 1);
    lemma_corner_step(s, t2, g, y, x, z, 2);
    lemma_corner_step(s, t3, g, y, x, z, 3);
    lemma_corner_step(s, t4, g, y, x, z, 4);
    lemma_corner_step(s, t5, g, y, x, z, 5);
    lemma_corner_step(s, t6, g, y, x, z, 6);
    lemma_corner_step(s, t7, g, y, x, z, 7);
    assert(voxel_mid_inv(s, t8, g, y, x, z, 8));
    assert(t8 == corners_state(s, g, y, x, z));
    assert(v0.pos.y as int == y + 1);
    lemma_find_pos(s.verts, v0.pos);
    match find_pos(s.verts, v0.pos) {
        Some(ix) => {
            assert(s.verts[ix].pos.y >= 1);
            assert(t8.verts[ix] == s.verts[ix]);
            assert(has_up_vertex(t8.verts));
        },
        None => {
            assert(d0 == -1);
            assert(t1.verts[s.verts.len() as int] == v0);
            assert(t8.verts[s.verts.len() as int] == v0);
            assert(has_up_vertex(t8.verts));
        },
    }
    assert forall|i: int| 0 <= i < s.verts.len() implies t8.verts[i] == s.verts[i] by {
        assert(s.verts.is_prefix_of(t8.verts));
    }
    if has_up_vertex(s.verts) {
        let i = choose|i: int| 0 <= i < s.verts.len() && #[trigger] s.verts[i].pos.y >= 1;
        assert(t8.verts[i].pos.y >= 1);
    }
    lemma_corners_in_state(s, g, y, x, z);
    assert forall|c: int| 0 <= c < 8 implies pos_in(
        process_voxel(s, g, y, x, z).verts,
        (#[trigger] corner_vertex(g, y, x, z, c)).pos,
    ) by {
        assert(pos_in(t8.verts, corner_vertex(g, y, x, z, c).pos));
    }
    let dups = dups_of(s.verts, g, y, x, z);
    lemma_patterns_ok();
    assert(forall|i: int| 0 <= i < t8.inds.len() ==> (#[trigger] t8.inds[i] as int)
        < t8.verts.len()) by {
        assert(t8.inds == s.inds);
        assert(s.verts.len() <= t8.verts.len());
    }
    let e1 = if top_exposed(g, y, x, z) {
        emit_face(t8, indices_top(), dups)
    } else {
        t8
    };
    if top_exposed(g, y, x, z) {
        lemma_emit_step(s, t8, t8, g, y, x, z, indices_top());
    }
    let e2 = if bottom_exposed(g, y, x, z) {
        emit_face(e1, indices_bottom(), dups)
    } else {
        e1
    };
    if bottom_exposed(g, y, x, z) {
        lemma_emit_step(s, t8, e1, g, y, x, z, indices_bottom());
    }
    let e3 = if right_exposed(g, y, x, z) {
        emit_face(e2, indices_right(), dups)
    } else {
        e2
    };
    if right_exposed(g, y, x, z) {
        lemma_emit_step(s, t8, e2, g, y, x, z, indices_right());
    }
    let e4 = if left_exposed(g, y, x, z) {
        emit_face(e3, indices_left(), dups)
    } else {
        e3
    };
    if left_exposed(g, y, x, z) {
        lemma_emit_step(s, t8, e3, g, y, x, z, indices_left());
    }
    let e5 = if front_exposed(g, y, x, z) {
        emit_face(e4, indices_front(), dups)
    } else {
        e4
    };
    if front_exposed(g, y, x, z) {
        lemma_emit_step(s, t8, e4, g, y, x, z, indices_front());
    }
    let e6 = if back_exposed(g, y, x, z) {
        emit_face(e5, indices_back(), dups)
    } else {
        e5
    };
    if back_exposed(g, y, x, z) {
        lemma_emit_step(s, t8, e5, g, y, x, z, indices_back());
    }
    let r = GenState { verts: e6.verts, inds: e6.inds, culled: e6.culled, offset: e6.offset + 8 };
    assert(r == process_voxel(s, g, y, x, z));
}

// ================= induction over the grid =================

/// Partial counts of filled cells are never negative.
pub proof fn lemma_count_row_nonneg(g: Seq<Seq<Seq<Voxel>>>, y: int, x: int, n: int)
    ensures
        count_row(g, y, x, n) >= 0,
    decreases n,
{
    if n > 0 {
        lemma_count_row_nonneg(g, y, x, n - 1);
    }
}

pub proof fn lemma_count_rows_nonneg(g: Seq<Seq<Seq<Voxel>>>, y: int, n: int)
    ensures
        count_rows(g, y, n) >= 0,
    decreases n,
{
    if n > 0 {
        lemma_count_rows_nonneg(g, y, n - 1);
        lemma_count_row_nonneg(g, y, n - 1, g[y][n - 1].len() as int);
    }
}

pub proof fn lemma_count_layers_nonneg(g: Seq<Seq<Seq<Voxel>>>, n: int)
    ensures
        count_layers(g, n) >= 0,
    decreases n,
{
    if n > 0 {
        lemma_count_layers_nonneg(g, n - 1);
        lemma_count_rows_nonneg(g, n - 1, g[n - 1].len() as int);
    }
}

/// Processing a prefix of one row preserves the invariant; the offset and
/// the index list grow by exactly what the prefix's filled cells demand.
pub proof fn lemma_process_cells_inv(s: GenState, g: Seq<Seq<Seq<Voxel>>>, y: int, x: int, n: int)
    requires
        st_inv(s),
        grid_bounded(g),
        0 <= y < g.len(),
        0 <= x < g[y].len(),
        0 <= n <= g[y][x].len(),
        s.offset + 8 * count_row(g, y, x, n) <= 0x7fff_ffff,
    ensures
        st_inv(process_cells(s, g, y, x, n)),
        process_cells(s, g, y, x, n).offset == s.offset + 8 * count_row(g, y, x, n),
        process_cells(s, g, y, x, n).inds.len() == s.inds.len() + 6 * exposed_row(g, y, x, n),
        process_cells(s, g, y, x, n).verts.len() >= s.verts.len(),
        has_up_vertex(s.verts) || count_row(g, y, x, n) > 0 ==> has_up_vertex(
            process_cells(s, g, y, x, n).verts,
        ),
        s.verts.is_prefix_of(process_cells(s, g, y, x, n).verts),
        forall|z1: int, cc: int|
            0 <= z1 < n && g[y][x][z1].filled && 0 <= cc < 8 ==> pos_in(
                process_cells(s, g, y, x, n).verts,
                (#[trigger] corner_vertex(g, y, x, z1, cc)).pos,
            ),
    decreases n,
{
    if n > 0 {
        lemma_count_row_nonneg(g, y, x, n - 1);
        lemma_process_cells_inv(s, g, y, x, n - 1);
        let t = process_cells(s, g, y, x, n - 1);
        let r = process_cells(s, g, y, x, n);
        if g[y][x][n - 1].filled {
            lemma_process_voxel_inv(t, g, y, x, n - 1);
            lemma_prefix_trans(s.verts, t.verts, r.verts);
        }
        assert forall|z1: int, cc: int|
            0 <= z1 < n && g[y][x][z1].filled && 0 <= cc < 8 implies pos_in(
            r.verts,
            (#[trigger] corner_vertex(g, y, x, z1, cc)).pos,
        ) by {
            if z1 < n - 1 {
                assert(pos_in(t.verts, corner_vertex(g, y, x, z1, cc).pos));
                if g[y][x][n - 1].filled {
                    lemma_pos_in_prefix(t.verts, r.verts, corner_vertex(g, y, x, z1, cc).pos);
                }
            }
        }
    } else {
        assert(s.verts.is_prefix_of(s.verts)) by {
            assert(s.verts.subrange(0, s.verts.len() as int) =~= s.verts);
        }
    }
}

/// Processing a prefix of one layer's rows preserves the invariant.
pub proof fn lemma_process_rows_inv(s: GenState, g: Seq<Seq<Seq<Voxel>>>, y: int, n: int)
    requires
        st_inv(s),
        grid_bounded(g),
        0 <= y < g.len(),
        0 <= n <= g[y].len(),
        s.offset + 8 * count_rows(g, y, n) <= 0x7fff_ffff,
    ensures
        st_inv(process_rows(s, g, y, n)),
        process_rows(s, g, y, n).offset == s.offset + 8 * count_rows(g, y, n),
        process_rows(s, g, y, n).inds.len() == s.inds.len() + 6 * exposed_rows(g, y, n),
        process_rows(s, g, y, n).verts.len() >= s.verts.len(),
        has_up_vertex(s.verts) || count_rows(g, y, n) > 0 ==> has_up_vertex(
            process_rows(s, g, y, n).verts,
        ),
        s.verts.is_prefix_of(process_rows(s, g, y, n).verts),
        forall|x1: int, z1: int, cc: int|
            0 <= x1 < n && 0 <= z1 < g[y][x1].len() && g[y][x1][z1].filled && 0 <= cc < 8
                ==> pos_in(
                process_rows(s, g, y, n).verts,
                (#[trigger] corner_vertex(g, y, x1, z1, cc)).pos,
            ),
    decreases n,
{
    if n > 0 {
        lemma_count_rows_nonneg(g, y, n - 1);
        lemma_count_row_nonneg(g, y, n - 1, g[y][n - 1].len() as int);
        lemma_process_rows_inv(s, g, y, n - 1);
        let t = process_rows(s, g, y, n - 1);
        let r = process_rows(s, g, y, n);
        lemma_process_cells_inv(t, g, y, n - 1, g[y][n - 1].len() as int);
        lemma_prefix_trans(s.verts, t.verts, r.verts);
        assert forall|x1: int, z1: int, cc: int|
            0 <= x1 < n && 0 <= z1 < g[y][x1].len() && g[y][x1][z1].filled && 0 <= cc < 8 implies
            pos_in(r.verts, (#[trigger] corner_vertex(g, y, x1, z1, cc)).pos) by {
            if x1 < n - 1 {
                assert(pos_in(t.verts, corner_vertex(g, y, x1, z1, cc).pos));
                lemma_pos_in_prefix(t.verts, r.verts, corner_vertex(g, y, x1, z1, cc).pos);
            }
        }
    } else {
        assert(s.verts.is_prefix_of(s.verts)) by {
            assert(s.verts.subrange(0, s.verts.len() as int) =~= s.verts);
        }
    }
}

/// Processing a prefix of the layers preserves the invariant.
pub proof fn lemma_process_layers_inv(g: Seq<Seq<Seq<Voxel>>>, n: int)
    requires
        grid_bounded(g),
        0 <= n <= g.len(),
        8 * count_layers(g, n) <= 0x7fff_ffff,
    ensures
        st_inv(process_layers(g, n)),
        process_layers(g, n).offset == 8 * count_layers(g, n),
        process_layers(g, n).inds.len() == 6 * exposed_layers(g, n),
        count_layers(g, n) > 0 ==> has_up_vertex(process_layers(g, n).verts),
        forall|y1: int, x1: int, z1: int, cc: int|
            0 <= y1 < n && 0 <= x1 < g[y1].len() && 0 <= z1 < g[y1][x1].len()
                && g[y1][x1][z1].filled && 0 <= cc < 8 ==> pos_in(
                process_layers(g, n).verts,
                (#[trigger] corner_vertex(g, y1, x1, z1, cc)).pos,
            ),
    decreases n,
{
    if n <= 0 {
        assert(st_inv(init_state()));
    } else {
        lemma_count_layers_nonneg(g, n - 1);
        lemma_count_rows_nonneg(g, n - 1, g[n - 1].len() as int);
        lemma_process_layers_inv(g, n - 1);
        let t = process_layers(g, n - 1);
        let r = process_layers(g, n);
        lemma_process_rows_inv(t, g, n - 1, g[n - 1].len() as int);
        assert forall|y1: int, x1: int, z1: int, cc: int|
            0 <= y1 < n && 0 <= x1 < g[y1].len() && 0 <= z1 < g[y1][x1].len()
                && g[y1][x1][z1].filled && 0 <= cc < 8 implies pos_in(
            r.verts,
            (#[trigger] corner_vertex(g, y1, x1, z1, cc)).pos,
        ) by {
            if y1 < n - 1 {
                assert(pos_in(t.verts, corner_vertex(g, y1, x1, z1, cc).pos));
                lemma_pos_in_prefix(t.verts, r.verts, corner_vertex(g, y1, x1, z1, cc).pos);
            }
        }
    }
}

/// The invariant of a full compilation: the books balance, every emitted
/// index is in range, positions are unique, eight slots were handed out per
/// filled voxel, and six indices were emitted per exposed face.
pub proof fn lemma_gen_state_inv(g: Seq<Seq<Seq<Voxel>>>)
    requires
        grid_bounded(g),
        8 * count_filled(g) <= 0x7fff_ffff,
    ensures
        st_inv(gen_state(g)),
        gen_state(g).offset == 8 * count_filled(g),
        gen_state(g).inds.len() == 6 * total_exposed(g),
        count_filled(g) > 0 ==> has_up_vertex(gen_state(g).verts),
        forall|y: int, x: int, z: int, cc: int|
            filled_at(g, y, x, z) && 0 <= cc < 8 ==> pos_in(
                gen_state(g).verts,
                (#[trigger] corner_vertex(g, y, x, z, cc)).pos,
            ),
{
    lemma_process_layers_inv(g, g.len() as int);
}


/// Prefix counts only grow.
pub proof fn lemma_count_row_mono(g: Seq<Seq<Seq<Voxel>>>, y: int, x: int, n: int, m: int)
    requires
        n <= m,
    ensures
        count_row(g, y, x, n) <= count_row(g, y, x, m),
    decreases m - n,
{
    if n < m {
        lemma_count_row_mono(g, y, x, n, m - 1);
    }
}

pub proof fn lemma_count_rows_mono(g: Seq<Seq<Seq<Voxel>>>, y: int, n: int, m: int)
    requires
        n <= m,
    ensures
        count_rows(g, y, n) <= count_rows(g, y, m),
    decreases m - n,
{
    if n < m {
        lemma_count_rows_mono(g, y, n, m - 1);
        lemma_count_row_nonneg(g, y, m - 1, g[y][m - 1].len() as int);
    }
}

pub proof fn lemma_count_layers_mono(g: Seq<Seq<Seq<Voxel>>>, n: int, m: int)
    requires
        n <= m,
    ensures
        count_layers(g, n) <= count_layers(g, m),
    decreases m - n,
{
    if n < m {
        lemma_count_layers_mono(g, n, m - 1);
        lemma_count_rows_nonneg(g, m - 1, g[m - 1].len() as int);
    }
}

/// Builds one face's fixed corner pattern.
fn face_pattern(a: u32, b: u32, c: u32, d: u32, e: u32, f: u32) -> (r: Vec<u32>)
    ensures
        r@ == seq![a, b, c, d, e, f],
{
    let mut r: Vec<u32> = Vec::new();
    r.push(a);
    r.push(b);
    r.push(c);
    r.push(d);
    r.push(e);
    r.push(f);
    proof {
        assert(r@ =~= seq![a, b, c, d, e, f]);
    }
    r
}

/// The compiler's running state as one value, for stating how the
/// executable pass tracks the compilation fold.
pub open spec fn st_of(verts: Seq<Vertex>, inds: Seq<u32>, culled: Seq<usize>, offset: int)
    -> GenState {
    GenState { verts, inds, culled, offset }
}

/// Applies the eight corners of the voxel at `(ly, x, z)`, already analyzed
/// into `temp` against the buffers as they stand on entry: each corner
/// either pushes its vertex or culls its slot, and its duplicate mark is
/// recorded. The buffers change exactly as [`corners_state`] says.
#[verifier::rlimit(100)]
fn apply_corners(
    temp: &crate::regen_temp::ModelGenTemp,
    vertices: &mut Vec<Vertex>,
    culled: &mut Vec<usize>,
    offset: u32,
    Ghost(g): Ghost<Seq<Seq<Seq<Voxel>>>>,
    Ghost(ly): Ghost<int>,
    Ghost(x): Ghost<int>,
    Ghost(z): Ghost<int>,
    Ghost(inds): Ghost<Seq<u32>>,
) -> (duplicate_list: Vec<i32>)
    requires
        grid_bounded(g),
        0 <= ly < g.len(),
        0 <= x < g[ly].len(),
        0 <= z < g[ly][x].len(),
        st_inv(st_of(old(vertices)@, inds, old(culled)@, offset as int)),
        offset + 8 <= 0x7fff_ffff,
        temp_matches(*temp, old(vertices)@, g, ly, x, z),
    ensures
        ({
            let s = st_of(old(vertices)@, inds, old(culled)@, offset as int);
            let t8 = corners_state(s, g, ly, x, z);
            &&& final(vertices)@ == t8.verts
            &&& final(culled)@ == t8.culled
            &&& voxel_mid_inv(s, t8, g, ly, x, z, 8)
            &&& duplicate_list@ == dups_of(old(vertices)@, g, ly, x, z)
        }),
{
    let ghost s = st_of(vertices@, inds, culled@, offset as int);
    let ghost v0 = corner_vertex(g, ly, x, z, 0);
    let ghost v1 = corner_vertex(g, ly, x, z, 1);
    let ghost v2 = corner_vertex(g, ly, x, z, 2);
    let ghost v3 = corner_vertex(g, ly, x, z, 3);
    let ghost v4 = corner_vertex(g, ly, x, z, 4);
    let ghost v5 = corner_vertex(g, ly, x, z, 5);
    let ghost v6 = corner_vertex(g, ly, x, z, 6);
    let ghost v7 = corner_vertex(g, ly, x, z, 7);
    let ghost d0 = dup_mark(find_pos(s.verts, v0.pos));
    let ghost d1 = dup_mark(find_pos(s.verts, v1.pos));
    let ghost d2 = dup_mark(find_pos(s.verts, v2.pos));
    let ghost d3 = dup_mark(find_pos(s.verts, v3.pos));
    let ghost d4 = dup_mark(find_pos(s.verts, v4.pos));
    let ghost d5 = dup_mark(find_pos(s.verts, v5.pos));
    let ghost d6 = dup_mark(find_pos(s.verts, v6.pos));
    let ghost d7 = dup_mark(find_pos(s.verts, v7.pos));
    let ghost t1 = corner_update(s, v0, d0, 0);
    let ghost t2 = corner_update(t1, v1, d1, 1);
    let ghost t3 = corner_update(t2, v2, d2, 2);
    let ghost t4 = corner_update(t3, v3, d3, 3);
    let ghost t5 = corner_update(t4, v4, d4, 4);
    let ghost t6 = corner_update(t5, v5, d5, 5);
    let ghost t7 = corner_update(t6, v6, d6, 6);
    let ghost t8 = corner_update(t7, v7, d7, 7);
    let mut duplicate_list: Vec<i32> = Vec::new();

    match temp.left_up_back_dup {
        Some(v) => {
            proof {
                assert(find_pos(s.verts, v0.pos) == Some(v as int));
                lemma_find_pos(s.verts, v0.pos);
                assert(v < s.verts.len());
                assert(d0 == v as i32);
            }
            crate::utils::push_if_absent(culled, (0 + offset) as usize);
            duplicate_list.push(v as i32);
        },
        None => {
            proof {
                assert(d0 == -1);
            }
            vertices.push(temp.left_up_back);
            duplicate_list.push(-1);
        },
    }
    proof {
        assert(st_of(vertices@, inds, culled@, offset as int) == t1);
        assert(duplicate_list@.len() == 1);
    }

    match temp.left_up_front_dup {
        Some(v) => {
            proof {
                assert(find_pos(s.verts, v1.pos) == Some(v as int));
                lemma_find_pos(s.verts, v1.pos);
                assert(v < s.verts.len());
                assert(d1 == v as i32);
            }
            crate::utils::push_if_absent(culled, (1 + offset) as usize);
            duplicate_list.push(v as i32);
        },
        None => {
            proof {
                assert(d1 == -1);
            }
            vertices.push(temp.left_up_front);
            duplicate_list.push(-1);
        },
    }
    proof {
        assert(st_of(vertices@, inds, culled@, offset as int) == t2);
        assert(duplicate_list@.len() == 2);
    }

    match temp.right_up_front_dup {
        Some(v) => {
            proof {
                assert(find_pos(s.verts, v2.pos) == Some(v as int));
                lemma_find_pos(s.verts, v2.pos);
                assert(v < s.verts.len());
                assert(d2 == v as i32);
            }
            crate::utils::push_if_absent(culled, (2 + offset) as usize);
            duplicate_list.push(v as i32);
        },
        None => {
            proof {
                assert(d2 == -1);
            }
            vertices.push(temp.right_up_front);
            duplicate_list.push(-1);
        },
    }
    proof {
        assert(st_of(vertices@, inds, culled@, offset as int) == t3);
        assert(duplicate_list@.len() == 3);
    }

    match temp.right_up_back_dup {
        Some(v) => {
            proof {
                assert(find_pos(s.verts, v3.pos) == Some(v as int));
                lemma_find_pos(s.verts, v3.pos);
                assert(v < s.verts.len());
                assert(d3 == v as i32);
            }
            crate::utils::push_if_absent(culled, (3 + offset) as usize);
            duplicate_list.push(v as i32);
        },
        None => {
            proof {
                assert(d3 == -1);
            }
            vertices.push(temp.right_up_back);
            duplicate_list.push(-1);
        },
    }
    proof {
        assert(st_of(vertices@, inds, culled@, offset as int) == t4);
        assert(duplicate_list@.len() == 4);
    }

    match temp.left_down_back_dup {
        Some(v) => {
            proof {
                assert(find_pos(s.verts, v4.pos) == Some(v as int));
                lemma_find_pos(s.verts, v4.pos);
                assert(v < s.verts.len());
                assert(d4 == v as i32);
            }
            crate::utils::push_if_absent(culled, (4 + offset) as usize);
            duplicate_list.push(v as i32);
        },
        None => {
            proof {
                assert(d4 == -1);
            }
            vertices.push(temp.left_down_back);
            duplicate_list.push(-1);
        },
    }
    proof {
        assert(st_of(vertices@, inds, culled@, offset as int) == t5);
        assert(duplicate_list@.len() == 5);
    }

    match temp.left_down_front_dup {
        Some(v) => {
            proof {
                assert(find_pos(s.verts, v5.pos) == Some(v as int));
                lemma_find_pos(s.verts, v5.pos);
                assert(v < s.verts.len());
                assert(d5 == v as i32);
            }
            crate::utils::push_if_absent(culled, (5 + offset) as usize);
            duplicate_list.push(v as i32);
        },
        None => {
            proof {
                assert(d5 == -1);
            }
            vertices.push(temp.left_down_front);
            duplicate_list.push(-1);
        },
    }
    proof {
        assert(st_of(vertices@, inds, culled@, offset as int) == t6);
        assert(duplicate_list@.len() == 6);
    }

    match temp.right_down_front_dup {
        Some(v) => {
            proof {
                assert(find_pos(s.verts, v6.pos) == Some(v as int));
                lemma_find_pos(s.verts, v6.pos);
                assert(v < s.verts.len());
                assert(d6 == v as i32);
            }
            crate::utils::push_if_absent(culled, (6 + offset) as usize);
            duplicate_list.push(v as i32);
        },
        None => {
            proof {
                assert(d6 == -1);
            }
            vertices.push(temp.right_down_front);
            duplicate_list.push(-1);
        },
    }
    proof {
        assert(st_of(vertices@, inds, culled@, offset as int) == t7);
        assert(duplicate_list@.len() == 7);
    }

    match temp.right_down_back_dup {
        Some(v) => {
            proof {
                assert(find_pos(s.verts, v7.pos) == Some(v as int));
                lemma_find_pos(s.verts, v7.pos);
                assert(v < s.verts.len());
                assert(d7 == v as i32);
            }
            crate::utils::push_if_absent(culled, (7 + offset) as usize);
            duplicate_list.push(v as i32);
        },
        None => {
            proof {
                assert(d7 == -1);
            }
            vertices.push(temp.right_down_back);
            duplicate_list.push(-1);
        },
    }
    proof {
        assert(st_of(vertices@, inds, culled@, offset as int) == t8);
        assert(duplicate_list@.len() == 8);
    }

    proof {
        lemma_voxel_mid_init(s, g, ly, x, z);
        lemma_corner_step(s, s, g, ly, x, z, 0);
        lemma_corner_step(s, t1, g, ly, x, z, 1);
        lemma_corner_step(s, t2, g, ly, x, z, 2);
        lemma_corner_step(s, t3, g, ly, x, z, 3);
        lemma_corner_step(s, t4, g, ly, x, z, 4);
        lemma_corner_step(s, t5, g, ly, x, z, 5);
        lemma_corner_step(s, t6, g, ly, x, z, 6);
        lemma_corner_step(s, t7, g, ly, x, z, 7);
        assert(voxel_mid_inv(s, t8, g, ly, x, z, 8));
        assert(t8 == corners_state(s, g, ly, x, z));
        assert forall|k: int| 0 <= k < 8 implies #[trigger] duplicate_list@[k] == dups_of(
            s.verts,
            g,
            ly,
            x,
            z,
        )[k] by {
            if k == 0 {
                assert(duplicate_list@[0] == d0);
            } else if k == 1 {
                assert(duplicate_list@[1] == d1);
            } else if k == 2 {
                assert(duplicate_list@[2] == d2);
            } else if k == 3 {
                assert(duplicate_list@[3] == d3);
            } else if k == 4 {
                assert(duplicate_list@[4] == d4);
            } else if k == 5 {
                assert(duplicate_list@[5] == d5);
            } else if k == 6 {
                assert(duplicate_list@[6] == d6);
            } else {
                assert(duplicate_list@[7] == d7);
            }
        }
        assert(duplicate_list@ =~= dups_of(s.verts, g, ly, x, z));
    }
    duplicate_list
}

/// Emits the index pattern of every exposed face of the voxel at
/// `(ly, x, z)`, resolving each raw corner index through the duplicate
/// marks and the culled slots. The index list changes exactly as the
/// emission half of [`process_voxel`] says.
#[verifier::rlimit(100)]
fn emit_faces(
    temp: &crate::regen_temp::ModelGenTemp,
    indices: &mut Vec<u32>,
    culled: &Vec<usize>,
    duplicate_list: &Vec<i32>,
    offset: u32,
    Ghost(g): Ghost<Seq<Seq<Seq<Voxel>>>>,
    Ghost(ly): Ghost<int>,
    Ghost(x): Ghost<int>,
    Ghost(z): Ghost<int>,
    Ghost(verts0): Ghost<Seq<Vertex>>,
    Ghost(culled0): Ghost<Seq<usize>>,
)
    requires
        grid_bounded(g),
        0 <= ly < g.len(),
        0 <= x < g[ly].len(),
        0 <= z < g[ly][x].len(),
        offset + 8 <= 0x7fff_ffff,
        temp_matches(*temp, verts0, g, ly, x, z),
        st_inv(st_of(verts0, old(indices)@, culled0, offset as int)),
        culled@ == corners_state(
            st_of(verts0, old(indices)@, culled0, offset as int),
            g,
            ly,
            x,
            z,
        ).culled,
        voxel_mid_inv(
            st_of(verts0, old(indices)@, culled0, offset as int),
            corners_state(st_of(verts0, old(indices)@, culled0, offset as int), g, ly, x, z),
            g,
            ly,
            x,
            z,
            8,
        ),
        duplicate_list@ == dups_of(verts0, g, ly, x, z),
    ensures
        final(indices)@ == process_voxel(
            st_of(verts0, old(indices)@, culled0, offset as int),
            g,
            ly,
            x,
            z,
        ).inds,
{
    let ghost s = st_of(verts0, indices@, culled0, offset as int);
    let ghost t8 = corners_state(s, g, ly, x, z);
    let ghost dups = dups_of(verts0, g, ly, x, z);
    let ghost e1 = if top_exposed(g, ly, x, z) {
        emit_face(t8, indices_top(), dups)
    } else {
        t8
    };
    let ghost e2 = if bottom_exposed(g, ly, x, z) {
        emit_face(e1, indices_bottom(), dups)
    } else {
        e1
    };
    let ghost e3 = if right_exposed(g, ly, x, z) {
        emit_face(e2, indices_right(), dups)
    } else {
        e2
    };
    let ghost e4 = if left_exposed(g, ly, x, z) {
        emit_face(e3, indices_left(), dups)
    } else {
        e3
    };
    let ghost e5 = if front_exposed(g, ly, x, z) {
        emit_face(e4, indices_front(), dups)
    } else {
        e4
    };
    let ghost e6 = if back_exposed(g, ly, x, z) {
        emit_face(e5, indices_back(), dups)
    } else {
        e5
    };
    let top_pattern = face_pattern(0, 1, 3, 3, 1, 2);
    let bottom_pattern = face_pattern(4, 5, 7, 5, 6, 7);
    let right_pattern = face_pattern(7, 6, 2, 7, 2, 3);
    let left_pattern = face_pattern(0, 1, 4, 4, 5, 1);
    let front_pattern = face_pattern(1, 5, 2, 5, 6, 2);
    let back_pattern = face_pattern(4, 7, 3, 0, 4, 3);
    proof {
        assert(top_pattern@ =~= indices_top());
        assert(bottom_pattern@ =~= indices_bottom());
        assert(right_pattern@ =~= indices_right());
        assert(left_pattern@ =~= indices_left());
        assert(front_pattern@ =~= indices_front());
        assert(back_pattern@ =~= indices_back());
        assert(strictly_increasing(culled@));
        lemma_patterns_ok();
        assert forall|k: int| 0 <= k < 8 implies #[trigger] duplicate_list@[k] >= -1 by {
            lemma_find_pos(verts0, corner_vertex(g, ly, x, z, k).pos);
        }
    }

    if temp.top_condition {
        push_indices(indices, &top_pattern, offset, culled, duplicate_list);
    }
    proof {
        assert(st_of(t8.verts, indices@, culled@, offset as int) == st_of(
            e1.verts,
            e1.inds,
            e1.culled,
            e1.offset,
        ));
    }

    if temp.bottom_condition {
        push_indices(indices, &bottom_pattern, offset, culled, duplicate_list);
    }
    proof {
        assert(st_of(t8.verts, indices@, culled@, offset as int) == st_of(
            e2.verts,
            e2.inds,
            e2.culled,
            e2.offset,
        ));
    }

    if temp.right_condition {
        push_indices(indices, &right_pattern, offset, culled, duplicate_list);
    }
    proof {
        assert(st_of(t8.verts, indices@, culled@, offset as int) == st_of(
            e3.verts,
            e3.inds,
            e3.culled,
            e3.offset,
        ));
    }

    if temp.left_condition {
        push_indices(indices, &left_pattern, offset, culled, duplicate_list);
    }
    proof {
        assert(st_of(t8.verts, indices@, culled@, offset as int) == st_of(
            e4.verts,
            e4.inds,
            e4.culled,
            e4.offset,
        ));
    }

    if temp.front_condition {
        push_indices(indices, &front_pattern, offset, culled, duplicate_list);
    }
    proof {
        assert(st_of(t8.verts, indices@, culled@, offset as int) == st_of(
            e5.verts,
            e5.inds,
            e5.culled,
            e5.offset,
        ));
    }

    if temp.back_condition {
        push_indices(indices, &back_pattern, offset, culled, duplicate_list);
    }
    proof {
        assert(st_of(t8.verts, indices@, culled@, offset as int) == st_of(
            e6.verts,
            e6.inds,
            e6.culled,
            e6.offset,
        ));
    }

    proof {
        assert(indices@ == e6.inds);
        assert(process_voxel(s, g, ly, x, z).inds == e6.inds);
    }
}

/// Processes one filled voxel: analyzes its faces and corners against the
/// buffers as they stand, pushes or culls each corner, and emits the index
/// pattern of every exposed face. The buffers change exactly as one
/// [`process_voxel`] step of the compilation fold says; the caller advances
/// its slot counter by eight.
#[verifier::rlimit(100)]
pub fn gen_voxel(model: &Model, layer: &Layer, ux: usize, uz: usize, layer_num: usize,
    vertices: &mut Vec<Vertex>, indices: &mut Vec<u32>, culled: &mut Vec<usize>, offset: u32)
    requires
        grid_bounded(model.grid()),
        layer_num < model.grid().len(),
        layer.grid() == model.grid()[layer_num as int],
        ux < model.grid()[layer_num as int].len(),
        uz < model.grid()[layer_num as int][ux as int].len(),
        st_inv(st_of(old(vertices)@, old(indices)@, old(culled)@, offset as int)),
        offset + 8 <= 0x7fff_ffff,
    ensures
        ({
            let s = st_of(old(vertices)@, old(indices)@, old(culled)@, offset as int);
            let r = process_voxel(s, model.grid(), layer_num as int, ux as int, uz as int);
            &&& final(vertices)@ == r.verts
            &&& final(indices)@ == r.inds
            &&& final(culled)@ == r.culled
            &&& r.offset == offset + 8
        }),
{
    let ghost g = model.grid();
    let ghost ly = layer_num as int;
    let ghost x = ux as int;
    let ghost z = uz as int;
    let ghost s = st_of(vertices@, indices@, culled@, offset as int);
    proof {
        assert(g[ly].len() < u32::MAX);
        assert(g[ly][x].len() < u32::MAX);
        assert(g.len() < u32::MAX);
    }
    let temp = crate::regen_temp::ModelGenTemp::new(model, ux, uz, layer_num, layer, vertices);
    let duplicate_list = apply_corners(
        &temp,
        vertices,
        culled,
        offset,
        Ghost(g),
        Ghost(ly),
        Ghost(x),
        Ghost(z),
        Ghost(s.inds),
    );
    emit_faces(
        &temp,
        indices,
        culled,
        &duplicate_list,
        offset,
        Ghost(g),
        Ghost(ly),
        Ghost(x),
        Ghost(z),
        Ghost(s.verts),
        Ghost(s.culled),
    );
    proof {
        let t8 = corners_state(s, g, ly, x, z);
        let r = process_voxel(s, g, ly, x, z);
        assert(r.verts == t8.verts);
        assert(r.culled == t8.culled);
        assert(r.offset == s.offset + 8);
    }
}

/// Compiles a model into its raw mesh: the deduplicated vertex buffer and
/// the corrected triangle index list, exactly as the compilation fold
/// [`gen_state`] describes them. The bounds keep corner coordinates inside
/// `u32` and pre-deduplication slots inside `i32`.
#[verifier::rlimit(100)]
pub fn build_mesh(model: &Model) -> (r: (Vec<Vertex>, Vec<u32>))
    requires
        grid_bounded(model.grid()),
        8 * count_filled(model.grid()) <= 0x7fff_ffff,
    ensures
        r.0@ == gen_state(model.grid()).verts,
        r.1@ == gen_state(model.grid()).inds,
{
    let ghost g = model.grid();
    let mut vertices: Vec<Vertex> = Vec::new();
    let mut indices: Vec<u32> = Vec::new();
    let mut culled: Vec<usize> = Vec::new();
    let mut offset: u32 = 0;

    let mut layer_num: usize = 0;
    while layer_num < model.value.len()
        invariant
            g == model.grid(),
            grid_bounded(g),
            8 * count_filled(g) <= 0x7fff_ffff,
            layer_num <= g.len(),
            st_of(vertices@, indices@, culled@, offset as int) == process_layers(
                g,
                layer_num as int,
            ),
        decreases g.len() - layer_num,
    {
        let layer = &model.value[layer_num];
        proof {
            assert(g[layer_num as int] == model.value@[layer_num as int].grid());
        }
        let mut ux: usize = 0;
        while ux < layer.value.len()
            invariant
                g == model.grid(),
                grid_bounded(g),
                8 * count_filled(g) <= 0x7fff_ffff,
                layer_num < g.len(),
                layer.grid() == g[layer_num as int],
                ux <= layer.grid().len(),
                st_of(vertices@, indices@, culled@, offset as int) == process_rows(
                    process_layers(g, layer_num as int),
                    g,
                    layer_num as int,
                    ux as int,
                ),
            decreases layer.grid().len() - ux,
        {
            proof {
                assert(layer.grid()[ux as int] == layer.value@[ux as int]@);
            }
            let row_len = layer.value[ux].len();
            let mut uz: usize = 0;
            while uz < row_len
                invariant
                    g == model.grid(),
                    grid_bounded(g),
                    8 * count_filled(g) <= 0x7fff_ffff,
                    layer_num < g.len(),
                    layer.grid() == g[layer_num as int],
                    ux < g[layer_num as int].len(),
                    layer.grid()[ux as int] == layer.value@[ux as int]@,
                    row_len == g[layer_num as int][ux as int].len(),
                    uz <= row_len,
                    st_of(vertices@, indices@, culled@, offset as int) == process_cells(
                        process_rows(
                            process_layers(g, layer_num as int),
                            g,
                            layer_num as int,
                            ux as int,
                        ),
                        g,
                        layer_num as int,
                        ux as int,
                        uz as int,
                    ),
                decreases row_len - uz,
            {
                let ghost ly = layer_num as int;
                let ghost x = ux as int;
                let ghost z = uz as int;
                let ghost s_layer = process_layers(g, ly);
                let ghost s_row = process_rows(s_layer, g, ly, x);
                let ghost s = process_cells(s_row, g, ly, x, z);
                proof {
                    assert(g[ly][x][z] == layer.value@[x]@[z]);
                }
                if layer.value[ux][uz].filled {
                    proof {
                        lemma_count_layers_mono(g, ly, g.len() as int);
                        lemma_process_layers_inv(g, ly);
                        lemma_count_layers_mono(g, ly + 1, g.len() as int);
                        lemma_count_rows_mono(g, ly, x + 1, g[ly].len() as int);
                        lemma_count_rows_mono(g, ly, x, g[ly].len() as int);
                        lemma_process_rows_inv(s_layer, g, ly, x);
                        lemma_count_row_mono(g, ly, x, z + 1, g[ly][x].len() as int);
                        lemma_process_cells_inv(s_row, g, ly, x, z);
                        assert(st_inv(s));
                        assert(s.offset + 8 <= 0x7fff_ffff);
                    }
                    gen_voxel(model, layer, ux, uz, layer_num, &mut vertices, &mut indices,
                        &mut culled, offset);
                    offset = offset + 8;
                    proof {
                        assert(st_of(vertices@, indices@, culled@, offset as int) == process_voxel(
                            s,
                            g,
                            ly,
                            x,
                            z,
                        ));
                        assert(g[ly][x][z].filled);
                        assert(process_cells(s_row, g, ly, x, z + 1) == process_voxel(
                            s,
                            g,
                            ly,
                            x,
                            z,
                        ));
                    }
                } else {
                    proof {
                        assert(!g[ly][x][z].filled);
                        assert(process_cells(s_row, g, ly, x, z + 1) == s);
                    }
                }
                uz = uz + 1;
            }
            proof {
                assert(process_rows(
                    process_layers(g, layer_num as int),
                    g,
                    layer_num as int,
                    ux as int + 1,
                ) == process_cells(
                    process_rows(
                        process_layers(g, layer_num as int),
                        g,
                        layer_num as int,
                        ux as int,
                    ),
                    g,
                    layer_num as int,
                    ux as int,
                    g[layer_num as int][ux as int].len() as int,
                ));
            }
            ux = ux + 1;
        }
        proof {
            assert(process_layers(g, layer_num as int + 1) == process_rows(
                process_layers(g, layer_num as int),
                g,
                layer_num as int,
                g[layer_num as int].len() as int,
            ));
            assert(layer.grid().len() == g[layer_num as int].len());
        }
        layer_num = layer_num + 1;
    }
    (vertices, indices)
}


/// Compiles a model into its renderable mesh: the raw mesh of
/// [`build_mesh`], with every vertex position rescaled into `[-1, 1]`
/// along the model's largest bounding extent, as exact rationals.
pub fn gen_vert_idx(model: &Model) -> (r: (Vec<ScaledVertex>, Vec<u32>))
    requires
        grid_bounded(model.grid()),
        8 * count_filled(model.grid()) <= 0x7fff_ffff,
    ensures
        r.0@ == scale_spec(gen_state(model.grid()).verts, -1, 1),
        r.1@ == gen_state(model.grid()).inds,
{
    let (vertices, indices) = build_mesh(model);
    (crate::utils::normalize_scale(&vertices, -1, 1), indices)
}

} // verus!
