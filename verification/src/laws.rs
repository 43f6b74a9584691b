use crate::model::{filled_at, grid_bounded};
use crate::regen::{
    corners_state, count_filled, count_layers, count_lt, count_row, count_rows, dups_of, emitted,
    exposed_count, exposed_layers, exposed_row, exposed_rows, face_pattern_ok, gen_state,
    has_up_vertex, lemma_corners_state_mid, lemma_gen_state_inv, pos_in, st_inv, total_exposed,
    GenState,
};
use crate::regen_temp::{corner_vertex, find_pos, lemma_find_pos};
use crate::utils::{axis_of, largest_extent, max_axis, scale_spec};
use crate::vertex::Vertex;
use crate::voxel::Voxel;
use vstd::prelude::*;

verus! {

/// Compiling a model is a function of its occupancy grid alone: two models
/// with equal grids compile to the very same vertex buffer and index list,
/// in the same order.
pub proof fn lemma_compile_deterministic(g1: Seq<Seq<Seq<Voxel>>>, g2: Seq<Seq<Seq<Voxel>>>)
    requires
        g1 == g2,
    ensures
        gen_state(g1) == gen_state(g2),
{
}

/// Every index the compiler emits points into the vertex buffer it emits:
/// `indices[i] < vertices.len()` throughout.
pub proof fn lemma_indices_valid(g: Seq<Seq<Seq<Voxel>>>)
    requires
        grid_bounded(g),
        8 * count_filled(g) <= 0x7fff_ffff,
    ensures
        forall|i: int|
            0 <= i < gen_state(g).inds.len() ==> (#[trigger] gen_state(g).inds[i] as int)
                < gen_state(g).verts.len(),
{
    lemma_gen_state_inv(g);
}

/// Deduplication works: no two vertices of the compiled buffer share a
/// position, so a corner shared between voxels appears exactly once.
pub proof fn lemma_vertices_deduplicated(g: Seq<Seq<Seq<Voxel>>>)
    requires
        grid_bounded(g),
        8 * count_filled(g) <= 0x7fff_ffff,
    ensures
        forall|i: int, j: int|
            #![trigger gen_state(g).verts[i], gen_state(g).verts[j]]
            0 <= i < j < gen_state(g).verts.len() ==> gen_state(g).verts[i].pos != gen_state(
                g,
            ).verts[j].pos,
{
    lemma_gen_state_inv(g);
}

/// Every corner of every filled voxel has a vertex at its position in the
/// compiled buffer: the corner either pushed one or matched one. Together
/// with [`lemma_vertices_deduplicated`], a corner shared between any number
/// of voxels appears in the buffer exactly once.
pub proof fn lemma_corners_present(g: Seq<Seq<Seq<Voxel>>>)
    requires
        grid_bounded(g),
        8 * count_filled(g) <= 0x7fff_ffff,
    ensures
        forall|y: int, x: int, z: int, c: int|
            filled_at(g, y, x, z) && 0 <= c < 8 ==> pos_in(
                gen_state(g).verts,
                (#[trigger] corner_vertex(g, y, x, z, c)).pos,
            ),
{
    lemma_gen_state_inv(g);
}

/// The compiler emits exactly six indices, two triangles, for every exposed
/// face of every filled voxel, and nothing else. In particular the index
/// list's length is a multiple of three.
pub proof fn lemma_index_count(g: Seq<Seq<Seq<Voxel>>>)
    requires
        grid_bounded(g),
        8 * count_filled(g) <= 0x7fff_ffff,
    ensures
        gen_state(g).inds.len() == 6 * total_exposed(g),
        gen_state(g).inds.len() % 3 == 0,
{
    lemma_gen_state_inv(g);
}

/// A voxel whose six neighbors are all filled is fully interior: none of
/// its faces is exposed, so by [`lemma_index_count`] it contributes no
/// triangles at all.
pub proof fn lemma_interior_voxel_culled(g: Seq<Seq<Seq<Voxel>>>, y: int, x: int, z: int)
    requires
        filled_at(g, y + 1, x, z),
        filled_at(g, y - 1, x, z),
        filled_at(g, y, x + 1, z),
        filled_at(g, y, x - 1, z),
        filled_at(g, y, x, z + 1),
        filled_at(g, y, x, z - 1),
    ensures
        exposed_count(g, y, x, z) == 0,
{
}

/// No filled voxel touches another filled voxel along any axis.
pub open spec fn isolated(g: Seq<Seq<Seq<Voxel>>>) -> bool {
    forall|y: int, x: int, z: int|
        #[trigger] filled_at(g, y, x, z) ==> !filled_at(g, y + 1, x, z) && !filled_at(
            g,
            y - 1,
            x,
            z,
        ) && !filled_at(g, y, x + 1, z) && !filled_at(g, y, x - 1, z) && !filled_at(g, y, x, z + 1)
            && !filled_at(g, y, x, z - 1)
}

proof fn lemma_isolated_row(g: Seq<Seq<Seq<Voxel>>>, y: int, x: int, n: int)
    requires
        isolated(g),
        0 <= y < g.len(),
        0 <= x < g[y].len(),
        0 <= n <= g[y][x].len(),
    ensures
        exposed_row(g, y, x, n) == 6 * count_row(g, y, x, n),
    decreases n,
{
    if n > 0 {
        lemma_isolated_row(g, y, x, n - 1);
        if g[y][x][n - 1].filled {
            assert(filled_at(g, y, x, n - 1));
            assert(exposed_count(g, y, x, n - 1) == 6);
        }
    }
}

proof fn lemma_isolated_rows(g: Seq<Seq<Seq<Voxel>>>, y: int, n: int)
    requires
        isolated(g),
        0 <= y < g.len(),
        0 <= n <= g[y].len(),
    ensures
        exposed_rows(g, y, n) == 6 * count_rows(g, y, n),
    decreases n,
{
    if n > 0 {
        lemma_isolated_rows(g, y, n - 1);
        lemma_isolated_row(g, y, n - 1, g[y][n - 1].len() as int);
    }
}

proof fn lemma_isolated_layers(g: Seq<Seq<Seq<Voxel>>>, n: int)
    requires
        isolated(g),
        0 <= n <= g.len(),
    ensures
        exposed_layers(g, n) == 6 * count_layers(g, n),
    decreases n,
{
    if n > 0 {
        lemma_isolated_layers(g, n - 1);
        lemma_isolated_rows(g, n - 1, g[n - 1].len() as int);
    }
}

/// For a model with no internal adjacency at all, every face of every
/// filled voxel is exposed: the compiler emits six faces, twelve triangles,
/// thirty-six indices per filled voxel.
pub proof fn lemma_isolated_triangle_count(g: Seq<Seq<Seq<Voxel>>>)
    requires
        grid_bounded(g),
        8 * count_filled(g) <= 0x7fff_ffff,
        isolated(g),
    ensures
        gen_state(g).inds.len() == 36 * count_filled(g),
{
    lemma_gen_state_inv(g);
    lemma_isolated_layers(g, g.len() as int);
}

/// Occupancy queries outside the grid always answer "not filled": that is
/// how every face on the boundary of the model counts as exposed.
pub proof fn lemma_out_of_range_unfilled(g: Seq<Seq<Seq<Voxel>>>, y: int, x: int, z: int)
    requires
        !(0 <= y < g.len()) || !(0 <= x < g[y].len()) || !(0 <= z < g[y][x].len()),
    ensures
        !filled_at(g, y, x, z),
{
}

proof fn lemma_max_axis_nonneg(vs: Seq<Vertex>, a: int)
    ensures
        max_axis(vs, a) >= 0,
    decreases vs.len(),
{
    if vs.len() > 0 {
        lemma_max_axis_nonneg(vs.drop_last(), a);
    }
}

proof fn lemma_max_axis_le(vs: Seq<Vertex>, a: int)
    ensures
        max_axis(vs, a) <= 0xffff_ffff,
    decreases vs.len(),
{
    if vs.len() > 0 {
        lemma_max_axis_le(vs.drop_last(), a);
    }
}

proof fn lemma_axis_le_max(vs: Seq<Vertex>, a: int, i: int)
    requires
        0 <= i < vs.len(),
    ensures
        axis_of(vs[i], a) <= max_axis(vs, a),
    decreases vs.len(),
{
    if i < vs.len() - 1 {
        lemma_axis_le_max(vs.drop_last(), a, i);
        assert(vs.drop_last()[i] == vs[i]);
    }
}

/// The normalization round trip: when the mesh has a positive extent, every
/// rescaled coordinate of `normalize_scale(vertices, min, max)` lies inside
/// `[min, max]` as an exact rational — in particular, with `[-1, 1]`, no
/// coordinate's absolute value exceeds one. A mesh whose coordinates are
/// all zero has no extent to scale by and is excluded.
pub proof fn lemma_normalize_in_range(vs: Seq<Vertex>, min: int, max: int)
    requires
        -0x8000_0000 <= min <= max <= 0x8000_0000,
        largest_extent(vs) > 0,
    ensures
        forall|i: int|
            0 <= i < scale_spec(vs, min, max).len() ==> {
                let p = (#[trigger] scale_spec(vs, min, max)[i]).pos;
                &&& p.den > 0
                &&& min * (p.den as int) <= p.num_x as int <= max * (p.den as int)
                &&& min * (p.den as int) <= p.num_y as int <= max * (p.den as int)
                &&& min * (p.den as int) <= p.num_z as int <= max * (p.den as int)
            },
{
    let ell = largest_extent(vs);
    lemma_max_axis_nonneg(vs, 0);
    lemma_max_axis_nonneg(vs, 1);
    lemma_max_axis_nonneg(vs, 2);
    lemma_max_axis_le(vs, 0);
    lemma_max_axis_le(vs, 1);
    lemma_max_axis_le(vs, 2);
    assert(0 < ell <= 0xffff_ffff);
    assert forall|i: int| 0 <= i < scale_spec(vs, min, max).len() implies {
        let p = (#[trigger] scale_spec(vs, min, max)[i]).pos;
        &&& p.den > 0
        &&& min * (p.den as int) <= p.num_x as int <= max * (p.den as int)
        &&& min * (p.den as int) <= p.num_y as int <= max * (p.den as int)
        &&& min * (p.den as int) <= p.num_z as int <= max * (p.den as int)
    } by {
        let v = vs[i];
        lemma_axis_le_max(vs, 0, i);
        lemma_axis_le_max(vs, 1, i);
        lemma_axis_le_max(vs, 2, i);
        lemma_scaled_coord_in_range(v.pos.x as int, min, max, ell);
        lemma_scaled_coord_in_range(v.pos.y as int, min, max, ell);
        lemma_scaled_coord_in_range(v.pos.z as int, min, max, ell);
    }
}

/// The linear map `v ↦ (max - min) · v + min · ell` sends any `v` between
/// `0` and `ell` to a numerator between `min · ell` and `max · ell`, and
/// the numerator stays well inside `i128`.
proof fn lemma_scaled_coord_in_range(v: int, min: int, max: int, ell: int)
    requires
        -0x8000_0000 <= min <= max <= 0x8000_0000,
        0 < ell <= 0xffff_ffff,
        0 <= v <= ell,
    ensures
        min * ell <= (max - min) * v + min * ell <= max * ell,
        -0x8000_0000_0000_0000_0000 <= (max - min) * v + min * ell
            <= 0x8000_0000_0000_0000_0000,
{
    assert((max - min) * v >= 0) by (nonlinear_arith)
        requires
            max - min >= 0,
            v >= 0,
    ;
    assert((max - min) * v <= (max - min) * ell) by (nonlinear_arith)
        requires
            max - min >= 0,
            0 <= v <= ell,
    ;
    assert(min * ell >= -0x8000_0000_0000_0000 && min * ell <= 0x8000_0000_0000_0000 && (max - min)
        * ell <= 0x2_0000_0000_0000_0000) by (nonlinear_arith)
        requires
            -0x8000_0000 <= min <= max <= 0x8000_0000,
            0 < ell <= 0xffff_ffff,
    ;
    assert((max - min) * ell + min * ell == max * ell) by (nonlinear_arith);
}


/// A rectangular block of `h` layers, `r` rows and `c` columns, every cell
/// filled.
pub open spec fn solid_cuboid(g: Seq<Seq<Seq<Voxel>>>, h: int, r: int, c: int) -> bool {
    &&& g.len() == h
    &&& h > 0 && r > 0 && c > 0
    &&& forall|y: int| 0 <= y < h ==> #[trigger] g[y].len() == r
    &&& forall|y: int, x: int| 0 <= y < h && 0 <= x < r ==> #[trigger] g[y][x].len() == c
    &&& forall|y: int, x: int, z: int|
        0 <= y < h && 0 <= x < r && 0 <= z < c ==> #[trigger] g[y][x][z].filled
}

/// In a solid cuboid, a voxel's face is exposed exactly when it lies on
/// the cuboid's outside: the emitted triangles are the outer surface and
/// nothing else.
pub proof fn lemma_cuboid_exposure(
    g: Seq<Seq<Seq<Voxel>>>,
    h: int,
    r: int,
    c: int,
    y: int,
    x: int,
    z: int,
)
    requires
        solid_cuboid(g, h, r, c),
        0 <= y < h,
        0 <= x < r,
        0 <= z < c,
    ensures
        exposed_count(g, y, x, z) == (if y == h - 1 {
            1int
        } else {
            0int
        }) + (if y == 0 {
            1int
        } else {
            0int
        }) + (if x == r - 1 {
            1int
        } else {
            0int
        }) + (if x == 0 {
            1int
        } else {
            0int
        }) + (if z == c - 1 {
            1int
        } else {
            0int
        }) + (if z == 0 {
            1int
        } else {
            0int
        }),
{
}

/// A model with at least one filled voxel compiles to a mesh with a
/// positive bounding extent: its up corners sit at height one or more, so
/// the normalization of [`lemma_normalize_in_range`] always applies to it.
pub proof fn lemma_mesh_extent_positive(g: Seq<Seq<Seq<Voxel>>>)
    requires
        grid_bounded(g),
        8 * count_filled(g) <= 0x7fff_ffff,
        count_filled(g) > 0,
    ensures
        largest_extent(gen_state(g).verts) > 0,
{
    lemma_gen_state_inv(g);
    let vs = gen_state(g).verts;
    assert(has_up_vertex(vs));
    let i = choose|i: int| 0 <= i < vs.len() && #[trigger] vs[i].pos.y >= 1;
    lemma_axis_le_max(vs, 1, i);
    assert(axis_of(vs[i], 1) >= 1);
    lemma_max_axis_nonneg(vs, 0);
    lemma_max_axis_nonneg(vs, 2);
}


proof fn lemma_cuboid_row_sum(g: Seq<Seq<Seq<Voxel>>>, h: int, r: int, c: int, y: int, x: int,
    n: int)
    requires
        solid_cuboid(g, h, r, c),
        0 <= y < h,
        0 <= x < r,
        0 <= n <= c,
    ensures
        exposed_row(g, y, x, n) == n * ((if y == 0 {
            1int
        } else {
            0int
        }) + (if y == h - 1 {
            1int
        } else {
            0int
        }) + (if x == 0 {
            1int
        } else {
            0int
        }) + (if x == r - 1 {
            1int
        } else {
            0int
        })) + (if n >= 1 {
            1int
        } else {
            0int
        }) + (if n == c {
            1int
        } else {
            0int
        }),
    decreases n,
{
    let iy = (if y == 0 {
        1int
    } else {
        0int
    }) + (if y == h - 1 {
        1int
    } else {
        0int
    }) + (if x == 0 {
        1int
    } else {
        0int
    }) + (if x == r - 1 {
        1int
    } else {
        0int
    });
    if n > 0 {
        lemma_cuboid_row_sum(g, h, r, c, y, x, n - 1);
        lemma_cuboid_exposure(g, h, r, c, y, x, n - 1);
        assert(n * iy == (n - 1) * iy + iy) by (nonlinear_arith);
    }
}

proof fn lemma_cuboid_rows_sum(g: Seq<Seq<Seq<Voxel>>>, h: int, r: int, c: int, y: int, n: int)
    requires
        solid_cuboid(g, h, r, c),
        0 <= y < h,
        0 <= n <= r,
    ensures
        exposed_rows(g, y, n) == n * (c * ((if y == 0 {
            1int
        } else {
            0int
        }) + (if y == h - 1 {
            1int
        } else {
            0int
        })) + 2) + c * ((if n >= 1 {
            1int
        } else {
            0int
        }) + (if n == r {
            1int
        } else {
            0int
        })),
    decreases n,
{
    let iy = (if y == 0 {
        1int
    } else {
        0int
    }) + (if y == h - 1 {
        1int
    } else {
        0int
    });
    if n > 0 {
        lemma_cuboid_rows_sum(g, h, r, c, y, n - 1);
        lemma_cuboid_row_sum(g, h, r, c, y, n - 1, c);
        let ix = (if n - 1 == 0 {
            1int
        } else {
            0int
        }) + (if n - 1 == r - 1 {
            1int
        } else {
            0int
        });
        let q = (if n - 1 >= 1 {
            1int
        } else {
            0int
        }) + (if n - 1 == r {
            1int
        } else {
            0int
        });
        let p = (if n >= 1 {
            1int
        } else {
            0int
        }) + (if n == r {
            1int
        } else {
            0int
        });
        let a = c * iy + 2;
        assert(exposed_rows(g, y, n - 1) == (n - 1) * a + c * q);
        assert(exposed_row(g, y, n - 1, c) == c * (iy + ix) + 2);
        assert(c * (iy + ix) == c * iy + c * ix) by (nonlinear_arith);
        assert(n * a == (n - 1) * a + a) by (nonlinear_arith);
        assert(q + ix == p);
        assert(c * q + c * ix == c * (q + ix)) by (nonlinear_arith);
        assert(c * (q + ix) == c * p);
        assert(exposed_rows(g, y, n) == (n - 1) * a + c * q + c * iy + c * ix + 2);
        assert(exposed_rows(g, y, n) == n * a + c * p);
    }
}

proof fn lemma_cuboid_layers_sum(g: Seq<Seq<Seq<Voxel>>>, h: int, r: int, c: int, n: int)
    requires
        solid_cuboid(g, h, r, c),
        0 <= n <= h,
    ensures
        exposed_layers(g, n) == n * (2 * r + 2 * c) + r * c * ((if n >= 1 {
            1int
        } else {
            0int
        }) + (if n == h {
            1int
        } else {
            0int
        })),
    decreases n,
{
    if n > 0 {
        assert(g[n - 1].len() == r);
        lemma_cuboid_layers_sum(g, h, r, c, n - 1);
        lemma_cuboid_rows_sum(g, h, r, c, n - 1, r);
        assert(exposed_layers(g, n) == exposed_layers(g, n - 1) + exposed_rows(
            g,
            n - 1,
            g[n - 1].len() as int,
        ));
        let iy = (if n - 1 == 0 {
            1int
        } else {
            0int
        }) + (if n - 1 == h - 1 {
            1int
        } else {
            0int
        });
        let q = (if n - 1 >= 1 {
            1int
        } else {
            0int
        }) + (if n - 1 == h {
            1int
        } else {
            0int
        });
        let p = (if n >= 1 {
            1int
        } else {
            0int
        }) + (if n == h {
            1int
        } else {
            0int
        });
        let a = 2 * r + 2 * c;
        assert(exposed_layers(g, n - 1) == (n - 1) * a + r * c * q);
        assert(exposed_rows(g, n - 1, r) == r * (c * iy + 2) + c * ((if r >= 1 {
            1int
        } else {
            0int
        }) + (if r == r {
            1int
        } else {
            0int
        })));
        assert(exposed_rows(g, n - 1, r) == r * (c * iy + 2) + 2 * c);
        assert(r * (c * iy + 2) == r * c * iy + 2 * r) by (nonlinear_arith);
        assert(n * a == (n - 1) * a + a) by (nonlinear_arith);
        assert(q + iy == p);
        assert(r * c * q + r * c * iy == r * c * (q + iy)) by (nonlinear_arith);
        assert(r * c * (q + iy) == r * c * p);
        assert(exposed_layers(g, n) == (n - 1) * a + r * c * q + r * c * iy + 2 * r + 2 * c);
        assert(exposed_layers(g, n) == n * a + r * c * p);
    } else {
        assert(exposed_layers(g, n) == 0);
        assert(n * (2 * r + 2 * c) == 0) by (nonlinear_arith)
            requires
                n == 0,
        ;
        assert(r * c * ((if n >= 1 {
            1int
        } else {
            0int
        }) + (if n == h {
            1int
        } else {
            0int
        })) == 0) by (nonlinear_arith)
            requires
                n == 0,
                h > 0,
        ;
    }
}

/// For a solid cuboid of `h` layers, `r` rows and `c` columns, exactly the
/// outer surface is meshed: its `2(rc + hc + hr)` unit faces, six indices
/// each, and nothing from the buried voxels.
pub proof fn lemma_cuboid_surface(g: Seq<Seq<Seq<Voxel>>>, h: int, r: int, c: int)
    requires
        grid_bounded(g),
        8 * count_filled(g) <= 0x7fff_ffff,
        solid_cuboid(g, h, r, c),
    ensures
        gen_state(g).inds.len() == 6 * (2 * (r * c + h * c + h * r)),
{
    lemma_gen_state_inv(g);
    lemma_cuboid_layers_sum(g, h, r, c, h);
    assert(total_exposed(g) == h * (2 * r + 2 * c) + r * c * 2);
    assert(h * (2 * r + 2 * c) + r * c * 2 == 2 * (r * c + h * c + h * r)) by (nonlinear_arith);
    assert(gen_state(g).inds.len() == 6 * total_exposed(g));
}


/// Index remapping is correct: whatever state a voxel is processed in,
/// each of the six indices emitted for one of its faces references the
/// vertex that stands at the position of the face corner the raw index
/// named — whether that vertex was freshly pushed or found by
/// deduplication.
pub proof fn lemma_remap_references_corners(
    s: GenState,
    g: Seq<Seq<Seq<Voxel>>>,
    y: int,
    x: int,
    z: int,
    pattern: Seq<u32>,
)
    requires
        st_inv(s),
        grid_bounded(g),
        0 <= y < g.len(),
        0 <= x < g[y].len(),
        0 <= z < g[y][x].len(),
        s.offset + 8 <= 0x7fff_ffff,
        face_pattern_ok(pattern),
    ensures
        ({
            let t8 = corners_state(s, g, y, x, z);
            let e = emitted(pattern, s.offset, t8.culled, dups_of(s.verts, g, y, x, z));
            forall|k: int|
                0 <= k < 6 ==> (#[trigger] e[k] as int) < t8.verts.len()
                    && t8.verts[e[k] as int].pos == corner_vertex(g, y, x, z, pattern[k] as int).pos
        }),
{
    lemma_corners_state_mid(s, g, y, x, z);
    let t8 = corners_state(s, g, y, x, z);
    let dups = dups_of(s.verts, g, y, x, z);
    let e = emitted(pattern, s.offset, t8.culled, dups);
    assert forall|k: int| 0 <= k < 6 implies (#[trigger] e[k] as int) < t8.verts.len()
        && t8.verts[e[k] as int].pos == corner_vertex(g, y, x, z, pattern[k] as int).pos by {
        let ind = pattern[k] as int;
        let p = corner_vertex(g, y, x, z, ind).pos;
        lemma_find_pos(s.verts, p);
        match find_pos(s.verts, p) {
            Some(ix) => {
                assert(s.verts.len() <= s.offset);
                assert(dups[ind] == ix as i32);
                assert(dups[ind] != -1);
                assert(e[k] as int == ix);
                assert(t8.verts[ix] == s.verts[ix]);
            },
            None => {
                assert(dups[ind] == -1i32);
                let vi = ind + s.offset - count_lt(t8.culled, ind + s.offset);
                assert(0 <= vi < t8.verts.len() && t8.verts[vi] == corner_vertex(g, y, x, z, ind));
                assert(t8.verts.len() + t8.culled.len() == s.offset + 8);
                assert(e[k] as int == vi);
            },
        }
    }
}

} // verus!
