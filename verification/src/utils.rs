use crate::vertex::{ScaledPos3, ScaledVertex, Vertex};
use vstd::prelude::*;

verus! {

/// What [`push_if_absent`] leaves in the vector: the element is appended
/// only if it is not already present.
pub open spec fn push_absent(s: Seq<usize>, e: usize) -> Seq<usize> {
    if s.contains(e) {
        s
    } else {
        s.push(e)
    }
}

/// Appends `element` to `vector` unless the vector already contains it.
pub fn push_if_absent(vector: &mut Vec<usize>, element: usize)
    ensures
        final(vector)@ == push_absent(old(vector)@, element),
{
    let n = vector.len();
    for i in 0..n
        invariant
            n == vector@.len(),
            forall|j: int| 0 <= j < i ==> vector@[j] != element,
    {
        if vector[i] == element {
            assert(vector@.contains(element));
            return ;
        }
    }
    assert(!vector@.contains(element));
    vector.push(element);
}


/// One coordinate of a vertex position, by axis: `0` is x, `1` is y, `2` is z.
pub open spec fn axis_of(v: Vertex, a: int) -> int {
    if a == 0 {
        v.pos.x as int
    } else if a == 1 {
        v.pos.y as int
    } else {
        v.pos.z as int
    }
}

/// The largest coordinate along axis `a`, seeded at zero. Positions are
/// never negative, so the lower end of each axis's bounding range (also
/// seeded at zero) is always zero and the extent along an axis is simply
/// this maximum.
pub open spec fn max_axis(vs: Seq<Vertex>, a: int) -> int
    decreases vs.len(),
{
    if vs.len() == 0 {
        0
    } else {
        let m = max_axis(vs.drop_last(), a);
        if axis_of(vs.last(), a) > m {
            axis_of(vs.last(), a)
        } else {
            m
        }
    }
}

/// The largest bounding extent of the mesh across the three axes.
pub open spec fn largest_extent(vs: Seq<Vertex>) -> int {
    let mx = max_axis(vs, 0);
    let my = max_axis(vs, 1);
    let mz = max_axis(vs, 2);
    let mxy = if my > mx {
        my
    } else {
        mx
    };
    if mz > mxy {
        mz
    } else {
        mxy
    }
}

/// One vertex after rescaling: every coordinate `v` becomes the exact
/// rational `((max - min) * v + min * den) / den`, the linear map that
/// sends `0` to `min` and `den` to `max`.
pub open spec fn scaled_vertex(v: Vertex, min: int, max: int, den: int) -> ScaledVertex {
    ScaledVertex {
        pos: ScaledPos3 {
            num_x: ((max - min) * (v.pos.x as int) + min * den) as i128,
            num_y: ((max - min) * (v.pos.y as int) + min * den) as i128,
            num_z: ((max - min) * (v.pos.z as int) + min * den) as i128,
            den: den as i128,
        },
        color: v.color,
        normal: v.normal,
    }
}

/// What [`normalize_scale`] returns: every vertex rescaled by the one
/// linear map that the largest extent defines. A mesh whose coordinates are
/// all zero has extent zero, and its scaled positions carry a zero
/// denominator: they are meaningless, exactly as the division by a zero
/// extent in the rescaling formula would be.
pub open spec fn scale_spec(vs: Seq<Vertex>, min: int, max: int) -> Seq<ScaledVertex> {
    Seq::new(vs.len(), |i: int| scaled_vertex(vs[i], min, max, largest_extent(vs)))
}

/// Rescales the mesh so that the axis with the largest bounding extent maps
/// onto `[min, max]`. All three coordinates of every vertex go through the
/// same linear map, so relative proportions are kept; the model is not
/// re-centered. Coordinates come back as exact rationals over the shared
/// denominator [`largest_extent`]; a renderer divides once per coordinate.
pub fn normalize_scale(vertices: &Vec<Vertex>, min: i32, max: i32) -> (out: Vec<ScaledVertex>)
    ensures
        out@ == scale_spec(vertices@, min as int, max as int),
{
    let mut max_x: u32 = 0;
    let mut max_y: u32 = 0;
    let mut max_z: u32 = 0;
    let n = vertices.len();
    for i in 0..n
        invariant
            n == vertices@.len(),
            max_x as int == max_axis(vertices@.take(i as int), 0),
            max_y as int == max_axis(vertices@.take(i as int), 1),
            max_z as int == max_axis(vertices@.take(i as int), 2),
    {
        proof {
            assert(vertices@.take(i + 1).drop_last() =~= vertices@.take(i as int));
            assert(vertices@.take(i + 1).last() == vertices@[i as int]);
        }
        let vertex = &vertices[i];
        if vertex.pos.x > max_x {
            max_x = vertex.pos.x;
        }
        if vertex.pos.y > max_y {
            max_y = vertex.pos.y;
        }
        if vertex.pos.z > max_z {
            max_z = vertex.pos.z;
        }
    }
    proof {
        assert(vertices@.take(n as int) =~= vertices@);
    }
    let largest = if max_y > max_x {
        max_y
    } else {
        max_x
    };
    let largest = if max_z > largest {
        max_z
    } else {
        largest
    };
    proof {
        assert(largest as int == largest_extent(vertices@));
    }

    let mut out: Vec<ScaledVertex> = Vec::new();
    let span = max as i128 - min as i128;
    proof {
        assert((min as i128) * (largest as i128) <= 0x8000_0000_0000_0000 && (min as i128) * (
        largest as i128) >= -0x8000_0000_0000_0000) by (nonlinear_arith)
            requires
                -0x8000_0000 <= min as i128 <= 0x8000_0000,
                0 <= largest as i128 <= 0x1_0000_0000,
        ;
    }
    let shift = (min as i128) * (largest as i128);
    for i in 0..n
        invariant
            n == vertices@.len(),
            largest as int == largest_extent(vertices@),
            span == max as int - min as int,
            shift == (min as int) * (largest_extent(vertices@)),
            -0x8000_0000_0000_0000 <= shift <= 0x8000_0000_0000_0000,
            out@.len() == i,
            forall|j: int|
                0 <= j < i ==> #[trigger] out@[j] == scaled_vertex(
                    vertices@[j],
                    min as int,
                    max as int,
                    largest_extent(vertices@),
                ),
    {
        let vertex = &vertices[i];
        proof {
            assert(-0x1_0000_0000 <= span <= 0x1_0000_0000);
            assert(span * (vertex.pos.x as i128) <= 0x1_0000_0000_0000_0000
                && span * (vertex.pos.x as i128) >= -0x1_0000_0000_0000_0000) by (nonlinear_arith)
                requires
                    -0x1_0000_0000 <= span <= 0x1_0000_0000,
                    0 <= vertex.pos.x as i128 <= 0x1_0000_0000,
            ;
            assert(span * (vertex.pos.y as i128) <= 0x1_0000_0000_0000_0000
                && span * (vertex.pos.y as i128) >= -0x1_0000_0000_0000_0000) by (nonlinear_arith)
                requires
                    -0x1_0000_0000 <= span <= 0x1_0000_0000,
                    0 <= vertex.pos.y as i128 <= 0x1_0000_0000,
            ;
            assert(span * (vertex.pos.z as i128) <= 0x1_0000_0000_0000_0000
                && span * (vertex.pos.z as i128) >= -0x1_0000_0000_0000_0000) by (nonlinear_arith)
                requires
                    -0x1_0000_0000 <= span <= 0x1_0000_0000,
                    0 <= vertex.pos.z as i128 <= 0x1_0000_0000,
            ;
        }
        let v = ScaledVertex {
            pos: ScaledPos3 {
                num_x: span * (vertex.pos.x as i128) + shift,
                num_y: span * (vertex.pos.y as i128) + shift,
                num_z: span * (vertex.pos.z as i128) + shift,
                den: largest as i128,
            },
            color: vertex.color,
            normal: vertex.normal,
        };
        proof {
            assert(v == scaled_vertex(
                vertices@[i as int],
                min as int,
                max as int,
                largest_extent(vertices@),
            ));
        }
        out.push(v);
    }
    proof {
        assert(out@ =~= scale_spec(vertices@, min as int, max as int));
    }
    out
}

/// What [`wireframe_indices`] emits for the triangles from position `k`
/// on: each full index triple `(a, b, c)` becomes the three line segments
/// `(a, b)`, `(b, c)`, `(c, a)`.
pub open spec fn wire_from(inds: Seq<u32>, k: int) -> Seq<u32>
    decreases inds.len() - k,
{
    if k < 0 || k + 3 > inds.len() {
        Seq::empty()
    } else {
        seq![inds[k], inds[k + 1], inds[k + 1], inds[k + 2], inds[k + 2], inds[k]] + wire_from(
            inds,
            k + 3,
        )
    }
}

/// The line-list form of a triangle index list; see [`wire_from`].
pub open spec fn wireframe_spec(inds: Seq<u32>) -> Seq<u32> {
    wire_from(inds, 0)
}

/// Expands a triangle index list into the index list of its edges, for
/// rendering a mesh as a wireframe: each triangle yields its three edges,
/// six indices in place of three.
pub fn wireframe_indices(indices: &Vec<u32>) -> (out: Vec<u32>)
    ensures
        out@ == wireframe_spec(indices@),
{
    let mut out: Vec<u32> = Vec::new();
    let n = indices.len();
    let mut k: usize = 0;
    while n - k >= 3
        invariant
            n == indices@.len(),
            k <= n,
            out@ + wire_from(indices@, k as int) == wireframe_spec(indices@),
        decreases n - k,
    {
        let a = indices[k];
        let b = indices[k + 1];
        let c = indices[k + 2];
        let ghost pre = out@;
        out.push(a);
        out.push(b);
        out.push(b);
        out.push(c);
        out.push(c);
        out.push(a);
        proof {
            assert(out@ =~= pre + seq![a, b, b, c, c, a]);
            assert(out@ + wire_from(indices@, k + 3) =~= pre + wire_from(indices@, k as int));
        }
        k = k + 3;
    }
    proof {
        assert(wire_from(indices@, k as int) =~= Seq::<u32>::empty());
        assert(out@ + Seq::<u32>::empty() =~= out@);
    }
    out
}

} // verus!
