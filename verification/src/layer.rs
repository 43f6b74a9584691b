use crate::voxel::Voxel;
use vstd::prelude::*;

verus! {

/// One horizontal slice of a model: a 2-D grid of voxels with a label.
///
/// `value[a]` is a row, `value[a][b]` a cell. The hollowing operation
/// [`Layer::get_outer`] expects the grid to be rectangular and non-empty;
/// a malformed layer is an authoring error, not a runtime condition.
#[derive(Clone, Debug)]
pub struct Layer {
    pub label: String,
    pub value: Vec<Vec<Voxel>>,
}

/// The cell at `(a, b)` of the hollowed grid. Cells on the grid's border
/// are kept as they are. An interior cell stays filled only if at least one
/// of its four in-plane neighbors is unfilled; a filled cell surrounded by
/// filled neighbors is hollowed out, and an empty cell stays empty.
pub open spec fn outer_cell(g: Seq<Seq<Voxel>>, a: int, b: int) -> Voxel {
    let v = g[a][b];
    if a == 0 || b == 0 || a == g.len() - 1 || b == g[0].len() - 1 {
        v
    } else {
        Voxel {
            filled: v.filled && (!g[a + 1][b].filled || !g[a - 1][b].filled || !g[a][b + 1].filled
                || !g[a][b - 1].filled),
            material: v.material,
        }
    }
}

impl Layer {
    /// The grid of this layer as a sequence of rows.
    pub open spec fn grid(&self) -> Seq<Seq<Voxel>> {
        self.value@.map_values(|row: Vec<Voxel>| row@)
    }

    /// A well-formed grid: at least one row, at least one column, and every
    /// row of the same length.
    pub open spec fn rect(&self) -> bool {
        &&& self.grid().len() >= 1
        &&& self.grid()[0].len() >= 1
        &&& forall|i: int|
            0 <= i < self.grid().len() ==> #[trigger] self.grid()[i].len() == self.grid()[0].len()
    }

    /// Hollows the layer: every interior voxel whose four in-plane
    /// neighbors are all filled becomes unfilled, everything else is kept.
    /// Border cells are always kept as they are.
    pub fn get_outer(&self) -> (out: Layer)
        requires
            self.rect(),
        ensures
            out.label@ == self.label@,
            out.grid().len() == self.grid().len(),
            forall|a: int|
                0 <= a < self.grid().len() ==> #[trigger] out.grid()[a].len()
                    == self.grid()[a].len(),
            forall|a: int, b: int|
                0 <= a < self.grid().len() && 0 <= b < self.grid()[a].len()
                    ==> #[trigger] out.grid()[a][b] == outer_cell(self.grid(), a, b),
    {
        let rows = self.value.len();
        let cols = self.value[0].len();
        let height = rows - 1;
        let width = cols - 1;
        let mut out: Vec<Vec<Voxel>> = Vec::new();

        for a in 0..rows
            invariant
                self.rect(),
                rows == self.grid().len(),
                cols == self.grid()[0].len(),
                height == rows - 1,
                width == cols - 1,
                out@.len() == a,
                forall|i: int, j: int|
                    0 <= i < a && 0 <= j < cols ==> #[trigger] out@[i]@[j] == outer_cell(
                        self.grid(),
                        i,
                        j,
                    ),
                forall|i: int| 0 <= i < a ==> #[trigger] out@[i]@.len() == cols,
        {
            let mut row: Vec<Voxel> = Vec::new();
            for b in 0..cols
                invariant
                    self.rect(),
                    rows == self.grid().len(),
                    cols == self.grid()[0].len(),
                    height == rows - 1,
                    width == cols - 1,
                    a < rows,
                    row@.len() == b,
                    forall|j: int|
                        0 <= j < b ==> #[trigger] row@[j] == outer_cell(self.grid(), a as int, j),
            {
                proof {
                    assert(a < self.value@.len());
                    assert(self.grid()[a as int] == self.value@[a as int]@);
                    assert(self.value@[a as int]@.len() == cols);
                }
                let cell = if a == 0 || b == 0 || b == width || a == height {
                    self.value[a][b]
                } else {
                    proof {
                        assert(self.grid()[a as int + 1] == self.value@[a as int + 1]@);
                        assert(self.grid()[a as int - 1] == self.value@[a as int - 1]@);
                        assert(self.value@[a as int + 1]@.len() == cols);
                        assert(self.value@[a as int - 1]@.len() == cols);
                    }
                    let v = self.value[a][b];
                    let keep = !self.value[a + 1][b].filled || !self.value[a - 1][b].filled
                        || !self.value[a][b + 1].filled || !self.value[a][b - 1].filled;
                    Voxel { filled: v.filled && keep, material: v.material }
                };
                row.push(cell);
            }
            out.push(row);
        }

        Layer { label: self.label.clone(), value: out }
    }
}

impl PartialEq for Layer {
    /// Two layers are equal when their grids are; labels do not matter.
    fn eq(&self, other: &Layer) -> (r: bool)
    {
        if self.value.len() != other.value.len() {
            assert(self.grid().len() != other.grid().len());
            return false;
        }
        for i in 0..self.value.len()
            invariant
                self.grid().len() == other.grid().len(),
                forall|k: int| 0 <= k < i ==> #[trigger] self.grid()[k] == other.grid()[k],
        {
            let row_len = self.value[i].len();
            if row_len != other.value[i].len() {
                assert(self.grid()[i as int].len() != other.grid()[i as int].len());
                return false;
            }
            for j in 0..row_len
                invariant
                    self.grid().len() == other.grid().len(),
                    i < self.grid().len(),
                    self.grid()[i as int] == self.value@[i as int]@,
                    other.grid()[i as int] == other.value@[i as int]@,
                    row_len == self.grid()[i as int].len(),
                    self.grid()[i as int].len() == other.grid()[i as int].len(),
                    forall|k: int| 0 <= k < i ==> #[trigger] self.grid()[k] == other.grid()[k],
                    forall|k: int|
                        0 <= k < j ==> #[trigger] self.grid()[i as int][k]
                            == other.grid()[i as int][k],
            {
                if self.value[i][j] != other.value[i][j] {
                    return false;
                }
            }
            proof {
                assert(self.grid()[i as int] =~= other.grid()[i as int]);
            }
        }
        proof {
            assert(self.grid() =~~= other.grid());
        }
        true
    }
}

impl vstd::std_specs::cmp::PartialEqSpecImpl for Layer {
    open spec fn obeys_eq_spec() -> bool {
        true
    }

    open spec fn eq_spec(&self, other: &Layer) -> bool {
        self.grid() == other.grid()
    }
}

} // verus!
