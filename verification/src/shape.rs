use vstd::prelude::*;
use vstd::arithmetic::div_mod::{
    lemma_fundamental_div_mod, lemma_mod_division_less_than_divisor, lemma_multiply_divide_lt,
};

verus! {

/// The topology of the grid: a row of cells, or a rectangle of cells.
/// Cells are addressed by a linear index; a rectangle is laid out row by
/// row, so cell `(x, y)` has index `y * width + x`.
#[derive(Clone, Copy, PartialEq, Eq, Structural, Debug)]
pub enum Shape {
    Line { length: usize },
    Rect { width: usize, height: usize },
}

impl Shape {
    /// How many cells the grid has.
    pub open spec fn count(self) -> int {
        match self {
            Shape::Line { length } => length as int,
            Shape::Rect { width, height } => width * height,
        }
    }

    /// The cell count fits in a machine word.
    pub open spec fn wf(self) -> bool {
        self.count() <= usize::MAX
    }

    /// Two linear indices address neighboring cells: consecutive cells of a
    /// row (without wrapping around a rectangle's edge), or vertically
    /// touching cells of a rectangle.
    pub open spec fn adjacent(self, i: int, j: int) -> bool {
        match self {
            Shape::Line { length } => {
                &&& 0 <= i < length
                &&& 0 <= j < length
                &&& (j == i - 1 || j == i + 1)
            },
            Shape::Rect { width, height } => {
                &&& 0 <= i < width * height
                &&& 0 <= j < width * height
                &&& {
                    ||| (j == i - 1 && i % (width as int) != 0)
                    ||| (j == i + 1 && i % (width as int) != width - 1)
                    ||| j == i - width
                    ||| j == i + width
                }
            },
        }
    }

    /// Neighboring cells are distinct.
    pub proof fn lemma_adjacent_ne(self, i: int, j: int)
        requires
            self.adjacent(i, j),
        ensures
            i != j,
            0 <= i < self.count(),
            0 <= j < self.count(),
    {
        if let Shape::Rect { width, height } = self {
            if i == j {
                assert(width > 0) by (nonlinear_arith)
                    requires 0 <= i < width * height
                {}
            }
        }
    }

    /// A shape with at most one cell has no neighboring pair at all.
    pub proof fn lemma_small_no_adjacent(self)
        requires
            self.count() <= 1,
        ensures
            forall|i: int, j: int| !(#[trigger] self.adjacent(i, j)),
    {
        assert forall|i: int, j: int| !(#[trigger] self.adjacent(i, j)) by {
            if self.adjacent(i, j) {
                self.lemma_adjacent_ne(i, j);
            }
        }
    }

    pub fn cell_count(&self) -> (n: usize)
        requires
            self.wf(),
        ensures
            n == self.count(),
    {
        match *self {
            Shape::Line { length } => length,
            Shape::Rect { width, height } => width * height,
        }
    }

    /// The valid neighbors of cell `i`, in scan order: left, right, up, down.
    /// Out-of-range neighbors are omitted, never an error.
    pub fn neighbors(&self, i: usize) -> (ns: Vec<usize>)
        requires
            self.wf(),
            i < self.count(),
        ensures
            forall|k: int| 0 <= k < ns.len() ==> self.adjacent(i as int, #[trigger] ns@[k] as int),
            forall|j: usize| self.adjacent(i as int, j as int) ==> ns@.contains(j),
    {
        let mut ns: Vec<usize> = Vec::new();
        match *self {
            Shape::Line { length } => {
                if i > 0 {
                    ns.push(i - 1);
                }
                if i + 1 < length {
                    ns.push(i + 1);
                }
                proof {
                    assert forall|j: usize| self.adjacent(i as int, j as int) implies ns@.contains(j) by {
                        if j == i - 1 && i > 0 {
                            assert(ns@[0] == j);
                        } else {
                            assert(j == i + 1 && i + 1 < length);
                            assert(ns@[ns@.len() - 1] == j);
                        }
                    }
                }
            },
            Shape::Rect { width, height } => {
                proof {
                    assert(width > 0 && height > 0) by (nonlinear_arith)
                        requires 0 <= i < width * height
                    {}
                }
                let x = i % width;
                let y = i / width;
                proof {
                    let ii = i as int;
                    let w = width as int;
                    lemma_fundamental_div_mod(ii, w);
                    lemma_mod_division_less_than_divisor(ii, w);
                    lemma_multiply_divide_lt(ii, w, height as int);
                    assert(x as int == ii % w);
                    assert(y as int == ii / w);
                    // i == y * width + x, 0 <= x < width, 0 <= y < height
                    assert(ii == (y as int) * w + (x as int)) by (nonlinear_arith)
                        requires
                            ii == w * (ii / w) + ii % w,
                            x as int == ii % w,
                            y as int == ii / w,
                    {}
                }
                if x > 0 {
                    ns.push(i - 1);
                }
                let ghost s1 = ns@;
                if x + 1 < width {
                    proof {
                        assert(((i + 1) as int) < (width as int) * (height as int)) by (nonlinear_arith)
                            requires
                                i as int == (y as int) * (width as int) + x as int,
                                x + 1 < width,
                                y < height,
                                width > 0,
                        {}
                    }
                    ns.push(i + 1);
                }
                let ghost s2 = ns@;
                if i >= width {
                    ns.push(i - width);
                }
                let ghost s3 = ns@;
                if y + 1 < height {
                    proof {
                        assert(((i + width) as int) < (width as int) * (height as int)) by (nonlinear_arith)
                            requires
                                i as int == (y as int) * (width as int) + x as int,
                                x < width,
                                y + 1 < height,
                                width > 0,
                        {}
                    }
                    ns.push(i + width);
                }
                proof {
                    let w = width as int;
                    assert forall|j: usize| self.adjacent(i as int, j as int) implies ns@.contains(j) by {
                        if j as int == i - 1 && i % width != 0 {
                            assert(x > 0);
                            assert(ns@[0] == j);
                        } else if j as int == i + 1 && i % width != width - 1 {
                            assert(x + 1 < width);
                            assert(ns@[s1.len() as int] == j);
                        } else if j as int == i - w {
                            assert(i >= width) by (nonlinear_arith)
                                requires
                                    j as int == i - w,
                                    0 <= j as int,
                                    w == width,
                            {}
                            assert(ns@[s2.len() as int] == j);
                        } else {
                            assert(j as int == i + w);
                            assert(y + 1 < height) by (nonlinear_arith)
                                requires
                                    j as int == i + w,
                                    (j as int) < (width as int) * (height as int),
                                    i as int == (y as int) * w + x as int,
                                    0 <= x < width,
                                    w == width,
                                    width > 0,
                            {}
                            assert(ns@[s3.len() as int] == j);
                        }
                    }
                }
            },
        }
        ns
    }
}

} // verus!
