//! Boolean grids: the foreground mask and the flood fill's visited grid.

use vstd::prelude::*;
use crate::grid::{Grid, lemma_index_in_range};

verus! {

/// A grid of booleans. In a foreground mask `true` marks foreground and
/// `false` background.
#[derive(Debug)]
pub struct Mask {
    width: usize,
    height: usize,
    cells: Vec<bool>,
}

impl View for Mask {
    type V = Grid<bool>;

    closed spec fn view(&self) -> Grid<bool> {
        Grid { width: self.width as nat, height: self.height as nat, cells: self.cells@ }
    }
}

impl Clone for Mask {
    fn clone(&self) -> (copy: Self)
        ensures
            copy@ == self@,
    {
        proof {
            use_type_invariant(self);
        }
        let cells = self.cells.clone();
        assert(cells@ =~= self.cells@);
        Mask { width: self.width, height: self.height, cells }
    }
}

impl Mask {
    /// Every mask holds one boolean per cell.
    #[verifier::type_invariant]
    pub open spec fn well_formed(&self) -> bool {
        self@.wf()
    }

    /// A mask of the given size with every cell set to `value`.
    pub fn filled(width: usize, height: usize, value: bool) -> (mask: Mask)
        requires
            width * height <= usize::MAX,
        ensures
            mask@ == Grid::from_fn(width as nat, height as nat, |x: int, y: int| value),
    {
        let n: usize = width * height;
        let cells = vec![value; n];
        let mask = Mask { width, height, cells };
        proof {
            assert(mask@.cells =~= Grid::from_fn(
                width as nat,
                height as nat,
                |x: int, y: int| value,
            ).cells);
        }
        mask
    }

    /// Number of cells in the mask.
    pub fn area(&self) -> (n: usize)
        ensures
            n == self@.width * self@.height,
            self@.wf(),
    {
        proof {
            use_type_invariant(self);
        }
        self.cells.len()
    }

    pub fn width(&self) -> (w: usize)
        ensures
            w == self@.width,
    {
        self.width
    }

    pub fn height(&self) -> (h: usize)
        ensures
            h == self@.height,
    {
        self.height
    }

    /// The value of cell `(x, y)`.
    pub fn get(&self, x: usize, y: usize) -> (value: bool)
        requires
            self@.contains(x as int, y as int),
        ensures
            value == self@.at(x as int, y as int),
    {
        proof {
            use_type_invariant(self);
            lemma_index_in_range(self.width as nat, self.height as nat, x as int, y as int);
            assert(self.width * self.height == self.cells.len());
        }
        self.cells[y * self.width + x]
    }

    /// Overwrites cell `(x, y)`, leaving every other cell as it was.
    pub fn set(&mut self, x: usize, y: usize, value: bool)
        requires
            old(self)@.contains(x as int, y as int),
        ensures
            final(self)@ == old(self)@.updated(x as int, y as int, value),
    {
        proof {
            use_type_invariant(&*self);
            lemma_index_in_range(self.width as nat, self.height as nat, x as int, y as int);
            assert(self.width * self.height == self.cells.len());
        }
        let idx: usize = y * self.width + x;
        self.cells[idx] = value;
    }
}

} // verus!
