//! The cost model: a square table of pairwise costs and the width of the
//! margin inside which positions are exempt.

use vstd::prelude::*;

verus! {

/// The margin width that the optimizer is run with.
pub const BLOCK_SIZE: usize = 4;

/// Every row is as long as the table has rows.
pub open spec fn is_square(costs: Seq<Seq<u32>>) -> bool {
    forall|r: int| 0 <= r < costs.len() ==> (#[trigger] costs[r]).len() == costs.len()
}

/// The rows of a table as a sequence of sequences.
pub open spec fn rows_view(rows: Seq<Vec<u32>>) -> Seq<Seq<u32>> {
    Seq::new(rows.len(), |r: int| rows[r]@)
}

/// Why a table of costs was turned down.
#[derive(Debug, Clone, Copy, PartialEq, Eq)]
pub enum ModelError {
    /// Some row is not as long as the table has rows.
    InvalidMatrix,
}

/// A square table of costs between items, with the margin width that both the
/// cost of an order and the change of cost under a swap are computed with.
pub struct CostModel {
    rows: Vec<Vec<u32>>,
    block: usize,
}

impl CostModel {
    /// The table: `costs()[a][b]` is the cost charged to item `a` for item `b`.
    pub closed spec fn costs(&self) -> Seq<Seq<u32>> {
        rows_view(self.rows@)
    }

    /// The margin width.
    pub closed spec fn block(&self) -> nat {
        self.block as nat
    }

    /// The number of items.
    pub open spec fn dim(&self) -> nat {
        self.costs().len()
    }

    /// What holds of every model: its table is square.
    #[verifier::type_invariant]
    pub open spec fn well_formed(&self) -> bool {
        is_square(self.costs())
    }

    /// Builds the model, or turns the table down if it is not square.
    pub fn new(rows: Vec<Vec<u32>>, block: usize) -> (res: Result<CostModel, ModelError>)
        ensures
            res is Ok <==> is_square(rows_view(rows@)),
            res matches Ok(model) ==> model.costs() == rows_view(rows@) && model.block() == block,
            res matches Err(e) ==> e == ModelError::InvalidMatrix,
    {
        let n = rows.len();
        let mut r: usize = 0;
        while r < n
            invariant
                r <= n,
                n == rows@.len(),
                forall|q: int| 0 <= q < r ==> (#[trigger] rows_view(rows@)[q]).len() == n,
            decreases n - r,
        {
            if rows[r].len() != n {
                assert(rows_view(rows@)[r as int].len() != n);
                return Err(ModelError::InvalidMatrix);
            }
            r += 1;
        }
        Ok(CostModel { rows, block })
    }

    /// The number of items.
    pub fn size(&self) -> (n: usize)
        ensures
            n == self.dim(),
    {
        self.rows.len()
    }

    /// The margin width.
    pub fn block_size(&self) -> (b: usize)
        ensures
            b == self.block(),
    {
        self.block
    }

    /// The cost charged to item `from` for item `to`.
    pub fn cost(&self, from: u16, to: u16) -> (c: u32)
        requires
            from < self.dim(),
            to < self.dim(),
        ensures
            c == self.costs()[from as int][to as int],
    {
        proof {
            use_type_invariant(self);
            assert(self.costs()[from as int].len() == self.dim());
        }
        self.rows[from as usize][to as usize]
    }
}

} // verus!
