use vstd::prelude::*;
use vstd::arithmetic::div_mod::lemma_fundamental_div_mod;

verus! {

/// Where cell `(col, row)` of a grid `size` cells wide sits in row-major order.
pub open spec fn cell_index(size: int, col: int, row: int) -> int {
    row * size + col
}

/// A cell inside a `size` × `size` grid has a slot inside its storage.
pub proof fn lemma_cell_index_bounds(size: int, col: int, row: int)
    requires
        0 <= col < size,
        0 <= row < size,
    ensures
        0 <= cell_index(size, col, row) < size * size,
{
    assert(0 <= row * size + col < size * size) by (nonlinear_arith)
        requires
            0 <= col < size,
            0 <= row < size,
    ;
}

/// `after` is `before` with each particle replaced by a result of `step`
/// on that particle alone: no particle reads another's state.
pub open spec fn stepped<P, F: Fn(&P) -> P>(step: F, before: Seq<P>, after: Seq<P>) -> bool {
    &&& after.len() == before.len()
    &&& forall|i: int|
        0 <= i < before.len() ==> call_ensures(step, (&before[i],), #[trigger] after[i])
}

/// `step` has a single possible result for each particle.
pub open spec fn deterministic<P, F: Fn(&P) -> P>(step: F) -> bool {
    forall|p: P, a: P, b: P|
        #![trigger call_ensures(step, (&p,), a), call_ensures(step, (&p,), b)]
        call_ensures(step, (&p,), a) && call_ensures(step, (&p,), b) ==> a == b
}

/// Stepping one grid state twice with a deterministic step gives the same
/// particles both times.
pub proof fn lemma_step_deterministic<P, F: Fn(&P) -> P>(
    step: F,
    before: Seq<P>,
    first: Seq<P>,
    second: Seq<P>,
)
    requires
        deterministic(step),
        stepped(step, before, first),
        stepped(step, before, second),
    ensures
        first == second,
{
    assert forall|i: int| 0 <= i < first.len() implies first[i] == second[i] by {
        assert(call_ensures(step, (&before[i],), first[i]));
        assert(call_ensures(step, (&before[i],), second[i]));
    }
    assert(first =~= second);
}

/// A square grid of particles, kept row by row. Its side is fixed when it is
/// built: particles are changed in place, never added or taken away.
pub struct FlowGrid<P> {
    side: usize,
    cells: Vec<P>,
}

impl<P> View for FlowGrid<P> {
    type V = Seq<P>;

    /// The particles in row-major order.
    closed spec fn view(&self) -> Seq<P> {
        self.cells@
    }
}

impl<P> FlowGrid<P> {
    /// Number of particles along each axis.
    pub closed spec fn side_spec(&self) -> nat {
        self.side as nat
    }

    /// The grid holds exactly `side × side` particles.
    pub open spec fn wf(&self) -> bool {
        self@.len() == self.side_spec() * self.side_spec()
    }

    /// Builds a `size` × `size` grid whose particle at `(col, row)` is
    /// `make(col, row)`.
    pub fn build<F: Fn(usize, usize) -> P>(size: usize, make: F) -> (g: Self)
        requires
            size * size <= usize::MAX,
            forall|col: usize, row: usize|
                col < size && row < size ==> #[trigger] make.requires((col, row)),
        ensures
            g.wf(),
            g.side_spec() == size,
            forall|col: usize, row: usize|
                col < size && row < size ==> call_ensures(
                    make,
                    (col, row),
                    #[trigger] g@[cell_index(size as int, col as int, row as int)],
                ),
    {
        let mut cells: Vec<P> = Vec::new();
        let mut row: usize = 0;
        while row < size
            invariant
                row <= size,
                size * size <= usize::MAX,
                cells@.len() == row * size,
                forall|col: usize, row: usize|
                    col < size && row < size ==> #[trigger] make.requires((col, row)),
                forall|c: usize, r: usize|
                    c < size && r < row ==> call_ensures(
                        make,
                        (c, r),
                        #[trigger] cells@[cell_index(size as int, c as int, r as int)],
                    ),
            decreases size - row,
        {
            let mut col: usize = 0;
            while col < size
                invariant
                    row < size,
                    col <= size,
                    size * size <= usize::MAX,
                    cells@.len() == row * size + col,
                    forall|col: usize, row: usize|
                        col < size && row < size ==> #[trigger] make.requires((col, row)),
                    forall|c: usize, r: usize|
                        (c < size && r < row) || (c < col && r == row) ==> call_ensures(
                            make,
                            (c, r),
                            #[trigger] cells@[cell_index(size as int, c as int, r as int)],
                        ),
                decreases size - col,
            {
                let p = make(col, row);
                proof {
                    assert forall|c: usize, r: usize| (c < size && r < row) || (c < col && r == row)
                        implies cell_index(size as int, c as int, r as int) < cells@.len() by {
                        assert(r * size + c < row * size + col) by (nonlinear_arith)
                            requires
                                (c < size && r < row) || (c < col && r == row),
                        ;
                    }
                }
                cells.push(p);
                col = col + 1;
            }
            assert((row + 1) * size == row * size + size) by (nonlinear_arith);
            row = row + 1;
        }
        assert(cells@.len() == size * size) by (nonlinear_arith)
            requires
                cells@.len() == row * size,
                row == size,
        ;
        FlowGrid { side: size, cells }
    }

    /// Number of particles along each axis.
    pub fn side(&self) -> (r: usize)
        ensures
            r == self.side_spec(),
    {
        self.side
    }

    /// Number of particles in the grid.
    pub fn len(&self) -> (r: usize)
        ensures
            r == self@.len(),
    {
        self.cells.len()
    }

    /// The particle at `(col, row)`.
    pub fn get(&self, col: usize, row: usize) -> (r: &P)
        requires
            self.wf(),
            col < self.side_spec(),
            row < self.side_spec(),
        ensures
            *r == self@[cell_index(self.side_spec() as int, col as int, row as int)],
    {
        let n = self.cells.len();
        proof {
            lemma_cell_index_bounds(self.side as int, col as int, row as int);
            assert(row * self.side <= row * self.side + col);
            assert(row * self.side + col < n);
        }
        &self.cells[row * self.side + col]
    }

    /// The particle at position `i` of the row-major order.
    pub fn get_index(&self, i: usize) -> (r: &P)
        requires
            i < self@.len(),
        ensures
            *r == self@[i as int],
    {
        &self.cells[i]
    }

    /// The column and row of the particle at position `i` of the row-major
    /// order.
    pub fn cell_of(&self, i: usize) -> (r: (usize, usize))
        requires
            self.wf(),
            i < self@.len(),
        ensures
            r.0 < self.side_spec(),
            r.1 < self.side_spec(),
            cell_index(self.side_spec() as int, r.0 as int, r.1 as int) == i,
    {
        let s = self.side;
        proof {
            lemma_fundamental_div_mod(i as int, s as int);
            assert(i / s < s) by (nonlinear_arith)
                requires
                    i < s * s,
                    s > 0,
                    i == s * (i / s) + i % s,
                    i % s >= 0,
            ;
            assert((i / s) * s == s * (i / s)) by (nonlinear_arith);
        }
        (i % s, i / s)
    }

    /// Advances every particle by one step: each one is replaced by `step`
    /// applied to it alone. The side and the number of particles stay.
    pub fn update_each<F: Fn(&P) -> P>(&mut self, step: F)
        requires
            old(self).wf(),
            forall|i: int| 0 <= i < old(self)@.len() ==> #[trigger] step.requires((&old(self)@[i],)),
        ensures
            final(self).wf(),
            final(self).side_spec() == old(self).side_spec(),
            stepped(step, old(self)@, final(self)@),
    {
        let n = self.cells.len();
        let mut i: usize = 0;
        while i < n
            invariant
                i <= n,
                n == old(self)@.len(),
                self.side == old(self).side,
                self.cells@.len() == n,
                forall|j: int| 0 <= j < n ==> #[trigger] step.requires((&old(self)@[j],)),
                forall|j: int| 0 <= j < i ==> call_ensures(step, (&old(self)@[j],), #[trigger] self.cells@[j]),
                forall|j: int| i <= j < n ==> #[trigger] self.cells@[j] == old(self)@[j],
            decreases n - i,
        {
            let next = step(&self.cells[i]);
            self.cells.set(i, next);
            i = i + 1;
        }
    }
}

} // verus!
