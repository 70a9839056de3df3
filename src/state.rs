use vstd::prelude::*;

verus! {

/// Number of cells on a freshly created tape.
pub const INITIAL_CELLS: usize = 30000;

/// Index of the cell the pointer starts on (the centre of a fresh tape).
pub const START_INDEX: usize = 15000;

/// Number of zero cells appended when the pointer moves past the right edge.
pub const EXTENSION: usize = 5000;

/// Mathematical picture of a tape: the cell values and the pointer.
pub ghost struct TapeView {
    pub cells: Seq<u8>,
    pub ptr: int,
}

/// `v + 1` with wraparound from 255 to 0.
pub open spec fn wrap_incr(v: u8) -> u8 {
    if v == 255 {
        0
    } else {
        (v + 1) as u8
    }
}

/// `v - 1` with wraparound from 0 to 255.
pub open spec fn wrap_decr(v: u8) -> u8 {
    if v == 0 {
        255
    } else {
        (v - 1) as u8
    }
}

impl TapeView {
    /// The pointer designates a cell, and the length fits a machine index.
    pub open spec fn wf(self) -> bool {
        &&& 0 <= self.ptr < self.cells.len()
        &&& self.cells.len() <= usize::MAX
    }

    /// The tape every session starts with.
    pub open spec fn initial() -> TapeView {
        TapeView { cells: Seq::new(INITIAL_CELLS as nat, |i: int| 0u8), ptr: START_INDEX as int }
    }

    pub open spec fn current(self) -> u8 {
        self.cells[self.ptr]
    }

    pub open spec fn write(self, v: u8) -> TapeView {
        TapeView { cells: self.cells.update(self.ptr, v), ..self }
    }

    pub open spec fn incr(self) -> TapeView {
        self.write(wrap_incr(self.current()))
    }

    pub open spec fn decr(self) -> TapeView {
        self.write(wrap_decr(self.current()))
    }

    /// The pointer stands on the last allocated cell.
    pub open spec fn at_right_edge(self) -> bool {
        self.ptr + 1 == self.cells.len()
    }

    /// Moving right is possible unless the tape would have to grow beyond
    /// what a machine index can address.
    pub open spec fn can_move_right(self) -> bool {
        !self.at_right_edge() || self.cells.len() + EXTENSION <= usize::MAX
    }

    /// Move one cell right, first appending zero cells when at the right edge.
    pub open spec fn right(self) -> TapeView {
        let cells = if self.at_right_edge() {
            self.cells + Seq::new(EXTENSION as nat, |i: int| 0u8)
        } else {
            self.cells
        };
        TapeView { cells, ptr: self.ptr + 1 }
    }

    pub open spec fn left(self) -> TapeView {
        TapeView { ptr: self.ptr - 1, ..self }
    }
}

/// The tape after `n` increments of the current cell.
pub open spec fn incr_times(t: TapeView, n: nat) -> TapeView
    decreases n,
{
    if n == 0 {
        t
    } else {
        incr_times(t, (n - 1) as nat).incr()
    }
}

/// The tape after `n` decrements of the current cell.
pub open spec fn decr_times(t: TapeView, n: nat) -> TapeView
    decreases n,
{
    if n == 0 {
        t
    } else {
        decr_times(t, (n - 1) as nat).decr()
    }
}

proof fn lemma_incr_times(t: TapeView, n: nat)
    requires
        t.wf(),
    ensures
        incr_times(t, n) == t.write(((t.current() + n) % 256) as u8),
    decreases n,
{
    if n == 0 {
        assert(t.write(t.current()).cells =~= t.cells);
    } else {
        lemma_incr_times(t, (n - 1) as nat);
        let p = incr_times(t, (n - 1) as nat);
        assert(p.incr().cells =~= t.write(((t.current() + n) % 256) as u8).cells);
    }
}

proof fn lemma_decr_times(t: TapeView, n: nat)
    requires
        t.wf(),
    ensures
        decr_times(t, n) == t.write(((t.current() - n) % 256) as u8),
    decreases n,
{
    if n == 0 {
        assert(t.write(t.current()).cells =~= t.cells);
    } else {
        lemma_decr_times(t, (n - 1) as nat);
        let p = decr_times(t, (n - 1) as nat);
        assert(p.decr().cells =~= t.write(((t.current() - n) % 256) as u8).cells);
    }
}

/// Incrementing a cell 256 times, or decrementing it 256 times, gives back the
/// tape it started from: cell arithmetic wraps around modulo 256.
pub proof fn lemma_wraparound(t: TapeView)
    requires
        t.wf(),
    ensures
        incr_times(t, 256) == t,
        decr_times(t, 256) == t,
{
    lemma_incr_times(t, 256);
    lemma_decr_times(t, 256);
    assert(t.write(t.current()).cells =~= t.cells);
}

/// Moving right from the last allocated cell appends exactly `EXTENSION`
/// cells, all zero, keeps every earlier cell, and lands on the first new one.
pub proof fn lemma_right_edge_growth(t: TapeView)
    requires
        t.wf(),
        t.at_right_edge(),
    ensures
        t.right().cells.len() == t.cells.len() + EXTENSION,
        t.right().cells.subrange(0, t.cells.len() as int) == t.cells,
        forall|i: int|
            t.cells.len() <= i < t.right().cells.len() ==> #[trigger] t.right().cells[i] == 0,
        t.right().ptr == t.cells.len(),
{
    assert(t.right().cells.subrange(0, t.cells.len() as int) =~= t.cells);
}

/// The tape: byte cells, extended to the right on demand, and the pointer.
pub struct BFState {
    data: Vec<u8>,
    idx: usize,
}

impl View for BFState {
    type V = TapeView;

    closed spec fn view(&self) -> TapeView {
        TapeView { cells: self.data@, ptr: self.idx as int }
    }
}

impl BFState {
    /// A tape of `INITIAL_CELLS` zero cells with the pointer at `START_INDEX`.
    pub fn new() -> (r: BFState)
        ensures
            r@ == TapeView::initial(),
            r@.wf(),
    {
        let data: Vec<u8> = vec![0u8; INITIAL_CELLS];
        let r = BFState { data, idx: START_INDEX };
        assert(r@.cells =~= TapeView::initial().cells);
        r
    }

    /// Index of the cell under the pointer.
    pub fn index(&self) -> (r: usize)
        ensures
            r == self@.ptr,
    {
        self.idx
    }

    /// Number of cells allocated so far.
    pub fn len(&self) -> (r: usize)
        ensures
            r == self@.cells.len(),
    {
        self.data.len()
    }

    /// The value of cell `i`.
    pub fn cell(&self, i: usize) -> (r: u8)
        requires
            i < self@.cells.len(),
        ensures
            r == self@.cells[i as int],
    {
        self.data[i]
    }

    /// Move the pointer one cell right. At the right edge the tape first grows
    /// by `EXTENSION` zero cells.
    pub fn up(&mut self)
        requires
            old(self)@.wf(),
            old(self)@.can_move_right(),
        ensures
            final(self)@ == old(self)@.right(),
            final(self)@.wf(),
    {
        if self.idx + 1 == self.data.len() {
            let mut more: Vec<u8> = vec![0u8; EXTENSION];
            self.data.append(&mut more);
        }
        self.idx = self.idx + 1;
        assert(self@.cells =~= old(self)@.right().cells);
    }

    /// Move the pointer one cell left. There is no cell left of index 0, so the
    /// pointer must not be there.
    pub fn down(&mut self)
        requires
            old(self)@.wf(),
            old(self)@.ptr > 0,
        ensures
            final(self)@ == old(self)@.left(),
            final(self)@.wf(),
    {
        self.idx = self.idx - 1;
    }

    /// Add one to the current cell, wrapping from 255 to 0.
    pub fn incr(&mut self)
        requires
            old(self)@.wf(),
        ensures
            final(self)@ == old(self)@.incr(),
    {
        let v = self.data[self.idx];
        self.data.set(self.idx, v.wrapping_add(1));
    }

    /// Subtract one from the current cell, wrapping from 0 to 255.
    pub fn decr(&mut self)
        requires
            old(self)@.wf(),
        ensures
            final(self)@ == old(self)@.decr(),
    {
        let v = self.data[self.idx];
        self.data.set(self.idx, v.wrapping_sub(1));
    }

    /// The value of the current cell.
    pub fn out(&self) -> (r: u8)
        requires
            self@.wf(),
        ensures
            r == self@.current(),
    {
        self.data[self.idx]
    }

    /// Overwrite the current cell with `inp`.
    pub fn inp(&mut self, inp: u8)
        requires
            old(self)@.wf(),
        ensures
            final(self)@ == old(self)@.write(inp),
    {
        self.data.set(self.idx, inp);
    }

    /// Whether the current cell holds 0: the guard of every loop.
    pub fn is_zero(&self) -> (r: bool)
        requires
            self@.wf(),
        ensures
            r == (self@.current() == 0),
    {
        self.data[self.idx] == 0
    }
}

} // verus!
