//! The memory tape: a fixed number of wrapping 8-bit cells on a ring, with a
//! cursor.
use vstd::prelude::*;

verus! {

/// Mathematical model of a tape: the cell values and the cursor position.
pub struct Tape {
    pub cells: Seq<u8>,
    pub cursor: int,
}

/// `v + 1` modulo 256.
pub open spec fn wrap_inc(v: u8) -> u8 {
    ((v as int + 1) % 256) as u8
}

/// `v - 1` modulo 256.
pub open spec fn wrap_dec(v: u8) -> u8 {
    ((v as int + 255) % 256) as u8
}

impl Tape {
    /// At least one cell, and the cursor on one of them.
    pub open spec fn valid(self) -> bool {
        &&& self.cells.len() >= 1
        &&& 0 <= self.cursor < self.cells.len()
    }

    /// `n` zero cells with the cursor on the first.
    pub open spec fn zeroed(n: nat) -> Tape {
        Tape { cells: Seq::new(n, |i: int| 0u8), cursor: 0 }
    }

    /// The same number of cells, all zero, cursor on the first.
    pub open spec fn cleared(self) -> Tape {
        Tape::zeroed(self.cells.len())
    }

    /// The value under the cursor.
    pub open spec fn read(self) -> u8 {
        self.cells[self.cursor]
    }

    /// The cell under the cursor set to `v`.
    pub open spec fn write(self, v: u8) -> Tape {
        Tape { cells: self.cells.update(self.cursor, v), cursor: self.cursor }
    }

    /// The cursor one cell to the right; from the last cell to the first.
    pub open spec fn advance(self) -> Tape {
        Tape {
            cells: self.cells,
            cursor: if self.cursor + 1 == self.cells.len() { 0 } else { self.cursor + 1 },
        }
    }

    /// The cursor one cell to the left; from the first cell to the last.
    pub open spec fn retreat(self) -> Tape {
        Tape {
            cells: self.cells,
            cursor: if self.cursor == 0 { self.cells.len() - 1 } else { self.cursor - 1 },
        }
    }

    /// The cell under the cursor incremented modulo 256.
    pub open spec fn increment(self) -> Tape {
        self.write(wrap_inc(self.read()))
    }

    /// The cell under the cursor decremented modulo 256.
    pub open spec fn decrement(self) -> Tape {
        self.write(wrap_dec(self.read()))
    }
}

impl Tape {
    /// The tape after `n` increments of the cell under the cursor.
    pub open spec fn increment_n(self, n: nat) -> Tape
        decreases n,
    {
        if n == 0 {
            self
        } else {
            self.increment_n((n - 1) as nat).increment()
        }
    }

    /// The tape after `n` decrements of the cell under the cursor.
    pub open spec fn decrement_n(self, n: nat) -> Tape
        decreases n,
    {
        if n == 0 {
            self
        } else {
            self.decrement().decrement_n((n - 1) as nat)
        }
    }
}

/// Clearing a tape in any state leaves zero under the cursor and the cursor
/// on the first cell; clearing it again changes nothing.
pub proof fn lemma_clear_resets(t: Tape)
    requires
        t.valid(),
    ensures
        t.cleared().valid(),
        t.cleared().read() == 0,
        t.cleared().cursor == 0,
        t.cleared().cleared() == t.cleared(),
{
}

/// Incrementing 255 gives 0 and decrementing 0 gives 255.
pub proof fn lemma_cell_wraps(t: Tape)
    requires
        t.valid(),
    ensures
        t.read() == 255 ==> t.increment().read() == 0,
        t.read() == 0 ==> t.decrement().read() == 255,
{
}

/// Incrementing the cell under the cursor `n` times, then decrementing it
/// `n` times, gives back the tape it started from; in particular a zero cell
/// is zero again.
pub proof fn lemma_increments_undone_by_decrements(t: Tape, n: nat)
    requires
        t.valid(),
    ensures
        t.increment_n(n).decrement_n(n) == t,
        t.read() == 0 ==> t.increment_n(n).decrement_n(n).read() == 0,
    decreases n,
{
    if n > 0 {
        let u = t.increment_n((n - 1) as nat);
        lemma_increment_n_keeps_cursor(t, (n - 1) as nat);
        assert(u.increment().decrement().cells =~= u.cells);
        lemma_increments_undone_by_decrements(t, (n - 1) as nat);
    }
}

proof fn lemma_increment_n_keeps_cursor(t: Tape, n: nat)
    requires
        t.valid(),
    ensures
        t.increment_n(n).valid(),
        t.increment_n(n).cursor == t.cursor,
        t.increment_n(n).cells.len() == t.cells.len(),
    decreases n,
{
    if n > 0 {
        lemma_increment_n_keeps_cursor(t, (n - 1) as nat);
    }
}

/// On a tape of `N` cells, advancing from the last cell reaches the first,
/// retreating from the first reaches the last, and advancing then
/// retreating (or retreating then advancing) returns to the same cell.
pub proof fn lemma_cursor_wraps(t: Tape)
    requires
        t.valid(),
    ensures
        t.cursor == t.cells.len() - 1 ==> t.advance().cursor == 0,
        t.cursor == 0 ==> t.retreat().cursor == t.cells.len() - 1,
        t.advance().retreat() == t,
        t.retreat().advance() == t,
{
}

/// A circular tape of wrapping 8-bit cells with a movable cursor.
pub struct Memory {
    cells: Vec<u8>,
    current_idx: usize,
}

impl View for Memory {
    type V = Tape;

    closed spec fn view(&self) -> Tape {
        Tape { cells: self.cells@, cursor: self.current_idx as int }
    }
}

impl Memory {
    /// The tape holds at least one cell and the cursor is on one of them.
    pub open spec fn wf(&self) -> bool {
        self@.valid()
    }

    /// A tape of `size` cells, all zero, with the cursor on the first.
    pub fn new(size: usize) -> (r: Memory)
        requires
            size >= 1,
        ensures
            r.wf(),
            r@ == Tape::zeroed(size as nat),
    {
        let mut cells: Vec<u8> = Vec::new();
        let mut i: usize = 0;
        while i < size
            invariant
                i <= size,
                cells@ == Seq::new(i as nat, |k: int| 0u8),
            decreases size - i,
        {
            cells.push(0);
            i += 1;
        }
        Memory { cells, current_idx: 0 }
    }

    /// Sets every cell to zero and puts the cursor on the first cell.
    pub fn clear(&mut self)
        requires
            old(self).wf(),
        ensures
            final(self).wf(),
            final(self)@ == old(self)@.cleared(),
    {
        let n = self.cells.len();
        let mut i: usize = 0;
        while i < n
            invariant
                n == self.cells.len(),
                i <= n,
                forall|k: int| 0 <= k < i ==> self.cells@[k] == 0u8,
            decreases n - i,
        {
            self.cells.set(i, 0);
            i += 1;
        }
        self.current_idx = 0;
        assert(self.cells@ =~= Seq::new(n as nat, |k: int| 0u8));
    }

    /// The value of the cell under the cursor.
    pub fn read(&self) -> (r: u8)
        requires
            self.wf(),
        ensures
            r == self@.read(),
    {
        self.cells[self.current_idx]
    }

    /// Stores `value` in the cell under the cursor.
    pub fn write(&mut self, value: u8)
        requires
            old(self).wf(),
        ensures
            final(self).wf(),
            final(self)@ == old(self)@.write(value),
    {
        self.cells.set(self.current_idx, value);
    }

    /// Moves the cursor one cell to the right, from the last cell to the first.
    pub fn next(&mut self)
        requires
            old(self).wf(),
        ensures
            final(self).wf(),
            final(self)@ == old(self)@.advance(),
    {
        if self.current_idx == self.cells.len() - 1 {
            self.current_idx = 0;
        } else {
            self.current_idx += 1;
        }
    }

    /// Moves the cursor one cell to the left, from the first cell to the last.
    pub fn previous(&mut self)
        requires
            old(self).wf(),
        ensures
            final(self).wf(),
            final(self)@ == old(self)@.retreat(),
    {
        if self.current_idx == 0 {
            self.current_idx = self.cells.len();
        }
        self.current_idx -= 1;
    }

    /// Adds one to the cell under the cursor; 255 becomes 0.
    pub fn increment(&mut self)
        requires
            old(self).wf(),
        ensures
            final(self).wf(),
            final(self)@ == old(self)@.increment(),
    {
        let v = self.cells[self.current_idx];
        let w: u8 = if v == 255 { 0 } else { v + 1 };
        self.cells.set(self.current_idx, w);
    }

    /// Subtracts one from the cell under the cursor; 0 becomes 255.
    pub fn decrement(&mut self)
        requires
            old(self).wf(),
        ensures
            final(self).wf(),
            final(self)@ == old(self)@.decrement(),
    {
        let v = self.cells[self.current_idx];
        let w: u8 = if v == 0 { 255 } else { v - 1 };
        self.cells.set(self.current_idx, w);
    }
}

} // verus!
