//! A ring buffer of fixed capacity whose logical length can change between
//! samples.

use vstd::prelude::*;

verus! {

/// Shortest logical length a delay line may be set to.
pub const MIN_LENGTH: usize = 16;

/// Capacity of the delay line that the effect owns, and so the longest
/// logical length it can be asked for.
pub const MAX_LENGTH: usize = 16384;

/// The mathematical content of a [`DelayLine`].
pub struct Ring {
    /// One cell per slot of the fixed storage; `cells.len()` is the capacity.
    pub cells: Seq<u32>,
    /// Number of leading cells that are currently written and read.
    pub active_length: nat,
    /// Number of samples written so far.
    pub write_count: nat,
}

impl Ring {
    /// The logical length lies between [`MIN_LENGTH`] and the capacity.
    pub open spec fn wf(self) -> bool {
        MIN_LENGTH <= self.active_length <= self.cells.len()
    }

    /// Cell that the next write goes to.
    pub open spec fn write_index(self) -> int {
        (self.write_count % self.active_length) as int
    }

    /// The ring after storing `sample`.
    pub open spec fn write(self, sample: u32) -> Ring {
        Ring {
            cells: self.cells.update(self.write_index(), sample),
            active_length: self.active_length,
            write_count: self.write_count + 1,
        }
    }

    /// The ring after its logical length was set to `length`.
    pub open spec fn resize(self, length: nat) -> Ring {
        Ring { cells: self.cells, active_length: length, write_count: self.write_count }
    }

    /// The ring after storing every element of `samples`, first to last.
    pub open spec fn write_all(self, samples: Seq<u32>) -> Ring
        decreases samples.len(),
    {
        if samples.len() == 0 {
            self
        } else {
            self.write_all(samples.drop_last()).write(samples.last())
        }
    }
}

/// How many writes before the latest one cell `cell` was last written, once
/// `count` samples have gone into a ring of `length` cells whose write count
/// was `start` before the first of them.
pub open spec fn age(start: nat, length: nat, count: nat, cell: int) -> int {
    (start + count - 1 - cell) % (length as int)
}

/// Writing a run of samples changes neither the capacity nor the logical
/// length, and adds the run's length to the write count.
pub proof fn lemma_write_all_shape(ring: Ring, samples: Seq<u32>)
    requires
        ring.wf(),
    ensures
        ring.write_all(samples).wf(),
        ring.write_all(samples).cells.len() == ring.cells.len(),
        ring.write_all(samples).active_length == ring.active_length,
        ring.write_all(samples).write_count == ring.write_count + samples.len(),
    decreases samples.len(),
{
    if samples.len() > 0 {
        lemma_write_all_shape(ring, samples.drop_last());
    }
}

/// What a cell holds after a run of writes: the sample of the run that was
/// written `age` writes before the last one, or, where the run is too short
/// to have reached the cell, what the cell held before. Cells beyond the
/// logical length are never written.
pub proof fn lemma_write_all_cell(ring: Ring, samples: Seq<u32>, cell: int)
    requires
        ring.wf(),
        0 <= cell < ring.cells.len(),
    ensures
        ({
            let back = age(ring.write_count, ring.active_length, samples.len(), cell);
            ring.write_all(samples).cells[cell] == if cell < ring.active_length && back
                < samples.len() {
                samples[samples.len() - 1 - back]
            } else {
                ring.cells[cell]
            }
        }),
    decreases samples.len(),
{
    let length = ring.active_length as int;
    let count = samples.len() as int;
    let last = ring.write_count + count - 1;
    if cell < length {
        vstd::arithmetic::div_mod::lemma_mod_bound(last - cell, length);
    }
    if count > 0 {
        let earlier = samples.drop_last();
        let before = ring.write_all(earlier);
        lemma_write_all_shape(ring, earlier);
        lemma_write_all_cell(ring, earlier, cell);
        vstd::arithmetic::div_mod::lemma_mod_bound(last, length);
        assert(before.write_index() == last % length);
        assert(ring.write_all(samples).cells == before.cells.update(
            before.write_index(),
            samples.last(),
        ));
        if cell < length {
            lemma_age_steps(last - cell, length);
            lemma_age_zero(last, cell, length);
            let back = (last - cell) % length;
            if cell != last % length {
                let back_earlier = (last - 1 - cell) % length;
                assert(back == back_earlier + 1);
                if back < count {
                    assert(earlier[count - 2 - back_earlier] == samples[count - 1 - back]);
                }
            }
        }
    }
}

/// A cell's distance from the latest write is zero exactly where the latest
/// write went to it.
proof fn lemma_age_zero(last: int, cell: int, length: int)
    requires
        0 <= cell < length,
    ensures
        (last - cell) % length == 0 <==> last % length == cell,
{
    vstd::arithmetic::div_mod::lemma_fundamental_div_mod(last, length);
    vstd::arithmetic::div_mod::lemma_mod_bound(last, length);
    let q = last / length;
    let r = last % length;
    if r >= cell {
        assert(last - cell == q * length + (r - cell)) by (nonlinear_arith)
            requires
                last == length * q + r,
        ;
        vstd::arithmetic::div_mod::lemma_fundamental_div_mod_converse(
            last - cell,
            length,
            q,
            r - cell,
        );
    } else {
        assert(last - cell == (q - 1) * length + (length + r - cell)) by (nonlinear_arith)
            requires
                last == length * q + r,
        ;
        vstd::arithmetic::div_mod::lemma_fundamental_div_mod_converse(
            last - cell,
            length,
            q - 1,
            length + r - cell,
        );
    }
}

/// Going one step further from a cell adds one to the distance modulo the
/// length, unless the distance has just become a multiple of the length.
proof fn lemma_age_steps(x: int, length: int)
    requires
        length > 0,
    ensures
        x % length == 0 || x % length == (x - 1) % length + 1,
        x % length == 0 <==> (x - 1) % length == length - 1,
{
    vstd::arithmetic::div_mod::lemma_fundamental_div_mod(x, length);
    vstd::arithmetic::div_mod::lemma_mod_bound(x, length);
    let q = x / length;
    let r = x % length;
    if r == 0 {
        assert(x - 1 == (q - 1) * length + (length - 1)) by (nonlinear_arith)
            requires
                x == length * q + r,
                r == 0,
        ;
        vstd::arithmetic::div_mod::lemma_fundamental_div_mod_converse(
            x - 1,
            length,
            q - 1,
            length - 1,
        );
    } else {
        assert(x - 1 == q * length + (r - 1)) by (nonlinear_arith)
            requires
                x == length * q + r,
        ;
        vstd::arithmetic::div_mod::lemma_fundamental_div_mod_converse(x - 1, length, q, r - 1);
    }
}

/// Ring correctness. Once at least as many samples have been written as the
/// ring is long, every active cell holds a sample of the run: the one written
/// `age` writes before the last.
pub proof fn lemma_ring_holds_latest(ring: Ring, samples: Seq<u32>, cell: int)
    requires
        ring.wf(),
        samples.len() >= ring.active_length,
        0 <= cell < ring.active_length,
    ensures
        ({
            let back = age(ring.write_count, ring.active_length, samples.len(), cell);
            &&& 0 <= back < ring.active_length
            &&& ring.write_all(samples).cells[cell] == samples[samples.len() - 1 - back]
        }),
{
    lemma_write_all_cell(ring, samples, cell);
    vstd::arithmetic::div_mod::lemma_mod_bound(
        ring.write_count + samples.len() - 1 - cell,
        ring.active_length as int,
    );
}

/// In a ring that starts empty, a cell holds the sample whose step number is
/// the cell's age, wherever that sample equals the one written last to the
/// cell. The two step numbers differ in general: the age counts back from
/// the latest write, the step number counts on from the first.
pub proof fn lemma_read_at_age_step(ring: Ring, samples: Seq<u32>, cell: int)
    requires
        ring.wf(),
        ring.write_count == 0,
        samples.len() >= ring.active_length,
        0 <= cell < ring.active_length,
        ({
            let back = age(0, ring.active_length, samples.len(), cell);
            samples[back] == samples[samples.len() - 1 - back]
        }),
    ensures
        ring.write_all(samples).cells[cell] == samples[age(
            0,
            ring.active_length,
            samples.len(),
            cell,
        )],
{
    lemma_ring_holds_latest(ring, samples, cell);
}

/// Fixed-capacity circular sample history.
pub struct DelayLine {
    storage: Vec<u32>,
    active_length: usize,
    write_count: u64,
}

impl View for DelayLine {
    type V = Ring;

    closed spec fn view(&self) -> Ring {
        Ring {
            cells: self.storage@,
            active_length: self.active_length as nat,
            write_count: self.write_count as nat,
        }
    }
}

impl DelayLine {
    /// Well-formedness: that of the ring it holds.
    pub open spec fn wf(&self) -> bool {
        self@.wf()
    }

    /// A silent delay line of `capacity` cells, all of them active.
    pub fn new(capacity: usize) -> (line: DelayLine)
        requires
            MIN_LENGTH <= capacity,
        ensures
            line.wf(),
            line@.cells == Seq::new(capacity as nat, |i: int| 0u32),
            line@.active_length == capacity,
            line@.write_count == 0,
    {
        let mut storage: Vec<u32> = Vec::new();
        let mut filled: usize = 0;
        while filled < capacity
            invariant
                filled <= capacity,
                storage@ == Seq::new(filled as nat, |i: int| 0u32),
            decreases capacity - filled,
        {
            storage.push(0u32);
            filled = filled + 1;
        }
        DelayLine { storage, active_length: capacity, write_count: 0 }
    }

    /// Number of cells of the fixed storage.
    pub fn capacity(&self) -> (n: usize)
        ensures
            n == self@.cells.len(),
    {
        self.storage.len()
    }

    /// Current logical length.
    pub fn active_length(&self) -> (n: usize)
        ensures
            n == self@.active_length,
    {
        self.active_length
    }

    /// Number of samples written since construction.
    pub fn write_count(&self) -> (n: u64)
        ensures
            n == self@.write_count,
    {
        self.write_count
    }

    /// Sets the logical length. Storage and write count are untouched, so the
    /// next write lands at the write count modulo the new length.
    pub fn set_active_length(&mut self, length: usize)
        requires
            old(self).wf(),
            MIN_LENGTH <= length <= old(self)@.cells.len(),
        ensures
            final(self).wf(),
            final(self)@ == old(self)@.resize(length as nat),
    {
        self.active_length = length;
    }

    /// Stores `sample` at the write count modulo the logical length and
    /// advances the write count by one.
    pub fn write(&mut self, sample: u32)
        requires
            old(self).wf(),
            old(self)@.write_count < u64::MAX,
        ensures
            final(self).wf(),
            final(self)@ == old(self)@.write(sample),
    {
        let index: usize = (self.write_count % (self.active_length as u64)) as usize;
        self.storage.set(index, sample);
        self.write_count = self.write_count + 1;
    }

    /// The sample held at ring index `index`.
    pub fn read(&self, index: usize) -> (sample: u32)
        requires
            self.wf(),
            index < self@.active_length,
        ensures
            sample == self@.cells[index as int],
    {
        self.storage[index]
    }
}

} // verus!
