//! The per-sample state machine: delay line, read heads and bypass.
//!
//! For each input sample the processor either passes it through or writes it
//! to the delay line, reads the two taps and moves the heads on. What it
//! hands back for an active sample is the input with its two taps; the caller
//! mixes them, shapes the mixture and adds the dry signal.

use vstd::prelude::*;
use crate::delay_line::{lemma_write_all_shape, DelayLine, Ring, MAX_LENGTH};
use crate::params::EvenPogParams;
use crate::read_heads::{
    lemma_advance_stays_in_ring, magnitude, next_rate, Heads, ReadHeadScheduler, RATE_MODULUS,
};

verus! {

/// An input sample with the two delayed samples read for it.
#[derive(Clone, Copy, Debug, PartialEq, Eq)]
pub struct Taps {
    /// The sample that came in.
    pub input: u32,
    /// The sample under the slur head.
    pub slur: u32,
    /// The sample under the honk head.
    pub hfj: u32,
}

/// What the processor decided for one input sample.
#[derive(Clone, Copy, Debug, PartialEq, Eq)]
pub enum Outcome {
    /// Bypassed: the output sample is this one, which is the input.
    Dry(u32),
    /// Active: the output sample is to be shaped from these taps.
    Wet(Taps),
}

/// The mathematical content of an [`EvenPog`].
pub struct State {
    /// The delay line.
    pub ring: Ring,
    /// The read heads.
    pub heads: Heads,
}

impl State {
    /// The delay line has the effect's capacity, and ring and heads are well
    /// formed.
    pub open spec fn wf(self) -> bool {
        &&& self.ring.wf()
        &&& self.ring.cells.len() == MAX_LENGTH
        &&& self.heads.wf()
    }

    /// The state in which an effect starts: a silent delay line with all
    /// cells active, both heads at cell 0, the honk head at rest.
    pub open spec fn initial() -> State {
        State {
            ring: Ring {
                cells: Seq::new(MAX_LENGTH as nat, |i: int| 0u32),
                active_length: MAX_LENGTH as nat,
                write_count: 0,
            },
            heads: Heads { slur: 0, hfj: 0, rate: 0 },
        }
    }

    /// One sample of active processing: the delay line takes the length that
    /// the parameters ask for, the input is written, both heads read at
    /// their positions modulo that length, and then the heads move on.
    pub open spec fn active_step(self, params: EvenPogParams, input: u32) -> (State, Taps) {
        let length = params.buffer_length as nat;
        let ring = self.ring.resize(length).write(input);
        let taps = Taps {
            input,
            slur: ring.cells[self.heads.slur_index(length) as int],
            hfj: ring.cells[self.heads.hfj_index(length) as int],
        };
        let heads = self.heads.advance(
            length,
            params.slur_multiplier,
            params.buffer_acceleration as int,
        );
        (State { ring, heads }, taps)
    }

    /// One sample: untouched state and the input itself where the parameters
    /// say bypass, an active step otherwise.
    pub open spec fn step(self, params: EvenPogParams, input: u32) -> (State, Outcome) {
        if params.bypass {
            (self, Outcome::Dry(input))
        } else {
            let (next, taps) = self.active_step(params, input);
            (next, Outcome::Wet(taps))
        }
    }

    /// A block of samples under one reading of the parameters.
    pub open spec fn run(self, params: EvenPogParams, block: Seq<u32>) -> (State, Seq<Outcome>)
        decreases block.len(),
    {
        if block.len() == 0 {
            (self, Seq::empty())
        } else {
            let (before, outcomes) = self.run(params, block.drop_last());
            let (after, outcome) = before.step(params, block.last());
            (after, outcomes.push(outcome))
        }
    }
}

/// An active step keeps a state well formed, whatever the sample and the
/// other parameters, and leaves both heads inside the ring: below the length
/// that the step was made with.
pub proof fn lemma_active_step_keeps_heads_in_ring(
    state: State,
    params: EvenPogParams,
    input: u32,
)
    requires
        state.wf(),
        params.length_in_range(),
    ensures
        state.active_step(params, input).0.wf(),
        state.active_step(params, input).0.heads.slur < params.buffer_length,
        state.active_step(params, input).0.heads.hfj < params.buffer_length,
        state.active_step(params, input).0.ring.active_length == params.buffer_length,
        state.active_step(params, input).0.ring.write_count == state.ring.write_count + 1,
{
    let length = params.buffer_length as nat;
    lemma_advance_stays_in_ring(
        state.heads,
        length,
        params.slur_multiplier,
        params.buffer_acceleration as int,
    );
    vstd::arithmetic::div_mod::lemma_mod_bound(state.ring.write_count as int, length as int);
}

/// The honk rate after an active step is the absolute value of the old rate
/// plus the acceleration, modulo 22050.
pub proof fn lemma_rate_recurrence(state: State, params: EvenPogParams, input: u32)
    ensures
        state.active_step(params, input).0.heads.rate == next_rate(
            state.heads.rate,
            params.buffer_acceleration as int,
        ),
        state.active_step(params, input).0.heads.rate < RATE_MODULUS,
{
    vstd::arithmetic::div_mod::lemma_mod_bound(
        magnitude(state.heads.rate + params.buffer_acceleration) as int,
        RATE_MODULUS as int,
    );
}

/// Under bypass a block leaves the state as it was and comes out as it went
/// in, sample for sample.
pub proof fn lemma_bypass_is_identity(state: State, params: EvenPogParams, block: Seq<u32>)
    requires
        params.bypass,
    ensures
        state.run(params, block).0 == state,
        state.run(params, block).1 == block.map_values(|x: u32| Outcome::Dry(x)),
    decreases block.len(),
{
    if block.len() > 0 {
        lemma_bypass_is_identity(state, params, block.drop_last());
    }
    assert(state.run(params, block).1 =~= block.map_values(|x: u32| Outcome::Dry(x)));
}

/// A block gives one outcome per sample, and an active block keeps a state
/// well formed and adds the block's length to the write count.
pub proof fn lemma_run_shape(state: State, params: EvenPogParams, block: Seq<u32>)
    requires
        state.wf(),
        !params.bypass ==> params.length_in_range(),
    ensures
        state.run(params, block).0.wf(),
        state.run(params, block).1.len() == block.len(),
        !params.bypass ==> state.run(params, block).0.ring.write_count == state.ring.write_count
            + block.len(),
    decreases block.len(),
{
    if block.len() > 0 {
        lemma_run_shape(state, params, block.drop_last());
        if !params.bypass {
            lemma_active_step_keeps_heads_in_ring(
                state.run(params, block.drop_last()).0,
                params,
                block.last(),
            );
        }
    }
}

/// The delay line after an active block is the one that results from
/// setting the length and writing the block's samples in order.
pub proof fn lemma_run_writes_block(state: State, params: EvenPogParams, block: Seq<u32>)
    requires
        state.wf(),
        !params.bypass,
        params.length_in_range(),
        block.len() > 0,
    ensures
        state.run(params, block).0.ring == state.ring.resize(
            params.buffer_length as nat,
        ).write_all(block),
    decreases block.len(),
{
    let length = params.buffer_length as nat;
    let earlier = block.drop_last();
    if earlier.len() > 0 {
        lemma_run_writes_block(state, params, earlier);
        lemma_write_all_shape(state.ring.resize(length), earlier);
        let before = state.run(params, earlier).0.ring;
        assert(before.resize(length) == before);
    } else {
        assert(state.run(params, earlier).0 == state);
        assert(state.ring.resize(length).write_all(earlier) == state.ring.resize(length));
    }
}

/// Cutting a block in two changes nothing: running the first part and then
/// the second gives the state and the outcomes of running the whole.
pub proof fn lemma_run_in_parts(
    state: State,
    params: EvenPogParams,
    first: Seq<u32>,
    second: Seq<u32>,
)
    ensures
        state.run(params, first + second).0 == state.run(params, first).0.run(params, second).0,
        state.run(params, first + second).1 == state.run(params, first).1 + state.run(
            params,
            first,
        ).0.run(params, second).1,
    decreases second.len(),
{
    let middle = state.run(params, first);
    if second.len() == 0 {
        assert(first + second == first);
        assert(middle.1 + Seq::<Outcome>::empty() == middle.1);
    } else {
        lemma_run_in_parts(state, params, first, second.drop_last());
        assert((first + second).drop_last() == first + second.drop_last());
        assert((first + second).last() == second.last());
        let rest = middle.0.run(params, second.drop_last());
        let outcome = rest.0.step(params, second.last()).1;
        assert((middle.1 + rest.1).push(outcome) == middle.1 + rest.1.push(outcome));
    }
}

/// One instance of the effect: a delay line of 16384 cells and its two read
/// heads.
pub struct EvenPog {
    delay: DelayLine,
    heads: ReadHeadScheduler,
}

impl View for EvenPog {
    type V = State;

    closed spec fn view(&self) -> State {
        State { ring: self.delay@, heads: self.heads@ }
    }
}

impl EvenPog {
    /// Well-formedness: that of the state it holds.
    pub open spec fn wf(&self) -> bool {
        self@.wf()
    }

    /// An effect in its initial state.
    pub fn new() -> (effect: EvenPog)
        ensures
            effect.wf(),
            effect@ == State::initial(),
    {
        EvenPog { delay: DelayLine::new(MAX_LENGTH), heads: ReadHeadScheduler::new() }
    }

    /// Number of samples written to the delay line so far.
    pub fn write_count(&self) -> (n: u64)
        ensures
            n == self@.ring.write_count,
    {
        self.delay.write_count()
    }

    /// Logical length that the delay line has now.
    pub fn active_length(&self) -> (n: usize)
        ensures
            n == self@.ring.active_length,
    {
        self.delay.active_length()
    }

    /// Position of the slur head.
    pub fn slur_position(&self) -> (p: usize)
        ensures
            p == self@.heads.slur,
    {
        self.heads.slur_position()
    }

    /// Position of the honk head.
    pub fn hfj_position(&self) -> (p: usize)
        ensures
            p == self@.heads.hfj,
    {
        self.heads.hfj_position()
    }

    /// Rate of the honk head.
    pub fn hfj_rate(&self) -> (r: u32)
        ensures
            r == self@.heads.rate,
    {
        self.heads.hfj_rate()
    }

    /// Processes one sample.
    ///
    /// Under bypass nothing changes and the sample comes back as
    /// [`Outcome::Dry`]. Otherwise the sample is written to the delay line at
    /// the length the parameters give, the taps are read, the heads move on,
    /// and the taps come back as [`Outcome::Wet`].
    pub fn step(&mut self, params: &EvenPogParams, input: u32) -> (outcome: Outcome)
        requires
            old(self).wf(),
            !params.bypass ==> params.length_in_range(),
            !params.bypass ==> old(self)@.ring.write_count < u64::MAX,
        ensures
            final(self).wf(),
            (final(self)@, outcome) == old(self)@.step(*params, input),
            params.bypass ==> final(self)@ == old(self)@ && outcome == Outcome::Dry(input),
            !params.bypass ==> final(self)@.heads.slur < params.buffer_length,
            !params.bypass ==> final(self)@.heads.hfj < params.buffer_length,
            !params.bypass ==> final(self)@.heads.rate == next_rate(
                old(self)@.heads.rate,
                params.buffer_acceleration as int,
            ),
    {
        if params.bypass {
            return Outcome::Dry(input);
        }
        proof {
            lemma_active_step_keeps_heads_in_ring(self@, *params, input);
        }
        let length: usize = params.buffer_length as usize;
        self.delay.set_active_length(length);
        self.delay.write(input);
        let slur = self.delay.read(self.heads.slur_index(length));
        let hfj = self.delay.read(self.heads.hfj_index(length));
        self.heads.advance(length, params.slur_multiplier, params.buffer_acceleration);
        Outcome::Wet(Taps { input, slur, hfj })
    }

    /// Processes a block of samples under one reading of the parameters, and
    /// so under one bypass decision for the whole block.
    pub fn process_block(&mut self, params: &EvenPogParams, block: &[u32]) -> (outcomes: Vec<
        Outcome,
    >)
        requires
            old(self).wf(),
            !params.bypass ==> params.length_in_range(),
            !params.bypass ==> old(self)@.ring.write_count + block.len() <= u64::MAX,
        ensures
            final(self).wf(),
            (final(self)@, outcomes@) == old(self)@.run(*params, block@),
            outcomes.len() == block.len(),
            params.bypass ==> final(self)@ == old(self)@,
            params.bypass ==> forall|i: int|
                0 <= i < block.len() ==> outcomes[i] == Outcome::Dry(block[i]),
    {
        let mut outcomes: Vec<Outcome> = Vec::new();
        let mut i: usize = 0;
        while i < block.len()
            invariant
                i <= block.len(),
                self.wf(),
                !params.bypass ==> params.length_in_range(),
                !params.bypass ==> old(self)@.ring.write_count + block.len() <= u64::MAX,
                !params.bypass ==> self@.ring.write_count == old(self)@.ring.write_count + i,
                (self@, outcomes@) == old(self)@.run(*params, block@.take(i as int)),
                outcomes.len() == i,
            decreases block.len() - i,
        {
            let ghost before = self@;
            let outcome = self.step(params, block[i]);
            outcomes.push(outcome);
            proof {
                let prefix = block@.take(i + 1);
                assert(prefix.drop_last() == block@.take(i as int));
                assert(prefix.last() == block@[i as int]);
                if !params.bypass {
                    lemma_active_step_keeps_heads_in_ring(before, *params, block@[i as int]);
                }
            }
            i = i + 1;
        }
        proof {
            assert(block@.take(block.len() as int) == block@);
            if params.bypass {
                lemma_bypass_is_identity(old(self)@, *params, block@);
            }
        }
        outcomes
    }
}

impl Default for EvenPog {
    fn default() -> (effect: EvenPog)
        ensures
            effect.wf(),
            effect@ == State::initial(),
    {
        EvenPog::new()
    }
}

} // verus!
