//! The orchestrator: feeds samples through both layers and gathers reports.

use vstd::prelude::*;

use crate::bits::{BitLayer, BitState};
use crate::clock::{Config, Input};
use crate::code::Symbol;
use crate::sequence::SeqLayer;

verus! {

/// One keyboard report: the modifier flags and one key (0 for none).
#[derive(Clone, Copy, Debug, PartialEq, Eq, Structural)]
pub struct Output {
    pub modifiers: u8,
    pub key: u8,
}

impl Default for Output {
    fn default() -> (r: Output)
        ensures
            r == empty_output(),
    {
        Output { modifiers: 0, key: 0 }
    }
}

/// The report with no modifier and no key.
pub open spec fn empty_output() -> Output {
    Output { modifiers: 0, key: 0 }
}

/// The pending report after a symbol, and the report emitted: modifiers
/// gather silently, a key completes the report, and anything else discards it.
pub open spec fn absorb(out: Output, symbol: Symbol) -> (Output, Option<Output>) {
    match symbol {
        Symbol::Modifier(x) => (Output { modifiers: out.modifiers | x, key: out.key }, None),
        Symbol::Key(x) => (empty_output(), Some(Output { modifiers: out.modifiers, key: x })),
        Symbol::Invalid | Symbol::Cancel => (empty_output(), None),
    }
}

/// The whole decoder.
pub struct State {
    pub bit: BitLayer,
    pub seq: SeqLayer,
    /// Report gathered so far.
    pub out: Output,
}

impl State {
    /// Both layers are well formed, and the pending report holds no key:
    /// a key always completes a report.
    pub open spec fn wf(self) -> bool {
        &&& self.bit.wf()
        &&& self.seq.wf()
        &&& self.out.key == 0
    }

    /// The decoder after one sample, and the report emitted.
    pub open spec fn spec_step(self, input: Input) -> (State, Option<Output>) {
        let (bit, emitted) = self.bit.spec_step(input);
        match emitted {
            None => (State { bit, seq: self.seq, out: self.out }, None),
            Some(b) => {
                let (seq, symbol) = self.seq.spec_step(b);
                match symbol {
                    None => (State { bit, seq, out: self.out }, None),
                    Some(s) => {
                        let (out, report) = absorb(self.out, s);
                        (State { bit, seq, out }, report)
                    },
                }
            },
        }
    }

    /// The decoder after a sequence of samples, and the reports emitted.
    pub open spec fn run(self, inputs: Seq<Input>) -> (State, Seq<Output>)
        decreases inputs.len(),
    {
        if inputs.len() == 0 {
            (self, seq![])
        } else {
            let (next, report) = self.spec_step(inputs[0]);
            let (last, reports) = next.run(inputs.drop_first());
            match report {
                Some(o) => (last, seq![o] + reports),
                None => (last, reports),
            }
        }
    }

    /// At rest: no phase in progress, no bit pending, no modifier gathered.
    pub open spec fn is_idle(self) -> bool {
        &&& self.bit.state == BitState::Ready
        &&& self.seq.state == 0
        &&& self.out == empty_output()
    }

    /// A decoder at rest.
    pub fn new(config: Config) -> (r: State)
        ensures
            r.bit == BitLayer::new_spec(config),
            r.seq.state == 0,
            r.out == empty_output(),
            r.wf(),
    {
        let bit = BitLayer::new(config);
        let seq = SeqLayer::new();
        State { bit, seq, out: Output::default() }
    }

    /// Feeds one sample through both layers; returns a report when a key
    /// completes one.
    pub fn step(&mut self, input: Input) -> (r: Option<Output>)
        requires
            old(self).wf(),
            input.timestamp <= old(self).bit.config.maximum,
        ensures
            (*final(self), r) == old(self).spec_step(input),
            final(self).wf(),
    {
        let bit = match self.bit.step(input) {
            Some(bit) => bit,
            None => return None,
        };
        let seq = match self.seq.step(bit) {
            Some(seq) => seq,
            None => return None,
        };
        match seq {
            Symbol::Modifier(x) => self.out.modifiers = self.out.modifiers | x,
            Symbol::Key(x) => {
                self.out.key = x;
                let out = self.out;
                self.out = Output::default();
                return Some(out);
            },
            Symbol::Invalid | Symbol::Cancel => self.out = Output::default(),
        };
        None
    }

    /// The phase of the timing layer, for feedback.
    pub fn bit_state(&self) -> (r: BitState)
        ensures
            r == self.bit.state,
    {
        self.bit.state
    }
}

/// Releasing in the Cancel phase with no bit pending emits nothing, clears
/// the modifiers gathered so far and returns the decoder to rest.
pub proof fn lemma_cancel_clears_modifiers(state: State, release: Input)
    requires
        state.bit.state == BitState::Cancel,
        state.seq.state == 0,
        !release.button,
    ensures
        state.spec_step(release).1 == Option::<Output>::None,
        state.spec_step(release).0.is_idle(),
{
}

/// From rest, the first sample sets both timestamps of the timing layer, so
/// what follows depends on the samples and the configuration alone.
proof fn lemma_idle_step(a: State, b: State, input: Input)
    requires
        a.is_idle(),
        b.is_idle(),
        a.bit.config == b.bit.config,
    ensures
        a.spec_step(input) == b.spec_step(input),
{
}

proof fn lemma_idle_run(a: State, b: State, inputs: Seq<Input>)
    requires
        a.is_idle(),
        b.is_idle(),
        a.bit.config == b.bit.config,
        inputs.len() > 0,
    ensures
        a.run(inputs) == b.run(inputs),
{
    lemma_idle_step(a, b, inputs[0]);
}

proof fn lemma_run_append(state: State, xs: Seq<Input>, ys: Seq<Input>)
    ensures
        state.run(xs + ys).0 == state.run(xs).0.run(ys).0,
        state.run(xs + ys).1 == state.run(xs).1 + state.run(xs).0.run(ys).1,
    decreases xs.len(),
{
    if xs.len() == 0 {
        assert(xs + ys =~= ys);
        assert(state.run(xs).1 + state.run(ys).1 =~= state.run(ys).1);
    } else {
        let (next, report) = state.spec_step(xs[0]);
        assert((xs + ys)[0] == xs[0]);
        assert((xs + ys).drop_first() =~= xs.drop_first() + ys);
        lemma_run_append(next, xs.drop_first(), ys);
        let mid = next.run(xs.drop_first());
        match report {
            Some(o) => {
                assert(seq![o] + (mid.1 + mid.0.run(ys).1) =~= (seq![o] + mid.1) + mid.0.run(ys).1);
            },
            None => {},
        }
    }
}

/// A cycle of samples that starts and ends at rest can be repeated: the
/// second run emits the same reports as the first and ends in the same
/// state, with nothing carried over from the first.
pub proof fn lemma_cycle_repeats(state: State, inputs: Seq<Input>)
    requires
        state.is_idle(),
        inputs.len() > 0,
        state.run(inputs).0.is_idle(),
    ensures
        state.run(inputs).0.run(inputs) == state.run(inputs),
        state.run(inputs + inputs).0 == state.run(inputs).0,
        state.run(inputs + inputs).1 == state.run(inputs).1 + state.run(inputs).1,
{
    let mid = state.run(inputs).0;
    lemma_config_kept(state, inputs);
    lemma_idle_run(mid, state, inputs);
    lemma_run_append(state, inputs, inputs);
}

proof fn lemma_config_kept(state: State, inputs: Seq<Input>)
    ensures
        state.run(inputs).0.bit.config == state.bit.config,
    decreases inputs.len(),
{
    if inputs.len() > 0 {
        lemma_config_kept(state.spec_step(inputs[0]).0, inputs.drop_first());
    }
}

} // verus!
