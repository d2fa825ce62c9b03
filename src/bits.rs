//! The timing layer: turns button samples into Morse bits.

use vstd::prelude::*;

use crate::clock::{Config, Input};

verus! {

/// A signal from the timing layer to the sequence layer.
#[derive(Clone, Copy, Debug, PartialEq, Eq, Structural)]
pub enum Bit {
    /// A short press (a dot).
    Zero,
    /// A long press (a dash).
    One,
    /// No activity for a period after a bit: the sequence is complete.
    End,
    /// A press held for two periods, then released.
    Cancel,
}

/// The phase of the timing layer, shown to the user as feedback.
#[derive(Clone, Copy, Debug, PartialEq, Eq, Structural)]
pub enum BitState {
    Ready,
    Short,
    Long,
    Cancel,
    Done,
}

/// Decodes the timing of button presses into bits.
pub struct BitLayer {
    pub config: Config,
    pub state: BitState,
    /// Timestamp of the last state change.
    pub reference: usize,
    /// Previous timestamp.
    pub previous: usize,
}

/// The transition table of the timing layer: from the phase, whether the
/// button is pressed and whether a period has passed since the reference
/// timestamp, the next phase, whether the reference moves to the current
/// timestamp, and the bit emitted.
pub open spec fn transition(state: BitState, pressed: bool, timed_out: bool) -> (BitState, bool, Option<Bit>) {
    match state {
        BitState::Ready => if pressed {
            (BitState::Short, true, None)
        } else {
            (BitState::Ready, true, None)
        },
        BitState::Short => if !pressed {
            (BitState::Done, true, Some(Bit::Zero))
        } else if timed_out {
            (BitState::Long, true, None)
        } else {
            (BitState::Short, false, None)
        },
        BitState::Long => if !pressed {
            (BitState::Done, true, Some(Bit::One))
        } else if timed_out {
            (BitState::Cancel, true, None)
        } else {
            (BitState::Long, false, None)
        },
        BitState::Cancel => if pressed {
            (BitState::Cancel, true, None)
        } else {
            (BitState::Ready, true, Some(Bit::Cancel))
        },
        BitState::Done => if pressed {
            (BitState::Short, true, None)
        } else if timed_out {
            (BitState::Ready, true, Some(Bit::End))
        } else {
            (BitState::Done, false, None)
        },
    }
}

/// The bits that one step emits, as a sequence.
pub open spec fn emitted(bit: Option<Bit>) -> Seq<Bit> {
    match bit {
        Some(b) => seq![b],
        None => seq![],
    }
}

/// `n` copies of one phase.
pub open spec fn repeat(phase: BitState, n: nat) -> Seq<BitState> {
    Seq::new(n, |_i: int| phase)
}

impl BitLayer {
    /// Both stored timestamps lie on the clock.
    pub open spec fn wf(self) -> bool {
        &&& self.reference <= self.config.maximum
        &&& self.previous <= self.config.maximum
    }

    /// Whether more than a period has passed since the reference timestamp.
    pub open spec fn timed_out(self, timestamp: usize) -> bool {
        self.config.wrapping_diff(self.reference as int, timestamp as int) > self.config.period
    }

    /// The layer after one sample, and the bit emitted.
    pub open spec fn spec_step(self, input: Input) -> (BitLayer, Option<Bit>) {
        let (state, reset, bit) = transition(self.state, input.button, self.timed_out(input.timestamp));
        let next = BitLayer {
            config: self.config,
            state,
            reference: if reset { input.timestamp } else { self.reference },
            previous: input.timestamp,
        };
        (next, bit)
    }

    /// A layer at rest, with both timestamps at 0.
    pub open spec fn new_spec(config: Config) -> BitLayer {
        BitLayer { config, state: BitState::Ready, reference: 0, previous: 0 }
    }

    /// The layer after a sequence of samples, the bits emitted, and the
    /// phase after each sample.
    pub open spec fn run(self, inputs: Seq<Input>) -> (BitLayer, Seq<Bit>, Seq<BitState>)
        decreases inputs.len(),
    {
        if inputs.len() == 0 {
            (self, seq![], seq![])
        } else {
            let (next, bit) = self.spec_step(inputs[0]);
            let (last, bits, phases) = next.run(inputs.drop_first());
            (last, emitted(bit) + bits, seq![next.state] + phases)
        }
    }

    /// The samples keep the phase as it is: the button stays pressed while
    /// Short or Long, or released while Done, and no sample comes more than
    /// a period after the reference timestamp.
    pub open spec fn holds_through(self, inputs: Seq<Input>) -> bool {
        forall|i: int|
            0 <= i < inputs.len() ==> {
                &&& (#[trigger] inputs[i]).button == (self.state != BitState::Done)
                &&& !self.timed_out(inputs[i].timestamp)
            }
    }

    /// A layer at rest.
    pub fn new(config: Config) -> (r: BitLayer)
        ensures
            r == BitLayer::new_spec(config),
            r.wf(),
    {
        BitLayer { config, state: BitState::Ready, reference: 0, previous: 0 }
    }

    /// Whether the time since the previous sample exceeds a quarter of the
    /// period, which may make the layer miss a transition.
    pub fn lagging(&self, input: Input) -> (r: bool)
        requires
            self.wf(),
        ensures
            r == (self.config.wrapping_diff(self.previous as int, input.timestamp as int)
                > self.config.period / 4),
    {
        self.config.diff(self.previous, input.timestamp) > self.config.period / 4
    }

    /// Takes one sample; returns the bit it completes, if any.
    pub fn step(&mut self, input: Input) -> (r: Option<Bit>)
        requires
            old(self).wf(),
            input.timestamp <= old(self).config.maximum,
        ensures
            (*final(self), r) == old(self).spec_step(input),
            final(self).wf(),
    {
        self.previous = input.timestamp;
        let timeout = self.config.diff(self.reference, input.timestamp) > self.config.period;
        let (state, reset, bit) = match (self.state, input.button, timeout) {
            (BitState::Ready, false, _) => (BitState::Ready, true, None),
            (BitState::Ready, true, _) => (BitState::Short, true, None),
            (BitState::Short, false, _) => (BitState::Done, true, Some(Bit::Zero)),
            (BitState::Short, true, false) => (BitState::Short, false, None),
            (BitState::Short, true, true) => (BitState::Long, true, None),
            (BitState::Long, false, _) => (BitState::Done, true, Some(Bit::One)),
            (BitState::Long, true, false) => (BitState::Long, false, None),
            (BitState::Long, true, true) => (BitState::Cancel, true, None),
            (BitState::Cancel, false, _) => (BitState::Ready, true, Some(Bit::Cancel)),
            (BitState::Cancel, true, _) => (BitState::Cancel, true, None),
            (BitState::Done, false, false) => (BitState::Done, false, None),
            (BitState::Done, false, true) => (BitState::Ready, true, Some(Bit::End)),
            (BitState::Done, true, _) => (BitState::Short, true, None),
        };
        self.state = state;
        if reset {
            self.reference = input.timestamp;
        }
        bit
    }
}

proof fn lemma_run_single(layer: BitLayer, input: Input)
    ensures
        layer.run(seq![input]).0 == layer.spec_step(input).0,
        layer.run(seq![input]).1 == emitted(layer.spec_step(input).1),
        layer.run(seq![input]).2 == seq![layer.spec_step(input).0.state],
{
    let next = layer.spec_step(input).0;
    assert(seq![input].drop_first() =~= Seq::<Input>::empty());
    assert(next.run(Seq::<Input>::empty()).1 =~= Seq::<Bit>::empty());
    assert(emitted(layer.spec_step(input).1) + Seq::<Bit>::empty() =~= emitted(layer.spec_step(input).1));
    assert(seq![next.state] + Seq::<BitState>::empty() =~= seq![next.state]);
}

proof fn lemma_run_append(layer: BitLayer, xs: Seq<Input>, ys: Seq<Input>)
    ensures
        layer.run(xs + ys).0 == layer.run(xs).0.run(ys).0,
        layer.run(xs + ys).1 == layer.run(xs).1 + layer.run(xs).0.run(ys).1,
        layer.run(xs + ys).2 == layer.run(xs).2 + layer.run(xs).0.run(ys).2,
    decreases xs.len(),
{
    if xs.len() == 0 {
        assert(xs + ys =~= ys);
        assert(layer.run(xs).1 + layer.run(ys).1 =~= layer.run(ys).1);
        assert(layer.run(xs).2 + layer.run(ys).2 =~= layer.run(ys).2);
    } else {
        let (next, bit) = layer.spec_step(xs[0]);
        assert((xs + ys)[0] == xs[0]);
        assert((xs + ys).drop_first() =~= xs.drop_first() + ys);
        lemma_run_append(next, xs.drop_first(), ys);
        let mid = next.run(xs.drop_first());
        assert(emitted(bit) + (mid.1 + mid.0.run(ys).1) =~= (emitted(bit) + mid.1) + mid.0.run(ys).1);
        assert(seq![next.state] + (mid.2 + mid.0.run(ys).2) =~= (seq![next.state] + mid.2) + mid.0.run(ys).2);
    }
}

/// While the samples keep the phase, the layer emits nothing and keeps its
/// phase and reference timestamp.
proof fn lemma_steady(layer: BitLayer, inputs: Seq<Input>)
    requires
        layer.state == BitState::Short || layer.state == BitState::Long || layer.state == BitState::Done,
        layer.holds_through(inputs),
    ensures
        layer.run(inputs).0.state == layer.state,
        layer.run(inputs).0.reference == layer.reference,
        layer.run(inputs).0.config == layer.config,
        layer.run(inputs).1 == Seq::<Bit>::empty(),
        layer.run(inputs).2 == repeat(layer.state, inputs.len()),
    decreases inputs.len(),
{
    if inputs.len() == 0 {
        assert(repeat(layer.state, 0) =~= Seq::<BitState>::empty());
    } else {
        let next = layer.spec_step(inputs[0]).0;
        assert(!layer.timed_out(inputs[0].timestamp));
        assert(next.state == layer.state && next.reference == layer.reference && next.config == layer.config);
        let rest = inputs.drop_first();
        assert forall|i: int| 0 <= i < rest.len() implies {
            &&& (#[trigger] rest[i]).button == (next.state != BitState::Done)
            &&& !next.timed_out(rest[i].timestamp)
        } by {
            assert(rest[i] == inputs[i + 1]);
            assert(!layer.timed_out(inputs[i + 1].timestamp));
        }
        lemma_steady(next, rest);
        assert(Seq::<Bit>::empty() + Seq::<Bit>::empty() =~= Seq::<Bit>::empty());
        assert(seq![layer.state] + repeat(layer.state, rest.len()) =~= repeat(layer.state, inputs.len()));
    }
}

/// While the button stays pressed in the Cancel phase, the layer emits
/// nothing and stays there.
proof fn lemma_cancel_held(layer: BitLayer, inputs: Seq<Input>)
    requires
        layer.state == BitState::Cancel,
        forall|i: int| 0 <= i < inputs.len() ==> (#[trigger] inputs[i]).button,
    ensures
        layer.run(inputs).0.state == BitState::Cancel,
        layer.run(inputs).0.config == layer.config,
        layer.run(inputs).1 == Seq::<Bit>::empty(),
        layer.run(inputs).2 == repeat(BitState::Cancel, inputs.len()),
    decreases inputs.len(),
{
    if inputs.len() == 0 {
        assert(repeat(BitState::Cancel, 0) =~= Seq::<BitState>::empty());
    } else {
        let next = layer.spec_step(inputs[0]).0;
        let rest = inputs.drop_first();
        assert forall|i: int| 0 <= i < rest.len() implies (#[trigger] rest[i]).button by {
            assert(rest[i] == inputs[i + 1]);
        }
        lemma_cancel_held(next, rest);
        assert(Seq::<Bit>::empty() + Seq::<Bit>::empty() =~= Seq::<Bit>::empty());
        assert(seq![BitState::Cancel] + repeat(BitState::Cancel, rest.len()) =~= repeat(BitState::Cancel, inputs.len()));
    }
}

/// A press shorter than a period, then a release, from rest: the layer goes
/// Ready, Short, Done, and emits exactly one `Zero`.
pub proof fn lemma_short_press(layer: BitLayer, press: Input, hold: Seq<Input>, release: Input)
    requires
        layer.state == BitState::Ready,
        press.button,
        forall|i: int|
            0 <= i < hold.len() ==> (#[trigger] hold[i]).button && layer.config.wrapping_diff(
                press.timestamp as int,
                hold[i].timestamp as int,
            ) <= layer.config.period,
        !release.button,
    ensures
        layer.run(seq![press] + hold + seq![release]).1 == seq![Bit::Zero],
        layer.run(seq![press] + hold + seq![release]).2 == seq![BitState::Short] + repeat(
            BitState::Short,
            hold.len(),
        ) + seq![BitState::Done],
        layer.run(seq![press] + hold + seq![release]).0.state == BitState::Done,
{
    let pressed = layer.spec_step(press).0;
    lemma_run_single(layer, press);
    assert(pressed.holds_through(hold)) by {
        assert forall|i: int| 0 <= i < hold.len() implies {
            &&& (#[trigger] hold[i]).button == (pressed.state != BitState::Done)
            &&& !pressed.timed_out(hold[i].timestamp)
        } by {
            assert(hold[i].button);
        }
    }
    lemma_steady(pressed, hold);
    lemma_run_append(layer, seq![press], hold);
    let held = pressed.run(hold).0;
    lemma_run_single(held, release);
    lemma_run_append(layer, seq![press] + hold, seq![release]);
    assert(Seq::<Bit>::empty() + Seq::<Bit>::empty() + seq![Bit::Zero] =~= seq![Bit::Zero]);
}

/// A press held past a period, then released: the layer goes Ready, Short,
/// Long, Done, and emits exactly one `One`.
pub proof fn lemma_long_press(
    layer: BitLayer,
    press: Input,
    hold: Seq<Input>,
    turn: Input,
    hold_long: Seq<Input>,
    release: Input,
)
    requires
        layer.state == BitState::Ready,
        press.button,
        forall|i: int|
            0 <= i < hold.len() ==> (#[trigger] hold[i]).button && layer.config.wrapping_diff(
                press.timestamp as int,
                hold[i].timestamp as int,
            ) <= layer.config.period,
        turn.button,
        layer.config.wrapping_diff(press.timestamp as int, turn.timestamp as int) > layer.config.period,
        forall|i: int|
            0 <= i < hold_long.len() ==> (#[trigger] hold_long[i]).button && layer.config.wrapping_diff(
                turn.timestamp as int,
                hold_long[i].timestamp as int,
            ) <= layer.config.period,
        !release.button,
    ensures
        layer.run(seq![press] + hold + seq![turn] + hold_long + seq![release]).1 == seq![Bit::One],
        layer.run(seq![press] + hold + seq![turn] + hold_long + seq![release]).2 == seq![BitState::Short]
            + repeat(BitState::Short, hold.len()) + seq![BitState::Long] + repeat(
            BitState::Long,
            hold_long.len(),
        ) + seq![BitState::Done],
        layer.run(seq![press] + hold + seq![turn] + hold_long + seq![release]).0.state == BitState::Done,
{
    let pressed = layer.spec_step(press).0;
    lemma_run_single(layer, press);
    assert(pressed.holds_through(hold)) by {
        assert forall|i: int| 0 <= i < hold.len() implies {
            &&& (#[trigger] hold[i]).button == (pressed.state != BitState::Done)
            &&& !pressed.timed_out(hold[i].timestamp)
        } by {
            assert(hold[i].button);
        }
    }
    lemma_steady(pressed, hold);
    lemma_run_append(layer, seq![press], hold);
    let held = pressed.run(hold).0;
    lemma_run_single(held, turn);
    lemma_run_append(layer, seq![press] + hold, seq![turn]);
    let long = held.spec_step(turn).0;
    assert(long.holds_through(hold_long)) by {
        assert forall|i: int| 0 <= i < hold_long.len() implies {
            &&& (#[trigger] hold_long[i]).button == (long.state != BitState::Done)
            &&& !long.timed_out(hold_long[i].timestamp)
        } by {
            assert(hold_long[i].button);
        }
    }
    lemma_steady(long, hold_long);
    lemma_run_append(layer, seq![press] + hold + seq![turn], hold_long);
    let held_long = long.run(hold_long).0;
    lemma_run_single(held_long, release);
    lemma_run_append(layer, seq![press] + hold + seq![turn] + hold_long, seq![release]);
    let e = Seq::<Bit>::empty();
    assert(e + e + e + e + seq![Bit::One] =~= seq![Bit::One]);
}

/// A press held past two periods reaches the Cancel phase, and releasing it
/// there emits exactly one `Cancel` and returns to Ready.
pub proof fn lemma_cancel_press(
    layer: BitLayer,
    press: Input,
    hold: Seq<Input>,
    turn: Input,
    hold_long: Seq<Input>,
    turn_cancel: Input,
    hold_cancel: Seq<Input>,
    release: Input,
)
    requires
        layer.state == BitState::Ready,
        press.button,
        forall|i: int|
            0 <= i < hold.len() ==> (#[trigger] hold[i]).button && layer.config.wrapping_diff(
                press.timestamp as int,
                hold[i].timestamp as int,
            ) <= layer.config.period,
        turn.button,
        layer.config.wrapping_diff(press.timestamp as int, turn.timestamp as int) > layer.config.period,
        forall|i: int|
            0 <= i < hold_long.len() ==> (#[trigger] hold_long[i]).button && layer.config.wrapping_diff(
                turn.timestamp as int,
                hold_long[i].timestamp as int,
            ) <= layer.config.period,
        turn_cancel.button,
        layer.config.wrapping_diff(turn.timestamp as int, turn_cancel.timestamp as int) > layer.config.period,
        forall|i: int| 0 <= i < hold_cancel.len() ==> (#[trigger] hold_cancel[i]).button,
        !release.button,
    ensures
        layer.run(seq![press] + hold + seq![turn] + hold_long + seq![turn_cancel] + hold_cancel + seq![release]).1
            == seq![Bit::Cancel],
        layer.run(seq![press] + hold + seq![turn] + hold_long + seq![turn_cancel] + hold_cancel + seq![release]).2
            == seq![BitState::Short] + repeat(BitState::Short, hold.len()) + seq![BitState::Long] + repeat(
            BitState::Long,
            hold_long.len(),
        ) + seq![BitState::Cancel] + repeat(BitState::Cancel, hold_cancel.len()) + seq![BitState::Ready],
        layer.run(seq![press] + hold + seq![turn] + hold_long + seq![turn_cancel] + hold_cancel + seq![release]).0.state
            == BitState::Ready,
{
    let pressed = layer.spec_step(press).0;
    lemma_run_single(layer, press);
    assert(pressed.holds_through(hold)) by {
        assert forall|i: int| 0 <= i < hold.len() implies {
            &&& (#[trigger] hold[i]).button == (pressed.state != BitState::Done)
            &&& !pressed.timed_out(hold[i].timestamp)
        } by {
            assert(hold[i].button);
        }
    }
    lemma_steady(pressed, hold);
    lemma_run_append(layer, seq![press], hold);
    let held = pressed.run(hold).0;
    lemma_run_single(held, turn);
    lemma_run_append(layer, seq![press] + hold, seq![turn]);
    let long = held.spec_step(turn).0;
    assert(long.holds_through(hold_long)) by {
        assert forall|i: int| 0 <= i < hold_long.len() implies {
            &&& (#[trigger] hold_long[i]).button == (long.state != BitState::Done)
            &&& !long.timed_out(hold_long[i].timestamp)
        } by {
            assert(hold_long[i].button);
        }
    }
    lemma_steady(long, hold_long);
    lemma_run_append(layer, seq![press] + hold + seq![turn], hold_long);
    let held_long = long.run(hold_long).0;
    lemma_run_single(held_long, turn_cancel);
    lemma_run_append(layer, seq![press] + hold + seq![turn] + hold_long, seq![turn_cancel]);
    let cancel = held_long.spec_step(turn_cancel).0;
    lemma_cancel_held(cancel, hold_cancel);
    lemma_run_append(layer, seq![press] + hold + seq![turn] + hold_long + seq![turn_cancel], hold_cancel);
    let held_cancel = cancel.run(hold_cancel).0;
    lemma_run_single(held_cancel, release);
    lemma_run_append(
        layer,
        seq![press] + hold + seq![turn] + hold_long + seq![turn_cancel] + hold_cancel,
        seq![release],
    );
    let e = Seq::<Bit>::empty();
    assert(e + e + e + e + e + e + seq![Bit::Cancel] =~= seq![Bit::Cancel]);
}

/// No activity for more than a period after a bit ends the sequence: the
/// layer emits exactly one `End`, with no press, and returns to Ready.
pub proof fn lemma_idle_end(layer: BitLayer, quiet: Seq<Input>, last: Input)
    requires
        layer.state == BitState::Done,
        forall|i: int|
            0 <= i < quiet.len() ==> !(#[trigger] quiet[i]).button && layer.config.wrapping_diff(
                layer.reference as int,
                quiet[i].timestamp as int,
            ) <= layer.config.period,
        !last.button,
        layer.config.wrapping_diff(layer.reference as int, last.timestamp as int) > layer.config.period,
    ensures
        layer.run(quiet + seq![last]).1 == seq![Bit::End],
        layer.run(quiet + seq![last]).2 == repeat(BitState::Done, quiet.len()) + seq![BitState::Ready],
        layer.run(quiet + seq![last]).0.state == BitState::Ready,
{
    assert(layer.holds_through(quiet)) by {
        assert forall|i: int| 0 <= i < quiet.len() implies {
            &&& (#[trigger] quiet[i]).button == (layer.state != BitState::Done)
            &&& !layer.timed_out(quiet[i].timestamp)
        } by {
            assert(!quiet[i].button);
        }
    }
    lemma_steady(layer, quiet);
    let waited = layer.run(quiet).0;
    lemma_run_single(waited, last);
    lemma_run_append(layer, quiet, seq![last]);
    assert(Seq::<Bit>::empty() + seq![Bit::End] =~= seq![Bit::End]);
}

} // verus!
