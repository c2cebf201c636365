//! The control loop that picks a colour, has its frame transmitted and
//! waits before the next, as a state machine: each outcome of the last
//! action decides the next action. Whoever drives the machine performs the
//! actions, on a transport and a timer of its own.

use crate::color::Color;
use crate::frame::{frame_units, Frame, Unit};
use crate::transport::TransmissionFault;
use vstd::arithmetic::div_mod::{
    lemma_add_mod_noop_right, lemma_mod_bound, lemma_mod_self_0, lemma_small_mod,
};
use vstd::prelude::*;

verus! {

/// Delay between two frames in the example cycle, in milliseconds.
pub const FRAME_DELAY_MS: u32 = 500;

/// What the sequencer does when it has gone through its palette.
#[derive(Clone, Copy, Debug, PartialEq, Eq, Structural)]
pub enum Mode {
    /// Start over with the first colour, for ever.
    Cycle,
    /// Stop after the last colour and suspend for good.
    Once,
}

/// Where the sequencer stands.
#[derive(Clone, Copy, Debug, PartialEq, Eq, Structural)]
pub enum Phase {
    /// Between two frames: the delay runs, or nothing was sent yet.
    Waiting,
    /// A frame is being transmitted.
    Transmitting,
    /// The palette is through and the sequencer sleeps for good.
    Suspended,
    /// A transmission failed and the sequencer has stopped.
    Halted(TransmissionFault),
}

/// How the last action ended.
#[derive(Clone, Copy, Debug, PartialEq, Eq, Structural)]
pub enum Outcome {
    /// The frame is out, or the delay is over, or nothing was asked for yet.
    Done,
    /// The transport reported a fault.
    Fault(TransmissionFault),
}

/// What the driver of the sequencer has to do next.
#[derive(Clone, Copy, Debug, PartialEq, Eq)]
pub enum Action {
    /// Transmit this frame and report how it went.
    Transmit(Frame),
    /// Wait for this many milliseconds.
    Delay(u32),
    /// Enter the low-power state; there is nothing more to send.
    Suspend,
    /// Report the fault and stop.
    Halt(TransmissionFault),
}

/// An action, with the frame to transmit given by its units.
pub enum ActionView {
    Transmit(Seq<Unit>),
    Delay(u32),
    Suspend,
    Halt(TransmissionFault),
}

impl View for Action {
    type V = ActionView;

    open spec fn view(&self) -> ActionView {
        match *self {
            Action::Transmit(frame) => ActionView::Transmit(frame@),
            Action::Delay(ms) => ActionView::Delay(ms),
            Action::Suspend => ActionView::Suspend,
            Action::Halt(fault) => ActionView::Halt(fault),
        }
    }
}

/// The state of a sequencer.
pub struct State {
    /// The colours to show, in order.
    pub palette: Seq<Color>,
    /// Delay between two frames, in milliseconds.
    pub delay_ms: u32,
    pub mode: Mode,
    /// Index of the colour that is transmitted now or next.
    pub next: nat,
    pub phase: Phase,
}

impl State {
    /// While there is a frame to send, it is one of the palette.
    pub open spec fn valid(self) -> bool {
        self.phase is Waiting || self.phase is Transmitting ==> self.next < self.palette.len()
    }

    /// The state in which the fault is recorded.
    pub open spec fn halted(self, fault: TransmissionFault) -> State {
        State { phase: Phase::Halted(fault), ..self }
    }
}

/// The state of a sequencer that has sent nothing yet. With no colour to
/// show it is suspended from the start.
pub open spec fn initial(palette: Seq<Color>, delay_ms: u32, mode: Mode) -> State {
    State {
        palette,
        delay_ms,
        mode,
        next: 0,
        phase: if palette.len() == 0 {
            Phase::Suspended
        } else {
            Phase::Waiting
        },
    }
}

/// One step of the sequencer: the state it goes to and the action it asks
/// for. A fault stops it for good. Between two frames it transmits the
/// next colour's frame. After a frame it waits for the delay and moves on
/// to the next colour, the first one again after the last, or suspends
/// after the last colour when it goes through the palette only once.
pub open spec fn step(state: State, outcome: Outcome) -> (State, ActionView) {
    match state.phase {
        Phase::Halted(fault) => (state, ActionView::Halt(fault)),
        Phase::Suspended => (state, ActionView::Suspend),
        Phase::Waiting => match outcome {
            Outcome::Fault(fault) => (state.halted(fault), ActionView::Halt(fault)),
            Outcome::Done => (
                State { phase: Phase::Transmitting, ..state },
                ActionView::Transmit(frame_units(state.palette[state.next as int])),
            ),
        },
        Phase::Transmitting => match outcome {
            Outcome::Fault(fault) => (state.halted(fault), ActionView::Halt(fault)),
            Outcome::Done => if state.mode == Mode::Once && state.next + 1 == state.palette.len() {
                (State { phase: Phase::Suspended, ..state }, ActionView::Suspend)
            } else {
                (
                    State {
                        phase: Phase::Waiting,
                        next: if state.next + 1 == state.palette.len() {
                            0
                        } else {
                            state.next + 1
                        },
                        ..state
                    },
                    ActionView::Delay(state.delay_ms),
                )
            },
        },
    }
}

/// The state after a sequence of outcomes.
pub open spec fn state_after(state: State, outcomes: Seq<Outcome>) -> State
    decreases outcomes.len(),
{
    if outcomes.len() == 0 {
        state
    } else {
        step(state_after(state, outcomes.drop_last()), outcomes.last()).0
    }
}

/// The actions that a sequence of outcomes is answered with, one for each.
pub open spec fn trace(state: State, outcomes: Seq<Outcome>) -> Seq<ActionView> {
    Seq::new(outcomes.len(), |i: int| step(state_after(state, outcomes.take(i)), outcomes[i]).1)
}

/// The outcomes of a run without any fault.
pub open spec fn all_done(count: nat) -> Seq<Outcome> {
    Seq::new(count, |i: int| Outcome::Done)
}

/// A step keeps the state valid.
pub proof fn lemma_step_valid(state: State, outcome: Outcome)
    requires
        state.valid(),
    ensures
        step(state, outcome).0.valid(),
        step(state, outcome).0.palette == state.palette,
        step(state, outcome).0.delay_ms == state.delay_ms,
        step(state, outcome).0.mode == state.mode,
{
}

/// Outcomes can be taken in one go or in two.
pub proof fn lemma_state_split(state: State, first: Seq<Outcome>, second: Seq<Outcome>)
    ensures
        state_after(state, first + second) == state_after(state_after(state, first), second),
    decreases second.len(),
{
    if second.len() == 0 {
        assert(first + second =~= first);
    } else {
        lemma_state_split(state, first, second.drop_last());
        assert((first + second).drop_last() =~= first + second.drop_last());
        assert((first + second).last() == second.last());
    }
}

/// A sequencer that has halted or is suspended never leaves that state,
/// and asks for no frame and no delay any more.
pub proof fn lemma_stopped_is_final(state: State, outcomes: Seq<Outcome>)
    requires
        state.phase is Halted || state.phase is Suspended,
    ensures
        state_after(state, outcomes) == state,
        forall|i: int|
            0 <= i < outcomes.len() ==> #[trigger] trace(state, outcomes)[i] == (match state.phase {
                Phase::Halted(fault) => ActionView::Halt(fault),
                _ => ActionView::Suspend,
            }),
    decreases outcomes.len(),
{
    if outcomes.len() > 0 {
        lemma_stopped_is_final(state, outcomes.drop_last());
    }
    assert forall|i: int| 0 <= i < outcomes.len() implies #[trigger] trace(state, outcomes)[i] == (
    match state.phase {
        Phase::Halted(fault) => ActionView::Halt(fault),
        _ => ActionView::Suspend,
    }) by {
        lemma_stopped_is_final(state, outcomes.take(i));
    }
}

/// A fault is answered by halting, unless the sequencer was suspended
/// already, and no frame is transmitted from then on: what would have
/// followed the failed frame is never attempted.
pub proof fn lemma_no_frame_after_fault(state: State, outcomes: Seq<Outcome>, i: int, j: int)
    requires
        0 <= i <= j < outcomes.len(),
        outcomes[i] is Fault,
    ensures
        trace(state, outcomes)[j] is Halt || trace(state, outcomes)[j] is Suspend,
        !(state_after(state, outcomes.take(i)).phase is Suspended) ==> trace(state, outcomes)[j]
            is Halt,
{
    let before = state_after(state, outcomes.take(i));
    let stopped = step(before, outcomes[i]).0;
    assert(stopped.phase is Halted || stopped.phase is Suspended);
    assert(before.phase is Suspended <==> stopped.phase is Suspended);
    assert(outcomes.take(i + 1).drop_last() =~= outcomes.take(i));
    assert(state_after(state, outcomes.take(i + 1)) == stopped);
    if j > i {
        let rest = outcomes.subrange(i + 1, j);
        assert(outcomes.take(j) =~= outcomes.take(i + 1) + rest);
        lemma_state_split(state, outcomes.take(i + 1), rest);
        lemma_stopped_is_final(stopped, rest);
        assert(state_after(state, outcomes.take(j)) == stopped);
    }
}

/// Frames never follow each other directly: whatever the outcomes, the
/// step after a frame asks for the delay, suspends or halts, so a frame is
/// only begun when the one before it is out and the delay after it is over.
pub proof fn lemma_frames_are_apart(state: State, outcomes: Seq<Outcome>, i: int)
    requires
        0 <= i,
        i + 1 < outcomes.len(),
        trace(state, outcomes)[i] is Transmit,
    ensures
        trace(state, outcomes)[i + 1] == ActionView::Delay(state_after(state, outcomes.take(i)).delay_ms)
            || trace(state, outcomes)[i + 1] is Suspend || trace(state, outcomes)[i + 1] is Halt,
        outcomes[i + 1] is Fault ==> trace(state, outcomes)[i + 1] is Halt,
{
    let before = state_after(state, outcomes.take(i));
    assert(before.phase is Waiting);
    assert(outcomes.take(i + 1).drop_last() =~= outcomes.take(i));
    assert(outcomes.take(i + 1).last() == outcomes[i]);
    assert(state_after(state, outcomes.take(i + 1)) == step(before, outcomes[i]).0);
}

/// Where a sequencer that cycles stands after `count` steps without a
/// fault: the steps alternate between a frame and the delay after it, and
/// the colours come round in the order of the palette.
pub proof fn lemma_cycle_state(palette: Seq<Color>, delay_ms: u32, count: nat)
    requires
        palette.len() > 0,
    ensures
        state_after(initial(palette, delay_ms, Mode::Cycle), all_done(count)) == (State {
            palette,
            delay_ms,
            mode: Mode::Cycle,
            next: (count / 2) % palette.len(),
            phase: if count % 2 == 0 {
                Phase::Waiting
            } else {
                Phase::Transmitting
            },
        }),
    decreases count,
{
    let n = palette.len();
    if count == 0 {
        lemma_small_mod(0, n);
    } else {
        let before = (count - 1) as nat;
        lemma_cycle_state(palette, delay_ms, before);
        assert(all_done(count).drop_last() =~= all_done(before));
        if before % 2 == 1 {
            let turn = (before / 2) as int;
            assert(count / 2 == turn + 1);
            lemma_mod_bound(turn, n as int);
            lemma_add_mod_noop_right(1, turn, n as int);
            if turn % (n as int) + 1 == n {
                lemma_mod_self_0(n as int);
            } else {
                lemma_small_mod((turn % (n as int) + 1) as nat, n);
            }
        } else {
            assert(count / 2 == before / 2);
        }
    }
}

/// A sequencer that cycles transmits, as long as no fault is reported, the
/// colours of the palette in order and over again, and waits for the delay
/// after each frame: steps 0, 2, 4, ... transmit, steps 1, 3, 5, ... wait.
pub proof fn lemma_cycle_order(palette: Seq<Color>, delay_ms: u32, count: nat, k: int)
    requires
        palette.len() > 0,
        0 <= k,
    ensures
        2 * k < count ==> trace(initial(palette, delay_ms, Mode::Cycle), all_done(count))[2 * k]
            == ActionView::Transmit(frame_units(palette[k % (palette.len() as int)])),
        2 * k + 1 < count ==> trace(initial(palette, delay_ms, Mode::Cycle), all_done(count))[2 * k
            + 1] == ActionView::Delay(delay_ms),
{
    if 2 * k < count {
        lemma_cycle_state(palette, delay_ms, (2 * k) as nat);
        assert(all_done(count).take(2 * k) =~= all_done((2 * k) as nat));
    }
    if 2 * k + 1 < count {
        lemma_cycle_state(palette, delay_ms, (2 * k + 1) as nat);
        assert(all_done(count).take(2 * k + 1) =~= all_done((2 * k + 1) as nat));
    }
}

/// Where a sequencer that goes through its palette once stands after
/// `count` steps without a fault.
pub proof fn lemma_once_state(palette: Seq<Color>, delay_ms: u32, count: nat)
    requires
        palette.len() > 0,
    ensures
        state_after(initial(palette, delay_ms, Mode::Once), all_done(count)) == (State {
            palette,
            delay_ms,
            mode: Mode::Once,
            next: if count < 2 * palette.len() {
                count / 2
            } else {
                (palette.len() - 1) as nat
            },
            phase: if count >= 2 * palette.len() {
                Phase::Suspended
            } else if count % 2 == 0 {
                Phase::Waiting
            } else {
                Phase::Transmitting
            },
        }),
    decreases count,
{
    let n = palette.len();
    if count > 0 {
        let before = (count - 1) as nat;
        lemma_once_state(palette, delay_ms, before);
        assert(all_done(count).drop_last() =~= all_done(before));
    }
}

/// A sequencer that goes through its palette once transmits, as long as no
/// fault is reported, one frame for each colour, in the order of the
/// palette, waits for the delay between two frames, and suspends after the
/// last frame for good.
pub proof fn lemma_once_order(palette: Seq<Color>, delay_ms: u32, count: nat, j: int)
    requires
        palette.len() > 0,
        0 <= j < count,
    ensures
        trace(initial(palette, delay_ms, Mode::Once), all_done(count))[j] == (if j + 1 >= 2
            * palette.len() {
            ActionView::Suspend
        } else if j % 2 == 0 {
            ActionView::Transmit(frame_units(palette[j / 2]))
        } else {
            ActionView::Delay(delay_ms)
        }),
{
    lemma_once_state(palette, delay_ms, j as nat);
    assert(all_done(count).take(j) =~= all_done(j as nat));
}

/// The sequencer of the control loop, for a palette of `N` colours.
#[derive(Debug)]
pub struct Sequencer<const N: usize> {
    palette: [Color; N],
    delay_ms: u32,
    mode: Mode,
    next: usize,
    phase: Phase,
}

impl<const N: usize> View for Sequencer<N> {
    type V = State;

    closed spec fn view(&self) -> State {
        State {
            palette: self.palette@,
            delay_ms: self.delay_ms,
            mode: self.mode,
            next: self.next as nat,
            phase: self.phase,
        }
    }
}

impl<const N: usize> Sequencer<N> {
    #[verifier::type_invariant]
    spec fn inv(self) -> bool {
        self@.valid()
    }

    /// A sequencer that shows the colours of `palette` in order, with
    /// `delay_ms` milliseconds between two frames.
    pub fn new(palette: [Color; N], delay_ms: u32, mode: Mode) -> (sequencer: Sequencer<N>)
        ensures
            sequencer@ == initial(palette@, delay_ms, mode),
    {
        let phase = if N == 0 {
            Phase::Suspended
        } else {
            Phase::Waiting
        };
        Sequencer { palette, delay_ms, mode, next: 0, phase }
    }

    /// Where the sequencer stands.
    pub fn phase(&self) -> (phase: Phase)
        ensures
            phase == self@.phase,
            self@.valid(),
    {
        proof {
            use_type_invariant(self);
        }
        self.phase
    }

    /// Takes the outcome of the last action and says what to do next. The
    /// first call, before any action, takes `Outcome::Done`.
    pub fn advance(&mut self, outcome: Outcome) -> (action: Action)
        ensures
            (final(self)@, action@) == step(old(self)@, outcome),
    {
        proof {
            use_type_invariant(&*self);
        }
        match self.phase {
            Phase::Halted(fault) => Action::Halt(fault),
            Phase::Suspended => Action::Suspend,
            Phase::Waiting => match outcome {
                Outcome::Fault(fault) => {
                    self.phase = Phase::Halted(fault);
                    Action::Halt(fault)
                },
                Outcome::Done => {
                    let frame = Frame::build(self.palette[self.next]);
                    self.phase = Phase::Transmitting;
                    Action::Transmit(frame)
                },
            },
            Phase::Transmitting => match outcome {
                Outcome::Fault(fault) => {
                    self.phase = Phase::Halted(fault);
                    Action::Halt(fault)
                },
                Outcome::Done => {
                    if self.next + 1 == N && matches!(self.mode, Mode::Once) {
                        self.phase = Phase::Suspended;
                        Action::Suspend
                    } else {
                        self.next = if self.next + 1 == N {
                            0
                        } else {
                            self.next + 1
                        };
                        self.phase = Phase::Waiting;
                        Action::Delay(self.delay_ms)
                    }
                },
            },
        }
    }
}

} // verus!
