use ws2812_core::color::Color;
use ws2812_core::frame::{Frame, Unit};
use ws2812_core::sequencer::{Action, Mode, Outcome, Phase, Sequencer, FRAME_DELAY_MS};
use ws2812_core::serial::{encode_color, frame_bytes};
use ws2812_core::transport::{
    Backend, Channel, Command, Progress, Registry, Report, TransmissionFault,
};

const RED: Color = Color { r: 64, g: 0, b: 0 };
const GREEN: Color = Color { r: 0, g: 64, b: 0 };
const BLUE: Color = Color { r: 0, g: 0, b: 64 };
const OFF: Color = Color { r: 0, g: 0, b: 0 };

/// A serial output that records what is written to it and fails at a
/// given write.
struct Wire {
    written: Vec<u8>,
    fail_at: Option<usize>,
}

/// Sends one frame unit by unit, as a blocking driver does.
fn send(channel: Channel, bytes: &[u8], wire: &mut Wire) -> Result<Channel, TransmissionFault> {
    let mut progress = channel.begin_transfer(bytes.len());
    loop {
        match progress {
            Progress::Done(channel) => return Ok(channel),
            Progress::Failed(fault, _) => return Err(fault),
            Progress::Busy(transfer, Command::Write { index }) => {
                let report = if wire.fail_at == Some(wire.written.len()) {
                    Report::Fault(TransmissionFault::Aborted)
                } else {
                    wire.written.push(bytes[index]);
                    Report::Accepted
                };
                progress = transfer.report(report);
            }
            Progress::Busy(_, command) => panic!("unexpected command {:?}", command),
        }
    }
}

/// Runs a sequencer until it stops or `steps` actions are through.
fn drive<const N: usize>(
    sequencer: &mut Sequencer<N>,
    wire: &mut Wire,
    steps: usize,
) -> Vec<Action> {
    let mut registry = Registry::<1>::new();
    let mut channel = registry.claim(0, Backend::BitBangedSerial);
    let mut actions = Vec::new();
    let mut outcome = Outcome::Done;
    for _ in 0..steps {
        let action = sequencer.advance(outcome);
        actions.push(action);
        outcome = match action {
            Action::Transmit(frame) => {
                let bytes = frame_bytes(&frame);
                match send(channel.take().expect("idle channel"), &bytes, wire) {
                    Ok(idle) => {
                        channel = Some(idle);
                        Outcome::Done
                    }
                    Err(fault) => Outcome::Fault(fault),
                }
            }
            Action::Delay(_) => Outcome::Done,
            Action::Suspend | Action::Halt(_) => Outcome::Done,
        };
    }
    actions
}

fn transmitted(actions: &[Action]) -> Vec<Color> {
    actions
        .iter()
        .filter_map(|action| match action {
            Action::Transmit(frame) => Some(frame.color()),
            _ => None,
        })
        .collect()
}

#[test]
fn four_colours_go_out_in_order_with_the_delay_between() {
    assert_eq!(FRAME_DELAY_MS, 500);
    let mut sequencer = Sequencer::new([RED, GREEN, BLUE, OFF], 500, Mode::Once);
    let mut wire = Wire { written: Vec::new(), fail_at: None };
    let actions = drive(&mut sequencer, &mut wire, 12);

    assert_eq!(
        actions[..8],
        [
            Action::Transmit(Frame::build(RED)),
            Action::Delay(500),
            Action::Transmit(Frame::build(GREEN)),
            Action::Delay(500),
            Action::Transmit(Frame::build(BLUE)),
            Action::Delay(500),
            Action::Transmit(Frame::build(OFF)),
            Action::Suspend,
        ]
    );
    // Nothing but sleep follows.
    assert!(actions[8..].iter().all(|action| *action == Action::Suspend));
    assert_eq!(transmitted(&actions), [RED, GREEN, BLUE, OFF]);
    assert_eq!(sequencer.phase(), Phase::Suspended);

    // Every frame ends in the reset marker.
    for action in &actions {
        if let Action::Transmit(frame) = action {
            assert_eq!(frame.len(), 25);
            assert_eq!(frame.units()[24], Unit::Reset);
        }
    }

    // On the wire: four whole frames, each with its run of zero bytes.
    let mut expected = Vec::new();
    for color in [RED, GREEN, BLUE, OFF] {
        expected.extend(encode_color(color));
    }
    assert_eq!(wire.written, expected);
    for frame in wire.written.chunks(33) {
        assert_eq!(frame[12..], [0u8; 21]);
    }
}

#[test]
fn a_fault_in_the_second_frame_stops_the_sequence() {
    let mut sequencer = Sequencer::new([RED, GREEN, BLUE, OFF], 500, Mode::Once);
    // The fault comes in the middle of the second frame.
    let mut wire = Wire { written: Vec::new(), fail_at: Some(33 + 7) };
    let actions = drive(&mut sequencer, &mut wire, 10);

    assert_eq!(
        actions[..4],
        [
            Action::Transmit(Frame::build(RED)),
            Action::Delay(500),
            Action::Transmit(Frame::build(GREEN)),
            Action::Halt(TransmissionFault::Aborted),
        ]
    );
    assert!(actions[4..]
        .iter()
        .all(|action| *action == Action::Halt(TransmissionFault::Aborted)));
    // Blue and off are never attempted.
    assert_eq!(transmitted(&actions), [RED, GREEN]);
    assert_eq!(wire.written.len(), 33 + 7);
    assert_eq!(sequencer.phase(), Phase::Halted(TransmissionFault::Aborted));
}

#[test]
fn a_cycle_starts_over_after_the_last_colour() {
    let mut sequencer = Sequencer::new([RED, GREEN, BLUE], 500, Mode::Cycle);
    let mut wire = Wire { written: Vec::new(), fail_at: None };
    let actions = drive(&mut sequencer, &mut wire, 14);
    for (i, action) in actions.iter().enumerate() {
        if i % 2 == 0 {
            let color = [RED, GREEN, BLUE][(i / 2) % 3];
            assert_eq!(*action, Action::Transmit(Frame::build(color)));
        } else {
            assert_eq!(*action, Action::Delay(500));
        }
    }
    assert_eq!(transmitted(&actions), [RED, GREEN, BLUE, RED, GREEN, BLUE, RED]);
}

#[test]
fn a_single_colour_cycles_on_itself() {
    let mut sequencer = Sequencer::new([BLUE], 20, Mode::Cycle);
    assert_eq!(sequencer.phase(), Phase::Waiting);
    assert_eq!(sequencer.advance(Outcome::Done), Action::Transmit(Frame::build(BLUE)));
    assert_eq!(sequencer.phase(), Phase::Transmitting);
    assert_eq!(sequencer.advance(Outcome::Done), Action::Delay(20));
    assert_eq!(sequencer.phase(), Phase::Waiting);
    assert_eq!(sequencer.advance(Outcome::Done), Action::Transmit(Frame::build(BLUE)));
}

#[test]
fn a_single_colour_once_suspends_without_a_delay() {
    let mut sequencer = Sequencer::new([OFF], 500, Mode::Once);
    assert_eq!(sequencer.advance(Outcome::Done), Action::Transmit(Frame::build(OFF)));
    assert_eq!(sequencer.advance(Outcome::Done), Action::Suspend);
    assert_eq!(sequencer.advance(Outcome::Done), Action::Suspend);
}

#[test]
fn an_empty_palette_suspends_at_once() {
    for mode in [Mode::Cycle, Mode::Once] {
        let mut sequencer = Sequencer::<0>::new([], 500, mode);
        assert_eq!(sequencer.phase(), Phase::Suspended);
        assert_eq!(sequencer.advance(Outcome::Done), Action::Suspend);
        assert_eq!(
            sequencer.advance(Outcome::Fault(TransmissionFault::Busy)),
            Action::Suspend
        );
    }
}

#[test]
fn a_fault_halts_in_every_running_phase() {
    let fault = TransmissionFault::Busy;

    let mut waiting = Sequencer::new([RED, GREEN], 500, Mode::Cycle);
    assert_eq!(waiting.advance(Outcome::Fault(fault)), Action::Halt(fault));
    assert_eq!(waiting.advance(Outcome::Done), Action::Halt(fault));

    let mut transmitting = Sequencer::new([RED, GREEN], 500, Mode::Cycle);
    transmitting.advance(Outcome::Done);
    assert_eq!(transmitting.advance(Outcome::Fault(fault)), Action::Halt(fault));
    // A later fault does not replace the first.
    assert_eq!(
        transmitting.advance(Outcome::Fault(TransmissionFault::Overrun)),
        Action::Halt(fault)
    );
    assert_eq!(transmitting.phase(), Phase::Halted(fault));
}
