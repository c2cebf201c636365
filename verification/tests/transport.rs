use ws2812_core::transport::{
    Backend, Command, Progress, Registry, Report, Scheduling, TransmissionFault,
};

fn busy(progress: Progress) -> (ws2812_core::transport::Transfer, Command) {
    match progress {
        Progress::Busy(transfer, command) => (transfer, command),
        other => panic!("transfer ended: {:?}", other),
    }
}

#[test]
fn a_channel_is_handed_out_once() {
    let mut registry = Registry::<2>::new();
    assert!(!registry.is_taken(0));
    let channel = registry.claim(0, Backend::PulseGenerator).expect("free channel");
    assert_eq!(channel.id(), 0);
    assert_eq!(channel.backend(), Backend::PulseGenerator);
    assert!(registry.is_taken(0));
    assert!(registry.claim(0, Backend::PulseGenerator).is_none());
    assert!(registry.claim(0, Backend::DmaSerial).is_none());

    // The other channel is free, a third does not exist.
    assert!(registry.claim(1, Backend::DmaSerial).is_some());
    assert!(registry.claim(2, Backend::DmaSerial).is_none());
    assert!(!registry.is_taken(2));

    registry.release(channel);
    assert!(!registry.is_taken(0));
    assert!(registry.claim(0, Backend::BitBangedSerial).is_some());
}

#[test]
fn only_dma_suspends_the_caller() {
    assert_eq!(Backend::BitBangedSerial.scheduling(), Scheduling::Blocking);
    assert_eq!(Backend::PulseGenerator.scheduling(), Scheduling::Blocking);
    assert_eq!(Backend::DmaSerial.scheduling(), Scheduling::Suspending);
    assert!(Backend::BitBangedSerial.writes_unit_by_unit());
    assert!(!Backend::DmaSerial.writes_unit_by_unit());
    assert!(!Backend::PulseGenerator.writes_unit_by_unit());
}

#[test]
fn serial_units_are_written_in_order() {
    let mut registry = Registry::<1>::new();
    let channel = registry.claim(0, Backend::BitBangedSerial).unwrap();
    let (mut transfer, mut command) = busy(channel.begin_transfer(33));
    let mut written = Vec::new();
    let channel = loop {
        let index = match command {
            Command::Write { index } => index,
            other => panic!("unexpected command {:?}", other),
        };
        assert_eq!(index, transfer.sent());
        assert_eq!(transfer.units(), 33);
        written.push(index);
        match transfer.report(Report::Accepted) {
            Progress::Busy(next, then) => {
                transfer = next;
                command = then;
            }
            Progress::Done(channel) => break channel,
            Progress::Failed(fault, _) => panic!("fault {:?}", fault),
        }
    };
    assert_eq!(written, (0..33).collect::<Vec<usize>>());
    assert_eq!(channel.id(), 0);
}

#[test]
fn a_busy_register_gets_the_same_unit_again() {
    let mut registry = Registry::<1>::new();
    let channel = registry.claim(0, Backend::BitBangedSerial).unwrap();
    let (transfer, command) = busy(channel.begin_transfer(2));
    assert_eq!(command, Command::Write { index: 0 });
    let (transfer, command) = busy(transfer.report(Report::WouldBlock));
    assert_eq!(command, Command::Write { index: 0 });
    let (transfer, command) = busy(transfer.report(Report::WouldBlock));
    assert_eq!(command, Command::Write { index: 0 });
    assert_eq!(transfer.sent(), 0);
    let (transfer, command) = busy(transfer.report(Report::Accepted));
    assert_eq!(command, Command::Write { index: 1 });
    assert_eq!(transfer.sent(), 1);
    let (transfer, command) = busy(transfer.report(Report::WouldBlock));
    assert_eq!(command, Command::Write { index: 1 });
    assert!(matches!(transfer.report(Report::Accepted), Progress::Done(_)));
}

#[test]
fn a_fault_ends_the_transfer_at_once() {
    let mut registry = Registry::<1>::new();
    let channel = registry.claim(0, Backend::BitBangedSerial).unwrap();
    let (transfer, _) = busy(channel.begin_transfer(33));
    let (transfer, _) = busy(transfer.report(Report::Accepted));
    match transfer.report(Report::Fault(TransmissionFault::Overrun)) {
        Progress::Failed(fault, channel) => {
            assert_eq!(fault, TransmissionFault::Overrun);
            assert_eq!(channel.id(), 0);
        }
        other => panic!("no fault: {:?}", other),
    }
}

#[test]
fn engines_take_the_frame_as_a_whole() {
    for (backend, units) in [(Backend::PulseGenerator, 25), (Backend::DmaSerial, 48)] {
        let mut registry = Registry::<1>::new();
        let channel = registry.claim(0, backend).unwrap();
        let (transfer, command) = busy(channel.begin_transfer(units));
        assert_eq!(command, Command::Submit { units });
        let (transfer, command) = busy(transfer.report(Report::WouldBlock));
        assert_eq!(command, Command::Wait);
        assert_eq!(transfer.sent(), 0);
        match transfer.report(Report::Accepted) {
            Progress::Done(channel) => assert_eq!(channel.backend(), backend),
            other => panic!("not done: {:?}", other),
        }
    }
}

#[test]
fn an_engine_fault_is_final() {
    let mut registry = Registry::<1>::new();
    let channel = registry.claim(0, Backend::DmaSerial).unwrap();
    let (transfer, _) = busy(channel.begin_transfer(48));
    assert!(matches!(
        transfer.report(Report::Fault(TransmissionFault::Aborted)),
        Progress::Failed(TransmissionFault::Aborted, _)
    ));
}

#[test]
fn nothing_to_send_is_done_at_once() {
    for backend in [Backend::BitBangedSerial, Backend::DmaSerial, Backend::PulseGenerator] {
        let mut registry = Registry::<1>::new();
        let channel = registry.claim(0, backend).unwrap();
        assert!(matches!(channel.begin_transfer(0), Progress::Done(_)));
    }
}
