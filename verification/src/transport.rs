//! The transports that emit a frame, as a state machine: a channel is idle
//! or transmitting, and each report from the peripheral decides what the
//! driver does next. The driver itself, which touches the hardware, is not
//! part of this library.

use vstd::prelude::*;

verus! {

/// The three ways a frame reaches the wire.
#[derive(Clone, Copy, Debug, PartialEq, Eq, Structural)]
pub enum Backend {
    /// Each unit is written to the serial transmit register in turn.
    BitBangedSerial,
    /// The whole frame is handed to a DMA engine that feeds the serial output.
    DmaSerial,
    /// The whole frame is handed to the pulse generator.
    PulseGenerator,
}

/// What the caller of a transport does while a frame is on its way.
#[derive(Clone, Copy, Debug, PartialEq, Eq, Structural)]
pub enum Scheduling {
    /// The caller is occupied until the frame is out.
    Blocking,
    /// The caller is suspended and other tasks may run.
    Suspending,
}

/// A fault that the peripheral reports during a transmission.
#[derive(Clone, Copy, Debug, PartialEq, Eq, Structural)]
pub enum TransmissionFault {
    /// The peripheral was used while it was busy.
    Busy,
    /// The transfer buffer overran.
    Overrun,
    /// The transfer was aborted.
    Aborted,
}

/// What the peripheral answers to a command.
#[derive(Clone, Copy, Debug, PartialEq, Eq, Structural)]
pub enum Report {
    /// The unit was taken, or the handed-over frame is fully emitted.
    Accepted,
    /// The peripheral is not ready yet.
    WouldBlock,
    /// The transmission failed.
    Fault(TransmissionFault),
}

/// What the driver has to do next for the frame in flight.
#[derive(Clone, Copy, Debug, PartialEq, Eq, Structural)]
pub enum Command {
    /// Write the unit at `index` to the transmit register.
    Write { index: usize },
    /// Hand all `units` units to the engine and wait for its completion.
    Submit { units: usize },
    /// Keep waiting for the engine's completion.
    Wait,
}

impl Backend {
    /// The backend takes a frame one unit at a time.
    pub open spec fn unit_by_unit(self) -> bool {
        self == Backend::BitBangedSerial
    }

    /// Whether the backend takes a frame one unit at a time, rather than
    /// as a whole.
    pub fn writes_unit_by_unit(self) -> (b: bool)
        ensures
            b == self.unit_by_unit(),
    {
        match self {
            Backend::BitBangedSerial => true,
            Backend::DmaSerial => false,
            Backend::PulseGenerator => false,
        }
    }

    /// What the caller does during a transmission: only the DMA transport
    /// suspends it, the other two keep it occupied.
    pub fn scheduling(self) -> (s: Scheduling)
        ensures
            s == (if self == Backend::DmaSerial {
                Scheduling::Suspending
            } else {
                Scheduling::Blocking
            }),
    {
        match self {
            Backend::BitBangedSerial => Scheduling::Blocking,
            Backend::DmaSerial => Scheduling::Suspending,
            Backend::PulseGenerator => Scheduling::Blocking,
        }
    }
}

/// What is known of an idle channel.
pub struct ChannelView {
    pub id: u8,
    pub backend: Backend,
}

/// What is known of a frame in flight.
pub struct TransferView {
    pub channel: ChannelView,
    /// Units of the frame.
    pub units: nat,
    /// Units that the peripheral has taken so far.
    pub sent: nat,
}

/// Where a transmission stands.
pub enum ProgressView {
    Busy(TransferView, Command),
    Done(ChannelView),
    Failed(TransmissionFault, ChannelView),
}

/// The command that asks for the next step of a transfer after the
/// peripheral was not ready: the same unit again, or more waiting.
pub open spec fn retry(transfer: TransferView) -> Command {
    if transfer.channel.backend.unit_by_unit() {
        Command::Write { index: transfer.sent as usize }
    } else {
        Command::Wait
    }
}

/// The start of a transmission of `units` units on an idle channel.
pub open spec fn begun(channel: ChannelView, units: nat) -> ProgressView {
    let transfer = TransferView { channel, units, sent: 0 };
    if units == 0 {
        ProgressView::Done(channel)
    } else if channel.backend.unit_by_unit() {
        ProgressView::Busy(transfer, Command::Write { index: 0 })
    } else {
        ProgressView::Busy(transfer, Command::Submit { units: units as usize })
    }
}

/// Where a transfer stands after one report from the peripheral. A fault
/// ends it at once. While the peripheral is not ready nothing moves. An
/// accepted unit moves on to the next one, and the frame is done when the
/// last unit, or the frame handed over as a whole, is accepted.
pub open spec fn reported(transfer: TransferView, report: Report) -> ProgressView {
    match report {
        Report::Fault(fault) => ProgressView::Failed(fault, transfer.channel),
        Report::WouldBlock => ProgressView::Busy(transfer, retry(transfer)),
        Report::Accepted => if transfer.channel.backend.unit_by_unit() && transfer.sent + 1
            < transfer.units {
            let next = TransferView { sent: transfer.sent + 1, ..transfer };
            ProgressView::Busy(next, Command::Write { index: next.sent as usize })
        } else {
            ProgressView::Done(transfer.channel)
        },
    }
}

/// Where a transmission stands after one more report: a transmission that
/// is over stays as it ended.
pub open spec fn advanced(progress: ProgressView, report: Report) -> ProgressView {
    match progress {
        ProgressView::Busy(transfer, _) => reported(transfer, report),
        _ => progress,
    }
}

/// Where a transmission stands after a sequence of reports.
pub open spec fn run(progress: ProgressView, reports: Seq<Report>) -> ProgressView
    decreases reports.len(),
{
    if reports.len() == 0 {
        progress
    } else {
        advanced(run(progress, reports.drop_last()), reports.last())
    }
}

/// Number of accepted units among the reports.
pub open spec fn accepted(reports: Seq<Report>) -> nat
    decreases reports.len(),
{
    if reports.len() == 0 {
        0
    } else {
        accepted(reports.drop_last()) + (if reports.last() == Report::Accepted {
            1nat
        } else {
            0nat
        })
    }
}

/// No report is a fault.
pub open spec fn fault_free(reports: Seq<Report>) -> bool {
    forall|i: int| 0 <= i < reports.len() ==> !(#[trigger] reports[i] is Fault)
}

/// A transport that takes its frame unit by unit is asked for the units in
/// order: while no fault is reported, the next unit to write is the one
/// after those that were accepted, however often the peripheral was not
/// ready in between.
pub proof fn lemma_units_in_order(channel: ChannelView, units: nat, reports: Seq<Report>)
    requires
        channel.backend.unit_by_unit(),
        units <= usize::MAX,
        fault_free(reports),
        accepted(reports) < units,
    ensures
        run(begun(channel, units), reports) == ProgressView::Busy(
            TransferView { channel, units, sent: accepted(reports) },
            Command::Write { index: accepted(reports) as usize },
        ),
    decreases reports.len(),
{
    if reports.len() > 0 {
        let before = reports.drop_last();
        assert forall|i: int| 0 <= i < before.len() implies !(#[trigger] before[i] is Fault) by {
            assert(before[i] == reports[i]);
        }
        lemma_units_in_order(channel, units, before);
        assert(!(reports[reports.len() - 1] is Fault));
    }
}

/// The frame is done exactly when its last unit is accepted.
pub proof fn lemma_last_unit_completes(channel: ChannelView, units: nat, reports: Seq<Report>)
    requires
        channel.backend.unit_by_unit(),
        units <= usize::MAX,
        fault_free(reports),
        accepted(reports) + 1 == units,
    ensures
        run(begun(channel, units), reports.push(Report::Accepted)) == ProgressView::Done(channel),
{
    lemma_units_in_order(channel, units, reports);
    assert(reports.push(Report::Accepted).drop_last() =~= reports);
}

/// A transport that takes its frame as a whole is handed the frame once:
/// until the engine reports, the driver only waits, and the first accepted
/// report ends the transmission.
pub proof fn lemma_whole_frame(channel: ChannelView, units: nat, reports: Seq<Report>)
    requires
        !channel.backend.unit_by_unit(),
        0 < units <= usize::MAX,
        forall|i: int| 0 <= i < reports.len() ==> #[trigger] reports[i] == Report::WouldBlock,
    ensures
        run(begun(channel, units), reports) == ProgressView::Busy(
            TransferView { channel, units, sent: 0 },
            if reports.len() == 0 {
                Command::Submit { units: units as usize }
            } else {
                Command::Wait
            },
        ),
        run(begun(channel, units), reports.push(Report::Accepted)) == ProgressView::Done(channel),
    decreases reports.len(),
{
    if reports.len() > 0 {
        let before = reports.drop_last();
        assert forall|i: int| 0 <= i < before.len() implies #[trigger] before[i]
            == Report::WouldBlock by {
            assert(before[i] == reports[i]);
        }
        lemma_whole_frame(channel, units, before);
        assert(reports[reports.len() - 1] == Report::WouldBlock);
    }
    assert(reports.push(Report::Accepted).drop_last() =~= reports);
}

/// A fault ends the transmission in flight at once, whatever the transport.
pub proof fn lemma_fault_ends_transfer(progress: ProgressView, fault: TransmissionFault)
    requires
        progress is Busy,
    ensures
        advanced(progress, Report::Fault(fault)) == ProgressView::Failed(fault, progress->Busy_0.channel),
{
}

/// A transmission that is over stays as it ended: after a fault nothing is
/// retried, and a finished frame is not sent again.
pub proof fn lemma_over_is_final(progress: ProgressView, reports: Seq<Report>)
    requires
        !(progress is Busy),
    ensures
        run(progress, reports) == progress,
    decreases reports.len(),
{
    if reports.len() > 0 {
        lemma_over_is_final(progress, reports.drop_last());
    }
}

/// Reports can be taken in one go or in two.
pub proof fn lemma_run_split(progress: ProgressView, first: Seq<Report>, second: Seq<Report>)
    ensures
        run(progress, first + second) == run(run(progress, first), second),
    decreases second.len(),
{
    if second.len() == 0 {
        assert(first + second =~= first);
    } else {
        lemma_run_split(progress, first, second.drop_last());
        assert((first + second).drop_last() =~= first + second.drop_last());
        assert((first + second).last() == second.last());
    }
}

/// Once a transmission has ended, by its last unit or by a fault, no later
/// report brings it back to life.
pub proof fn lemma_nothing_after_the_end(
    progress: ProgressView,
    first: Seq<Report>,
    second: Seq<Report>,
)
    requires
        !(run(progress, first) is Busy),
    ensures
        run(progress, first + second) == run(progress, first),
{
    lemma_run_split(progress, first, second);
    lemma_over_is_final(run(progress, first), second);
}

/// An idle channel: configured, owned by one holder, ready to transmit.
#[derive(Debug, PartialEq, Eq)]
pub struct Channel {
    id: u8,
    backend: Backend,
}

impl View for Channel {
    type V = ChannelView;

    closed spec fn view(&self) -> ChannelView {
        ChannelView { id: self.id, backend: self.backend }
    }
}

/// A frame in flight. It holds the channel until the frame is out or has
/// failed, so that no second frame can start on it meanwhile.
#[derive(Debug, PartialEq, Eq)]
pub struct Transfer {
    channel: Channel,
    units: usize,
    sent: usize,
}

impl View for Transfer {
    type V = TransferView;

    closed spec fn view(&self) -> TransferView {
        TransferView { channel: self.channel@, units: self.units as nat, sent: self.sent as nat }
    }
}

/// Where a transmission stands, with what the driver holds meanwhile.
#[derive(Debug, PartialEq, Eq)]
pub enum Progress {
    /// The frame is in flight, and the command says what to do next.
    Busy(Transfer, Command),
    /// The frame is out and the channel is idle again.
    Done(Channel),
    /// The transmission failed, and the frame is lost.
    Failed(TransmissionFault, Channel),
}

impl View for Progress {
    type V = ProgressView;

    open spec fn view(&self) -> ProgressView {
        match *self {
            Progress::Busy(transfer, command) => ProgressView::Busy(transfer@, command),
            Progress::Done(channel) => ProgressView::Done(channel@),
            Progress::Failed(fault, channel) => ProgressView::Failed(fault, channel@),
        }
    }
}

impl Channel {
    /// Number of the physical channel.
    pub fn id(&self) -> (id: u8)
        ensures
            id == self@.id,
    {
        self.id
    }

    /// The transport behind the channel.
    pub fn backend(&self) -> (backend: Backend)
        ensures
            backend == self@.backend,
    {
        self.backend
    }

    /// Starts the transmission of a frame of `units` units. The channel is
    /// given up for the time of the transmission.
    pub fn begin_transfer(self, units: usize) -> (progress: Progress)
        ensures
            progress@ == begun(self@, units as nat),
    {
        if units == 0 {
            Progress::Done(self)
        } else if self.backend.writes_unit_by_unit() {
            Progress::Busy(Transfer { channel: self, units, sent: 0 }, Command::Write { index: 0 })
        } else {
            Progress::Busy(Transfer { channel: self, units, sent: 0 }, Command::Submit { units })
        }
    }
}

impl Transfer {
    #[verifier::type_invariant]
    spec fn in_flight(self) -> bool {
        self.sent < self.units
    }

    /// Units of the frame in flight.
    pub fn units(&self) -> (units: usize)
        ensures
            units == self@.units,
    {
        self.units
    }

    /// Units that the peripheral has taken so far.
    pub fn sent(&self) -> (sent: usize)
        ensures
            sent == self@.sent,
            sent < self@.units,
    {
        proof {
            use_type_invariant(self);
        }
        self.sent
    }

    /// Takes the peripheral's report on the last command and decides how
    /// the transmission goes on.
    pub fn report(self, report: Report) -> (progress: Progress)
        ensures
            progress@ == reported(self@, report),
    {
        proof {
            use_type_invariant(&self);
        }
        match report {
            Report::Fault(fault) => Progress::Failed(fault, self.channel),
            Report::WouldBlock => {
                let command = if self.channel.backend.writes_unit_by_unit() {
                    Command::Write { index: self.sent }
                } else {
                    Command::Wait
                };
                Progress::Busy(self, command)
            },
            Report::Accepted => {
                if self.channel.backend.writes_unit_by_unit() && self.sent + 1 < self.units {
                    let next: usize = self.sent + 1;
                    Progress::Busy(
                        Transfer { channel: self.channel, units: self.units, sent: next },
                        Command::Write { index: next },
                    )
                } else {
                    Progress::Done(self.channel)
                }
            },
        }
    }
}

/// The `N` channels of a peripheral, and which of them are handed out. A
/// channel is handed out to one holder at a time.
#[derive(Debug)]
pub struct Registry<const N: usize> {
    taken: [bool; N],
}

impl<const N: usize> View for Registry<N> {
    type V = Seq<bool>;

    closed spec fn view(&self) -> Seq<bool> {
        self.taken@
    }
}

impl<const N: usize> Registry<N> {
    /// The registry of a peripheral, with all of its channels free.
    pub fn new() -> (registry: Registry<N>)
        ensures
            registry@ == Seq::new(N as nat, |i: int| false),
    {
        let taken: [bool; N] = [false; N];
        assert(taken@ =~= Seq::new(N as nat, |i: int| false));
        Registry { taken }
    }

    /// Hands out channel `id` for the given transport. The result is
    /// `None`, and nothing changes, when there is no such channel or when
    /// it is handed out already.
    pub fn claim(&mut self, id: u8, backend: Backend) -> (channel: Option<Channel>)
        ensures
            match channel {
                Some(c) => {
                    &&& id < old(self)@.len()
                    &&& !old(self)@[id as int]
                    &&& final(self)@ == old(self)@.update(id as int, true)
                    &&& c@ == (ChannelView { id, backend })
                },
                None => {
                    &&& id >= old(self)@.len() || old(self)@[id as int]
                    &&& final(self)@ == old(self)@
                },
            },
    {
        let at: usize = id as usize;
        if at >= N || self.taken[at] {
            return None;
        }
        self.taken[at] = true;
        assert(self.taken@ =~= old(self).taken@.update(id as int, true));
        Some(Channel { id, backend })
    }

    /// Takes an idle channel back, so that it can be handed out again.
    pub fn release(&mut self, channel: Channel)
        ensures
            channel@.id < old(self)@.len() ==> final(self)@ == old(self)@.update(
                channel@.id as int,
                false,
            ),
            channel@.id >= old(self)@.len() ==> final(self)@ == old(self)@,
    {
        let at: usize = channel.id as usize;
        if at < N {
            self.taken[at] = false;
            assert(self.taken@ =~= old(self).taken@.update(at as int, false));
        }
    }

    /// Whether channel `id` is handed out.
    pub fn is_taken(&self, id: u8) -> (taken: bool)
        ensures
            taken == (id < self@.len() && self@[id as int]),
    {
        let at: usize = id as usize;
        at < N && self.taken[at]
    }
}

} // verus!
