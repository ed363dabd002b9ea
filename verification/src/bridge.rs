//! The decisions of the bridge between an SSH channel and a terminal.
//!
//! The bridge itself does no I/O: it is told what happened and answers what to
//! do. [`Bridge`] is the session's main loop and its shutdown;
//! [`OutboundRelay`] is the loop that reads the terminal.
use vstd::prelude::*;

use crate::pty_filter::{ConPtyOutboundFilter, FilterModel};
use crate::shell::Platform;
use crate::window::PtySize;

verus! {

/// Where a bridge stands.
#[derive(Debug, Clone, Copy, PartialEq, Eq, Structural)]
pub enum Phase {
    /// Data goes back and forth.
    Relaying,
    /// The relay is over, but the end of the program was not seen yet.
    Leaving,
    /// The relay is over and the exit code is settled.
    Closing,
    /// The program could not be waited for; the session ends with an error.
    Failed,
}

/// What became of the program, asked once the relay is over.
#[derive(Debug, Clone, Copy, PartialEq, Eq, Structural)]
pub enum LateStatus {
    /// It still runs.
    Running,
    /// It ended with this code.
    Exited(u32),
    /// It ended, but its code could not be had.
    Unknown,
}

/// Why a session ends with an error.
#[derive(Debug, Clone, Copy, PartialEq, Eq, Structural)]
pub enum BridgeFailure {
    /// The task that waits for the program broke down.
    JoinFailed,
    /// Waiting for the program failed.
    WaitFailed,
}

/// Something that happened around the bridge.
#[derive(Debug)]
pub enum BridgeEvent {
    /// The program ended with this code.
    ChildExited(u32),
    /// The task that waits for the program broke down.
    ChildJoinFailed,
    /// Waiting for the program failed.
    ChildWaitFailed,
    /// The client sent data.
    ClientData(Vec<u8>),
    /// The client will send no more data.
    ClientEof,
    /// The client closed the channel.
    ClientClose,
    /// The channel is gone.
    ClientGone,
    /// The client sent something that does not concern the bridge.
    ClientOther,
    /// The terminal has output.
    PtyOutput(Vec<u8>),
    /// The terminal will have no more output.
    PtyClosed,
    /// The client's window changed.
    Resized(PtySize),
    /// No more window changes will come.
    ResizeClosed,
    /// Data for the terminal could not be handed on.
    FeedFailed,
    /// Data for the client could not be sent.
    SendFailed,
    /// The answer to [`BridgeAction::CheckChild`].
    ChildChecked(LateStatus),
}

/// What to do next.
#[derive(Debug)]
pub enum BridgeAction {
    /// Wait for the next event.
    Wait,
    /// Hand these bytes to the terminal.
    FeedPty(Vec<u8>),
    /// Send these bytes to the client.
    SendClient(Vec<u8>),
    /// Give the terminal this size.
    ResizePty(PtySize),
    /// Look whether the program has ended.
    CheckChild,
    /// Shut down, in the order of [`Bridge::closing_steps`].
    Close,
    /// End the session with an error.
    Fail(BridgeFailure),
}

/// One step of the shutdown.
#[derive(Debug, Clone, Copy, PartialEq, Eq, Structural)]
pub enum CloseStep {
    /// Stop waiting for the program.
    AbortChild,
    /// Tell the loop that reads the terminal to stop.
    StopReader,
    /// Close the terminal's input.
    CloseInput,
    /// Wait for the loop that reads the terminal.
    JoinReader,
    /// Wait for the loop that writes to the terminal.
    JoinWriter,
    /// Drop the output that was not sent.
    DiscardOutput,
    /// Tell the client the exit code.
    ReportExit(u32),
    /// Tell the client that no more data comes.
    SendEof,
    /// Close the channel.
    SendClose,
}

/// State of a bridge.
#[derive(Debug, Clone, Copy, PartialEq, Eq, Structural)]
pub struct Bridge {
    pub phase: Phase,
    /// The code to report; 0 until the program's own is known.
    pub exit_code: u32,
    /// The program was still running when the relay ended.
    pub abort_child: bool,
}

/// A bridge that has just begun.
pub open spec fn fresh_bridge() -> Bridge {
    Bridge { phase: Phase::Relaying, exit_code: 0, abort_child: false }
}

/// The relay ends at `event`, though the program's end was not seen.
pub open spec fn ends_relay(event: BridgeEvent) -> bool {
    match event {
        BridgeEvent::ClientEof => true,
        BridgeEvent::ClientClose => true,
        BridgeEvent::ClientGone => true,
        BridgeEvent::PtyClosed => true,
        BridgeEvent::FeedFailed => true,
        BridgeEvent::SendFailed => true,
        _ => false,
    }
}

/// The exit code that `event` tells, if it tells one.
pub open spec fn told_code(event: BridgeEvent) -> Option<u32> {
    match event {
        BridgeEvent::ChildExited(code) => Some(code),
        BridgeEvent::ChildChecked(LateStatus::Exited(code)) => Some(code),
        _ => None,
    }
}

/// The failure that `event` reports, if it reports one.
pub open spec fn failure(event: BridgeEvent) -> Option<BridgeFailure> {
    match event {
        BridgeEvent::ChildJoinFailed => Some(BridgeFailure::JoinFailed),
        BridgeEvent::ChildWaitFailed => Some(BridgeFailure::WaitFailed),
        _ => None,
    }
}

/// The bridge behind `event`.
pub open spec fn next_bridge(bridge: Bridge, event: BridgeEvent) -> Bridge {
    match bridge.phase {
        Phase::Relaying => if event is ChildExited {
            Bridge { phase: Phase::Closing, exit_code: event->ChildExited_0, ..bridge }
        } else if failure(event) is Some {
            Bridge { phase: Phase::Failed, ..bridge }
        } else if ends_relay(event) {
            Bridge { phase: Phase::Leaving, ..bridge }
        } else {
            bridge
        },
        Phase::Leaving => match event {
            BridgeEvent::ChildChecked(status) => Bridge {
                phase: Phase::Closing,
                exit_code: match status {
                    LateStatus::Exited(code) => code,
                    _ => bridge.exit_code,
                },
                abort_child: status is Running,
            },
            _ => bridge,
        },
        _ => bridge,
    }
}

/// What to do about `event`.
pub open spec fn reply(bridge: Bridge, event: BridgeEvent) -> BridgeAction {
    match bridge.phase {
        Phase::Relaying => match event {
            BridgeEvent::ChildExited(_) => BridgeAction::Close,
            BridgeEvent::ClientData(data) => BridgeAction::FeedPty(data),
            BridgeEvent::PtyOutput(data) => BridgeAction::SendClient(data),
            BridgeEvent::Resized(size) => BridgeAction::ResizePty(size),
            _ => if failure(event) is Some {
                BridgeAction::Fail(failure(event)->0)
            } else if ends_relay(event) {
                BridgeAction::CheckChild
            } else {
                BridgeAction::Wait
            },
        },
        Phase::Leaving => if event is ChildChecked {
            BridgeAction::Close
        } else {
            BridgeAction::Wait
        },
        _ => BridgeAction::Wait,
    }
}

/// The shutdown of a bridge, in order.
pub open spec fn shutdown(bridge: Bridge) -> Seq<CloseStep> {
    let abort = if bridge.abort_child {
        seq![CloseStep::AbortChild]
    } else {
        Seq::empty()
    };
    abort + seq![
        CloseStep::StopReader,
        CloseStep::CloseInput,
        CloseStep::JoinReader,
        CloseStep::JoinWriter,
        CloseStep::DiscardOutput,
        CloseStep::ReportExit(bridge.exit_code),
        CloseStep::SendEof,
        CloseStep::SendClose,
    ]
}

impl Bridge {
    /// A bridge that relays and knows no exit code yet.
    pub fn new() -> (bridge: Self)
        ensures
            bridge == fresh_bridge(),
    {
        Bridge { phase: Phase::Relaying, exit_code: 0, abort_child: false }
    }

    /// Takes in what happened and answers what to do about it.
    pub fn step(&mut self, event: BridgeEvent) -> (action: BridgeAction)
        ensures
            *final(self) == next_bridge(*old(self), event),
            action == reply(*old(self), event),
    {
        match self.phase {
            Phase::Relaying => match event {
                BridgeEvent::ChildExited(code) => {
                    self.exit_code = code;
                    self.phase = Phase::Closing;
                    BridgeAction::Close
                },
                BridgeEvent::ChildJoinFailed => {
                    self.phase = Phase::Failed;
                    BridgeAction::Fail(BridgeFailure::JoinFailed)
                },
                BridgeEvent::ChildWaitFailed => {
                    self.phase = Phase::Failed;
                    BridgeAction::Fail(BridgeFailure::WaitFailed)
                },
                BridgeEvent::ClientData(data) => BridgeAction::FeedPty(data),
                BridgeEvent::PtyOutput(data) => BridgeAction::SendClient(data),
                BridgeEvent::Resized(size) => BridgeAction::ResizePty(size),
                BridgeEvent::ClientEof
                | BridgeEvent::ClientClose
                | BridgeEvent::ClientGone
                | BridgeEvent::PtyClosed
                | BridgeEvent::FeedFailed
                | BridgeEvent::SendFailed => {
                    self.phase = Phase::Leaving;
                    BridgeAction::CheckChild
                },
                BridgeEvent::ClientOther
                | BridgeEvent::ResizeClosed
                | BridgeEvent::ChildChecked(_) => BridgeAction::Wait,
            },
            Phase::Leaving => match event {
                BridgeEvent::ChildChecked(status) => {
                    self.abort_child = false;
                    match status {
                        LateStatus::Running => {
                            self.abort_child = true;
                        },
                        LateStatus::Exited(code) => {
                            self.exit_code = code;
                        },
                        LateStatus::Unknown => {},
                    }
                    self.phase = Phase::Closing;
                    BridgeAction::Close
                },
                _ => BridgeAction::Wait,
            },
            Phase::Closing | Phase::Failed => BridgeAction::Wait,
        }
    }

    /// The steps of the shutdown, in the order in which to take them.
    pub fn closing_steps(&self) -> (steps: Vec<CloseStep>)
        ensures
            steps@ == shutdown(*self),
    {
        let mut steps: Vec<CloseStep> = Vec::new();
        if self.abort_child {
            steps.push(CloseStep::AbortChild);
        }
        steps.push(CloseStep::StopReader);
        steps.push(CloseStep::CloseInput);
        steps.push(CloseStep::JoinReader);
        steps.push(CloseStep::JoinWriter);
        steps.push(CloseStep::DiscardOutput);
        steps.push(CloseStep::ReportExit(self.exit_code));
        steps.push(CloseStep::SendEof);
        steps.push(CloseStep::SendClose);
        assert(steps@ =~= shutdown(*self));
        steps
    }
}

/// The bridge behind a series of events.
pub open spec fn run(bridge: Bridge, events: Seq<BridgeEvent>) -> Bridge
    decreases events.len(),
{
    if events.len() == 0 {
        bridge
    } else {
        run(next_bridge(bridge, events[0]), events.skip(1))
    }
}

/// The bytes that an action hands to the client.
pub open spec fn to_client(action: BridgeAction) -> Seq<u8> {
    match action {
        BridgeAction::SendClient(data) => data@,
        _ => Seq::empty(),
    }
}

/// The bytes that an action hands to the terminal.
pub open spec fn to_pty(action: BridgeAction) -> Seq<u8> {
    match action {
        BridgeAction::FeedPty(data) => data@,
        _ => Seq::empty(),
    }
}

/// All that the client is sent over a series of events.
pub open spec fn client_stream(bridge: Bridge, events: Seq<BridgeEvent>) -> Seq<u8>
    decreases events.len(),
{
    if events.len() == 0 {
        Seq::empty()
    } else {
        to_client(reply(bridge, events[0])) + client_stream(
            next_bridge(bridge, events[0]),
            events.skip(1),
        )
    }
}

/// All that the terminal is fed over a series of events.
pub open spec fn pty_stream(bridge: Bridge, events: Seq<BridgeEvent>) -> Seq<u8>
    decreases events.len(),
{
    if events.len() == 0 {
        Seq::empty()
    } else {
        to_pty(reply(bridge, events[0])) + pty_stream(
            next_bridge(bridge, events[0]),
            events.skip(1),
        )
    }
}

/// The output of the terminal over a series of events.
pub open spec fn output_of(events: Seq<BridgeEvent>) -> Seq<u8>
    decreases events.len(),
{
    if events.len() == 0 {
        Seq::empty()
    } else {
        (match events[0] {
            BridgeEvent::PtyOutput(data) => data@,
            _ => Seq::empty(),
        }) + output_of(events.skip(1))
    }
}

/// The data of the client over a series of events.
pub open spec fn input_of(events: Seq<BridgeEvent>) -> Seq<u8>
    decreases events.len(),
{
    if events.len() == 0 {
        Seq::empty()
    } else {
        (match events[0] {
            BridgeEvent::ClientData(data) => data@,
            _ => Seq::empty(),
        }) + input_of(events.skip(1))
    }
}

/// How many of a series of events find the bridge relaying.
pub open spec fn relayed_events(bridge: Bridge, events: Seq<BridgeEvent>) -> nat
    decreases events.len(),
{
    if events.len() == 0 || bridge.phase != Phase::Relaying {
        0
    } else {
        1 + relayed_events(next_bridge(bridge, events[0]), events.skip(1))
    }
}

/// As long as the relay goes on, the client gets the terminal's output and the
/// terminal the client's data: all of it, in order, and nothing else, neither
/// then nor later.
pub proof fn law_relay_is_faithful(bridge: Bridge, events: Seq<BridgeEvent>)
    ensures
        relayed_events(bridge, events) <= events.len(),
        run(bridge, events).phase == Phase::Relaying ==> relayed_events(bridge, events)
            == events.len(),
        client_stream(bridge, events) == output_of(
            events.take(relayed_events(bridge, events) as int),
        ),
        pty_stream(bridge, events) == input_of(events.take(relayed_events(bridge, events) as int)),
    decreases events.len(),
{
    let n = relayed_events(bridge, events) as int;
    if bridge.phase != Phase::Relaying {
        law_silent_after_the_end(bridge, events);
        law_no_way_back(bridge, events);
    } else if events.len() > 0 {
        let rest = events.skip(1);
        law_relay_is_faithful(next_bridge(bridge, events[0]), rest);
        let taken = events.take(n);
        assert(taken[0] == events[0]);
        assert(taken.skip(1) =~= rest.take(n - 1));
    }
}

/// A bridge that has stopped relaying never starts again.
pub proof fn law_no_way_back(bridge: Bridge, events: Seq<BridgeEvent>)
    requires
        bridge.phase != Phase::Relaying,
    ensures
        run(bridge, events).phase != Phase::Relaying,
    decreases events.len(),
{
    if events.len() > 0 {
        law_no_way_back(next_bridge(bridge, events[0]), events.skip(1));
    }
}

/// Once the client has disconnected, or the relay is over for another reason,
/// nothing is sent to the client and nothing is fed to the terminal, whatever
/// still happens.
pub proof fn law_silent_after_the_end(bridge: Bridge, events: Seq<BridgeEvent>)
    requires
        bridge.phase != Phase::Relaying,
    ensures
        client_stream(bridge, events) == Seq::<u8>::empty(),
        pty_stream(bridge, events) == Seq::<u8>::empty(),
    decreases events.len(),
{
    if events.len() > 0 {
        law_silent_after_the_end(next_bridge(bridge, events[0]), events.skip(1));
        assert(client_stream(bridge, events) =~= Seq::<u8>::empty());
        assert(pty_stream(bridge, events) =~= Seq::<u8>::empty());
    }
}

/// A relay ends in one of three ways, and the answer says which: the program's
/// end closes the session, a failed wait is an error, and behind everything
/// else the program is looked after first.
pub proof fn law_every_end_is_answered(bridge: Bridge, event: BridgeEvent)
    requires
        bridge.phase == Phase::Relaying,
    ensures
        reply(bridge, event) is Close <==> next_bridge(bridge, event).phase == Phase::Closing,
        reply(bridge, event) is CheckChild <==> next_bridge(bridge, event).phase == Phase::Leaving,
        reply(bridge, event) is Fail <==> next_bridge(bridge, event).phase == Phase::Failed,
{
}

/// When the program ends, the session closes at once, without waiting for the
/// client, and the client is told the program's own exit code.
pub proof fn law_exit_closes_at_once(bridge: Bridge, code: u32)
    requires
        bridge.phase == Phase::Relaying,
    ensures
        reply(bridge, BridgeEvent::ChildExited(code)) == BridgeAction::Close,
        shutdown(next_bridge(bridge, BridgeEvent::ChildExited(code))).contains(
            CloseStep::ReportExit(code),
        ),
{
    let steps = shutdown(next_bridge(bridge, BridgeEvent::ChildExited(code)));
    assert(steps[steps.len() - 3] == CloseStep::ReportExit(code));
}

/// The exit code is 0 unless an event told another: what is reported is the
/// code of an event, or 0.
pub proof fn law_exit_code_is_not_made_up(events: Seq<BridgeEvent>)
    ensures
        ({
            let code = run(fresh_bridge(), events).exit_code;
            code == 0 || exists|i: int|
                0 <= i < events.len() && told_code(#[trigger] events[i]) == Some(code)
        }),
{
    lemma_code_source(fresh_bridge(), events);
}

proof fn lemma_code_source(bridge: Bridge, events: Seq<BridgeEvent>)
    ensures
        ({
            let code = run(bridge, events).exit_code;
            code == bridge.exit_code || exists|i: int|
                0 <= i < events.len() && told_code(#[trigger] events[i]) == Some(code)
        }),
    decreases events.len(),
{
    if events.len() > 0 {
        let next = next_bridge(bridge, events[0]);
        let rest = events.skip(1);
        lemma_code_source(next, rest);
        let code = run(next, rest).exit_code;
        if code == next.exit_code {
            if next.exit_code != bridge.exit_code {
                assert(told_code(events[0]) == Some(code));
            }
        } else {
            let i = choose|i: int| 0 <= i < rest.len() && told_code(#[trigger] rest[i]) == Some(code);
            assert(told_code(events[i + 1]) == Some(code));
        }
    }
}

/// Whatever ended the relay, the client is told the exit code, then that no
/// more data comes, then that the channel closes, and by then the loops that
/// serve the terminal are done.
pub proof fn law_shutdown_order(bridge: Bridge)
    ensures
        ({
            let steps = shutdown(bridge);
            let n = steps.len() as int;
            &&& n >= 8
            &&& steps[n - 1] == CloseStep::SendClose
            &&& steps[n - 2] == CloseStep::SendEof
            &&& steps[n - 3] == CloseStep::ReportExit(bridge.exit_code)
            &&& steps.take(n - 3).contains(CloseStep::JoinReader)
            &&& steps.take(n - 3).contains(CloseStep::JoinWriter)
        }),
{
    let steps = shutdown(bridge);
    let n = steps.len() as int;
    assert(steps.take(n - 3)[n - 6] == CloseStep::JoinReader);
    assert(steps.take(n - 3)[n - 5] == CloseStep::JoinWriter);
}

/// What a call of [`Bridge::step`] does is what the laws on sessions speak of.
pub proof fn law_step_of_a_session(bridge: &mut Bridge, event: BridgeEvent, action: BridgeAction)
    requires
        call_ensures(Bridge::step, (bridge, event), action),
    ensures
        *final(bridge) == next_bridge(*old(bridge), event),
        action == reply(*old(bridge), event),
{
}

/// As long as nothing has ended the relay, a session remembers nothing.
proof fn lemma_relaying(
    states: Seq<Bridge>,
    events: Seq<BridgeEvent>,
    actions: Seq<BridgeAction>,
    n: int,
)
    requires
        states.len() == events.len() + 1,
        actions.len() == events.len(),
        states[0] == fresh_bridge(),
        forall|k: int|
            0 <= k < events.len() ==> {
                &&& states[k + 1] == next_bridge(states[k], #[trigger] events[k])
                &&& actions[k] == reply(states[k], events[k])
            },
        0 <= n <= events.len(),
        forall|k: int|
            0 <= k < n ==> next_bridge(fresh_bridge(), #[trigger] events[k]).phase
                == Phase::Relaying,
    ensures
        states[n] == fresh_bridge(),
    decreases n,
{
    if n > 0 {
        lemma_relaying(states, events, actions, n - 1);
        assert(states[n] == next_bridge(states[n - 1], events[n - 1]));
    }
}

/// Once a session is closing, nothing changes it.
proof fn lemma_settled(
    states: Seq<Bridge>,
    events: Seq<BridgeEvent>,
    actions: Seq<BridgeAction>,
    i: int,
    j: int,
)
    requires
        states.len() == events.len() + 1,
        actions.len() == events.len(),
        forall|k: int|
            0 <= k < events.len() ==> {
                &&& states[k + 1] == next_bridge(states[k], #[trigger] events[k])
                &&& actions[k] == reply(states[k], events[k])
            },
        0 <= i <= j <= events.len(),
        states[i].phase == Phase::Closing || states[i].phase == Phase::Failed,
    ensures
        states[j] == states[i],
    decreases j - i,
{
    if i < j {
        lemma_settled(states, events, actions, i, j - 1);
        assert(states[j] == next_bridge(states[j - 1], events[j - 1]));
    }
}

/// Between the end of the relay and the answer about the program, nothing
/// changes a session.
proof fn lemma_leaving(
    states: Seq<Bridge>,
    events: Seq<BridgeEvent>,
    actions: Seq<BridgeAction>,
    i: int,
    j: int,
)
    requires
        states.len() == events.len() + 1,
        actions.len() == events.len(),
        forall|k: int|
            0 <= k < events.len() ==> {
                &&& states[k + 1] == next_bridge(states[k], #[trigger] events[k])
                &&& actions[k] == reply(states[k], events[k])
            },
        0 <= i <= j <= events.len(),
        states[i].phase == Phase::Leaving,
        forall|k: int| i <= k < j ==> !((#[trigger] events[k]) is ChildChecked),
    ensures
        states[j] == states[i],
    decreases j - i,
{
    if i < j {
        lemma_leaving(states, events, actions, i, j - 1);
        assert(states[j] == next_bridge(states[j - 1], events[j - 1]));
    }
}

/// A session, from its beginning on, until the program ends, waiting for it
/// fails, the client or the terminal is done, or data cannot be delivered:
/// every piece of the client's data is fed to the terminal, every piece of the
/// terminal's output is sent to the client, and every new size is given to the
/// terminal, as it came, when it came, and nothing else is. So all of it
/// arrives, in order. The event that ends the relay is answered by what ended it.
pub proof fn law_session_relays_everything(
    states: Seq<Bridge>,
    events: Seq<BridgeEvent>,
    actions: Seq<BridgeAction>,
    i: int,
)
    requires
        states.len() == events.len() + 1,
        actions.len() == events.len(),
        call_ensures(Bridge::new, (), states[0]),
        forall|k: int|
            0 <= k < events.len() ==> {
                &&& states[k + 1] == next_bridge(states[k], #[trigger] events[k])
                &&& actions[k] == reply(states[k], events[k])
            },
        0 <= i < events.len(),
        forall|k: int|
            0 <= k < i ==> !((#[trigger] events[k]) is ChildExited || events[k] is ChildJoinFailed
                || events[k] is ChildWaitFailed || events[k] is ClientEof || events[k] is ClientClose
                || events[k] is ClientGone || events[k] is PtyClosed || events[k] is FeedFailed
                || events[k] is SendFailed),
    ensures
        events[i] is ClientData <==> actions[i] is FeedPty,
        events[i] is ClientData ==> events[i]->ClientData_0 == actions[i]->FeedPty_0,
        events[i] is PtyOutput <==> actions[i] is SendClient,
        events[i] is PtyOutput ==> events[i]->PtyOutput_0 == actions[i]->SendClient_0,
        events[i] is Resized <==> actions[i] is ResizePty,
        events[i] is Resized ==> events[i]->Resized_0 == actions[i]->ResizePty_0,
        events[i] is ChildExited <==> actions[i] is Close,
        events[i] is ChildJoinFailed <==> actions[i] == BridgeAction::Fail(
            BridgeFailure::JoinFailed,
        ),
        events[i] is ChildWaitFailed <==> actions[i] == BridgeAction::Fail(
            BridgeFailure::WaitFailed,
        ),
        actions[i] is CheckChild <==> events[i] is ClientEof || events[i] is ClientClose
            || events[i] is ClientGone || events[i] is PtyClosed || events[i] is FeedFailed
            || events[i] is SendFailed,
        actions[i] is Wait <==> events[i] is ClientOther || events[i] is ResizeClosed
            || events[i] is ChildChecked,
{
    lemma_relaying(states, events, actions, i);
    assert(states[i + 1] == next_bridge(states[i], events[i]));
}

/// Once one of those events has ended the relay, nothing is fed to the terminal,
/// sent to the client or resized any more, whatever still happens; and a
/// session is closed by the program's end, or by the answer about the program,
/// once and not again.
pub proof fn law_session_is_silent_after_its_end(
    states: Seq<Bridge>,
    events: Seq<BridgeEvent>,
    actions: Seq<BridgeAction>,
    i: int,
    j: int,
)
    requires
        states.len() == events.len() + 1,
        actions.len() == events.len(),
        call_ensures(Bridge::new, (), states[0]),
        forall|k: int|
            0 <= k < events.len() ==> {
                &&& states[k + 1] == next_bridge(states[k], #[trigger] events[k])
                &&& actions[k] == reply(states[k], events[k])
            },
        0 <= i < j < events.len(),
        forall|k: int|
            0 <= k < i ==> !((#[trigger] events[k]) is ChildExited || events[k] is ChildJoinFailed
                || events[k] is ChildWaitFailed || events[k] is ClientEof || events[k] is ClientClose
                || events[k] is ClientGone || events[k] is PtyClosed || events[k] is FeedFailed
                || events[k] is SendFailed),
        events[i] is ChildExited || events[i] is ChildJoinFailed || events[i] is ChildWaitFailed
            || events[i] is ClientEof || events[i] is ClientClose || events[i] is ClientGone
            || events[i] is PtyClosed || events[i] is FeedFailed || events[i] is SendFailed,
    ensures
        actions[j] is Wait || actions[j] is Close,
        actions[j] is Close <==> {
            &&& events[j] is ChildChecked
            &&& !(events[i] is ChildExited || events[i] is ChildJoinFailed
                || events[i] is ChildWaitFailed)
            &&& forall|k: int| i < k < j ==> !((#[trigger] events[k]) is ChildChecked)
        },
{
    lemma_relaying(states, events, actions, i);
    assert(states[i + 1] == next_bridge(states[i], events[i]));
    assert(states[j + 1] == next_bridge(states[j], events[j]));
    if states[i + 1].phase != Phase::Leaving {
        lemma_settled(states, events, actions, i + 1, j);
    } else if forall|k: int| i < k < j ==> !((#[trigger] events[k]) is ChildChecked) {
        lemma_leaving(states, events, actions, i + 1, j);
    } else {
        let m = first_check(events, i + 1, j);
        lemma_first_check(events, i + 1, j);
        lemma_leaving(states, events, actions, i + 1, m);
        assert(states[m + 1] == next_bridge(states[m], events[m]));
        lemma_settled(states, events, actions, m + 1, j);
    }
}

/// The first answer about the program in `events`, from `i` on and before `j`;
/// `j` if there is none.
spec fn first_check(events: Seq<BridgeEvent>, i: int, j: int) -> int
    decreases j - i,
{
    if i >= j || events[i] is ChildChecked {
        i
    } else {
        first_check(events, i + 1, j)
    }
}

proof fn lemma_first_check(events: Seq<BridgeEvent>, i: int, j: int)
    requires
        i <= j,
    ensures
        i <= first_check(events, i, j) <= j,
        first_check(events, i, j) < j ==> events[first_check(events, i, j)] is ChildChecked,
        forall|k: int|
            i <= k < first_check(events, i, j) ==> !((#[trigger] events[k]) is ChildChecked),
    decreases j - i,
{
    if i < j && !(events[i] is ChildChecked) {
        lemma_first_check(events, i + 1, j);
    }
}

/// A session that the program's end closes, whatever was relayed before and
/// whatever happens later, stops the loops, drops the unsent output, tells the
/// client the program's own exit code, whatever it is, and closes the channel.
/// The program is left alone.
pub proof fn law_exit_code_of_the_program(
    states: Seq<Bridge>,
    events: Seq<BridgeEvent>,
    actions: Seq<BridgeAction>,
    i: int,
    j: int,
    steps: Vec<CloseStep>,
)
    requires
        states.len() == events.len() + 1,
        actions.len() == events.len(),
        call_ensures(Bridge::new, (), states[0]),
        forall|k: int|
            0 <= k < events.len() ==> {
                &&& states[k + 1] == next_bridge(states[k], #[trigger] events[k])
                &&& actions[k] == reply(states[k], events[k])
            },
        0 <= i < j <= events.len(),
        forall|k: int|
            0 <= k < i ==> !((#[trigger] events[k]) is ChildExited || events[k] is ChildJoinFailed
                || events[k] is ChildWaitFailed || events[k] is ClientEof || events[k] is ClientClose
                || events[k] is ClientGone || events[k] is PtyClosed || events[k] is FeedFailed
                || events[k] is SendFailed),
        events[i] is ChildExited,
        call_ensures(Bridge::closing_steps, (&states[j],), steps),
    ensures
        steps@ == seq![
            CloseStep::StopReader,
            CloseStep::CloseInput,
            CloseStep::JoinReader,
            CloseStep::JoinWriter,
            CloseStep::DiscardOutput,
            CloseStep::ReportExit(events[i]->ChildExited_0),
            CloseStep::SendEof,
            CloseStep::SendClose,
        ],
{
    lemma_relaying(states, events, actions, i);
    assert(states[i + 1] == next_bridge(states[i], events[i]));
    lemma_settled(states, events, actions, i + 1, j);
}

/// A session that ends before the program's end is seen asks once what became of
/// the program. A program that still runs is not waited for; one that has ended
/// gives the exit code; where none is known, the client is told 0. The rest of
/// the shutdown is the same.
pub proof fn law_exit_code_of_a_session_left_early(
    states: Seq<Bridge>,
    events: Seq<BridgeEvent>,
    actions: Seq<BridgeAction>,
    i: int,
    m: int,
    j: int,
    steps: Vec<CloseStep>,
)
    requires
        states.len() == events.len() + 1,
        actions.len() == events.len(),
        call_ensures(Bridge::new, (), states[0]),
        forall|k: int|
            0 <= k < events.len() ==> {
                &&& states[k + 1] == next_bridge(states[k], #[trigger] events[k])
                &&& actions[k] == reply(states[k], events[k])
            },
        0 <= i < m < j <= events.len(),
        forall|k: int|
            0 <= k < i ==> !((#[trigger] events[k]) is ChildExited || events[k] is ChildJoinFailed
                || events[k] is ChildWaitFailed || events[k] is ClientEof || events[k] is ClientClose
                || events[k] is ClientGone || events[k] is PtyClosed || events[k] is FeedFailed
                || events[k] is SendFailed),
        events[i] is ClientEof || events[i] is ClientClose || events[i] is ClientGone
            || events[i] is PtyClosed || events[i] is FeedFailed || events[i] is SendFailed,
        forall|k: int| i < k < m ==> !((#[trigger] events[k]) is ChildChecked),
        events[m] is ChildChecked,
        call_ensures(Bridge::closing_steps, (&states[j],), steps),
    ensures
        ({
            let status = events[m]->ChildChecked_0;
            let code: u32 = if status is Exited {
                status->Exited_0
            } else {
                0
            };
            let ending = seq![
                CloseStep::StopReader,
                CloseStep::CloseInput,
                CloseStep::JoinReader,
                CloseStep::JoinWriter,
                CloseStep::DiscardOutput,
                CloseStep::ReportExit(code),
                CloseStep::SendEof,
                CloseStep::SendClose,
            ];
            if status is Running {
                steps@ == seq![CloseStep::AbortChild] + ending
            } else {
                steps@ == ending
            }
        }),
{
    lemma_relaying(states, events, actions, i);
    assert(states[i + 1] == next_bridge(states[i], events[i]));
    lemma_leaving(states, events, actions, i + 1, m);
    assert(states[m + 1] == next_bridge(states[m], events[m]));
    lemma_settled(states, events, actions, m + 1, j);
}

/// What the client gets of a read.
pub open spec fn relayed(platform: Platform, filter: FilterModel, read: Seq<u8>) -> Seq<u8> {
    match platform {
        Platform::Windows => crate::pty_filter::output(filter, read),
        Platform::Unix => read,
    }
}

/// The filter behind a read.
pub open spec fn filter_behind_read(
    platform: Platform,
    filter: FilterModel,
    read: Seq<u8>,
) -> FilterModel {
    match platform {
        Platform::Windows => crate::pty_filter::filter_behind(filter, read),
        Platform::Unix => filter,
    }
}

/// The loop that reads the terminal and hands its output on to the client.
#[derive(Debug)]
pub struct OutboundRelay {
    pub platform: Platform,
    pub filter: ConPtyOutboundFilter,
    /// The loop is over.
    pub done: bool,
}

impl OutboundRelay {
    /// The filter is sound.
    pub open spec fn wf(&self) -> bool {
        self.filter.wf()
    }

    /// A relay that has read nothing yet.
    pub fn new(platform: Platform) -> (relay: Self)
        ensures
            relay.wf(),
            relay.platform == platform,
            relay.filter@ == crate::pty_filter::fresh_filter(),
            !relay.done,
    {
        OutboundRelay { platform, filter: ConPtyOutboundFilter::new(), done: false }
    }

    /// Whether to read on; a client that has gone ends the loop.
    pub fn before_read(&mut self, client_open: bool) -> (read_on: bool)
        ensures
            *final(self) == (OutboundRelay { done: old(self).done || !client_open, ..*old(self) }),
            read_on == !final(self).done,
    {
        if !client_open {
            self.done = true;
        }
        !self.done
    }

    /// Takes the outcome of a read and returns what to send to the client.
    ///
    /// `None` is a failed read; it ends the loop, and so does a read of no
    /// bytes. A read of which the client gets nothing sends nothing.
    pub fn after_read(&mut self, read: Option<&[u8]>) -> (chunk: Option<Vec<u8>>)
        requires
            old(self).wf(),
        ensures
            final(self).wf(),
            final(self).platform == old(self).platform,
            match read {
                Some(bytes) if bytes@.len() > 0 => {
                    let sent = relayed(old(self).platform, old(self).filter@, bytes@);
                    &&& final(self).done == old(self).done
                    &&& final(self).filter@ == filter_behind_read(old(self).platform, old(self).filter@, bytes@)
                    &&& chunk is Some <==> sent.len() > 0
                    &&& chunk matches Some(data) ==> data@ == sent
                    &&& old(self).platform == Platform::Unix ==> (chunk matches Some(data) && data@
                        == bytes@)
                },
                _ => {
                    &&& *final(self) == (OutboundRelay { done: true, ..*old(self) })
                    &&& chunk is None
                },
            },
    {
        match read {
            Some(bytes) => {
                if bytes.len() == 0 {
                    self.done = true;
                    return None;
                }
                let data = match self.platform {
                    Platform::Windows => self.filter.process(bytes),
                    Platform::Unix => vstd::slice::slice_to_vec(bytes),
                };
                if data.len() == 0 {
                    None
                } else {
                    Some(data)
                }
            },
            None => {
                self.done = true;
                None
            },
        }
    }

    /// Takes whether the last chunk was delivered; if not, the loop is over.
    pub fn after_send(&mut self, delivered: bool)
        ensures
            *final(self) == (OutboundRelay { done: old(self).done || !delivered, ..*old(self) }),
    {
        if !delivered {
            self.done = true;
        }
    }
}

/// How the terminal's output is cut into reads does not matter: two reads give
/// the client what one read of all their bytes gives.
pub proof fn law_reads_can_be_joined(
    platform: Platform,
    filter: FilterModel,
    a: Seq<u8>,
    b: Seq<u8>,
)
    ensures
        relayed(platform, filter, a + b) == relayed(platform, filter, a) + relayed(
            platform,
            filter_behind_read(platform, filter, a),
            b,
        ),
        filter_behind_read(platform, filter, a + b) == filter_behind_read(
            platform,
            filter_behind_read(platform, filter, a),
            b,
        ),
{
    crate::pty_filter::law_split(filter, a, b);
}

/// On Unix every read is sent to the client as it is, byte for byte, whatever it
/// holds and whatever was read before.
pub proof fn law_unix_read_is_sent_unchanged(
    relay: &mut OutboundRelay,
    bytes: &[u8],
    chunk: Option<Vec<u8>>,
)
    requires
        call_ensures(OutboundRelay::after_read, (relay, Some(bytes)), chunk),
        relay.platform == Platform::Unix,
        bytes@.len() > 0,
    ensures
        chunk matches Some(data) && data@ == bytes@,
        final(relay).platform == Platform::Unix,
        final(relay).done == old(relay).done,
{
}

/// On Windows a first read is sent as a new filter gives it, and not at all if
/// the filter gives nothing. A read without an escape byte is sent unchanged.
pub proof fn law_windows_first_read_is_filtered(
    relay: &mut OutboundRelay,
    filter: &mut ConPtyOutboundFilter,
    bytes: &[u8],
    chunk: Option<Vec<u8>>,
    filtered: Vec<u8>,
)
    requires
        call_ensures(OutboundRelay::new, (Platform::Windows,), *relay),
        call_ensures(OutboundRelay::after_read, (relay, Some(bytes)), chunk),
        call_ensures(ConPtyOutboundFilter::new, (), *filter),
        call_ensures(ConPtyOutboundFilter::process, (filter, bytes), filtered),
        bytes@.len() > 0,
    ensures
        chunk is None <==> filtered@.len() == 0,
        chunk matches Some(data) ==> data@ == filtered@,
        !bytes@.contains(0x1b) ==> (chunk matches Some(data) && data@ == bytes@),
        final(relay).platform == Platform::Windows,
        !final(relay).done,
{
    crate::pty_filter::law_new_filter(bytes@);
    if !bytes@.contains(0x1b) {
        crate::pty_filter::law_plain_text_passes(bytes@);
    }
}

/// The bytes that are sent.
pub open spec fn sent_bytes(chunk: Option<Vec<u8>>) -> Seq<u8> {
    match chunk {
        Some(data) => data@,
        None => Seq::empty(),
    }
}

/// On every platform, two reads send the client what one read of all their bytes
/// sends, whatever was read before.
pub proof fn law_two_reads_send_what_one_does(
    first: &mut OutboundRelay,
    second: &mut OutboundRelay,
    joined: &mut OutboundRelay,
    a: &[u8],
    b: &[u8],
    all: &[u8],
    sent_a: Option<Vec<u8>>,
    sent_b: Option<Vec<u8>>,
    sent: Option<Vec<u8>>,
)
    requires
        call_ensures(OutboundRelay::after_read, (first, Some(a)), sent_a),
        call_ensures(OutboundRelay::after_read, (second, Some(b)), sent_b),
        call_ensures(OutboundRelay::after_read, (joined, Some(all)), sent),
        *second == *final(first),
        *joined == *first,
        a@.len() > 0,
        b@.len() > 0,
        all@ == a@ + b@,
    ensures
        sent_bytes(sent) == sent_bytes(sent_a) + sent_bytes(sent_b),
{
    law_reads_can_be_joined(first.platform, first.filter@, a@, b@);
}

/// A read that brings something never ends the loop, on any platform, not even
/// when the client gets nothing of it.
pub proof fn law_read_does_not_end_the_loop(
    relay: &mut OutboundRelay,
    bytes: &[u8],
    chunk: Option<Vec<u8>>,
)
    requires
        call_ensures(OutboundRelay::after_read, (relay, Some(bytes)), chunk),
        bytes@.len() > 0,
    ensures
        final(relay).done == old(relay).done,
        final(relay).platform == old(relay).platform,
        chunk matches Some(data) ==> data@.len() > 0,
{
}

/// A read that fails or brings nothing sends nothing and ends the loop.
pub proof fn law_last_read_ends_the_loop(
    relay: &mut OutboundRelay,
    read: Option<&[u8]>,
    chunk: Option<Vec<u8>>,
)
    requires
        call_ensures(OutboundRelay::after_read, (relay, read), chunk),
        read matches Some(bytes) ==> bytes@.len() == 0,
    ensures
        chunk is None,
        final(relay).done,
{
}

/// The loop reads on as long as the client is there and nothing has ended it.
/// What ends it is a client that has gone or a chunk that was not delivered;
/// then it never reads again.
pub proof fn law_reader_goes_on_until_it_is_stopped(
    asked: &mut OutboundRelay,
    told: &mut OutboundRelay,
    client_open: bool,
    delivered: bool,
    read_on: bool,
)
    requires
        call_ensures(OutboundRelay::before_read, (asked, client_open), read_on),
        call_ensures(OutboundRelay::after_send, (told, delivered), ()),
    ensures
        read_on <==> client_open && !old(asked).done,
        final(asked).done <==> !read_on,
        final(asked).filter == old(asked).filter,
        final(asked).platform == old(asked).platform,
        final(told).done <==> old(told).done || !delivered,
        final(told).filter == old(told).filter,
        final(told).platform == old(told).platform,
{
}

} // verus!
