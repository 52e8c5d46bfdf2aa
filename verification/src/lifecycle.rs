//! The life of a session as a state machine, and what holds of every run of
//! it.
//!
//! The session's methods are specified against this machine: each states
//! which event it stands for and that the session's phase after the call is
//! the machine's next phase.

use vstd::prelude::*;

verus! {

/// Where a session stands in its life. A session only ever moves forward in
/// this order.
#[derive(Clone, Copy, Debug, PartialEq, Eq, Structural)]
pub enum Phase {
    /// Created; has not asked for a partner yet.
    Connecting,
    /// Stands in the waiting line.
    Waiting,
    /// Has a partner; text is relayed.
    Paired,
    /// The relay has ended, with or without an error; teardown is due.
    Closing,
    /// Torn down. Nothing follows.
    Closed,
}

/// What can happen to a session.
pub enum Event {
    /// The pool has given the session a partner.
    Matched,
    /// The pool has told the session to wait.
    Queued,
    /// The pool could not take the session in.
    Refused,
    /// Text came in and went to the partner's mailbox.
    Delivered,
    /// Text came in, and the partner's mailbox is gone.
    Undeliverable,
    /// The close signal came in.
    CloseSignal,
    /// Something came in that is neither text nor the close signal.
    Unexpected,
    /// The session's mailbox held text.
    Mail,
    /// The session's mailbox was empty.
    NoMail,
    /// The session's mailbox is gone.
    MailboxGone,
    /// The caller gave the session up, on an error of its connection.
    Aborted,
    /// The session was torn down.
    TornDown,
}

/// What an event makes the session's caller write to its own connection.
pub enum Output {
    /// Nothing.
    Silent,
    /// The acknowledgement of the pairing.
    Acknowledgement,
    /// Text from the partner.
    Chat,
}

/// The place of a phase in the order of a session's life.
pub open spec fn rank(phase: Phase) -> int {
    match phase {
        Phase::Connecting => 0,
        Phase::Waiting => 1,
        Phase::Paired => 2,
        Phase::Closing => 3,
        Phase::Closed => 4,
    }
}

/// The event can occur in the phase.
pub open spec fn accepts(phase: Phase, event: Event) -> bool {
    match event {
        Event::Matched | Event::Queued | Event::Refused => phase == Phase::Connecting || phase
            == Phase::Waiting,
        Event::Delivered
        | Event::Undeliverable
        | Event::CloseSignal
        | Event::Unexpected
        | Event::Mail
        | Event::NoMail
        | Event::MailboxGone => phase == Phase::Paired,
        Event::Aborted => phase != Phase::Closed,
        Event::TornDown => true,
    }
}

/// The phase that follows `phase` on `event`.
pub open spec fn next(phase: Phase, event: Event) -> Phase {
    match event {
        Event::Matched => Phase::Paired,
        Event::Queued => Phase::Waiting,
        Event::Delivered | Event::Mail | Event::NoMail => phase,
        Event::Refused
        | Event::Undeliverable
        | Event::CloseSignal
        | Event::Unexpected
        | Event::MailboxGone
        | Event::Aborted => Phase::Closing,
        Event::TornDown => Phase::Closed,
    }
}

/// What is written to the session's own connection on `event`.
pub open spec fn output(event: Event) -> Output {
    match event {
        Event::Matched => Output::Acknowledgement,
        Event::Mail => Output::Chat,
        _ => Output::Silent,
    }
}

/// The phase that a new session has reached after `events`.
pub open spec fn phase_after(events: Seq<Event>) -> Phase
    decreases events.len(),
{
    if events.len() == 0 {
        Phase::Connecting
    } else {
        next(phase_after(events.drop_last()), events.last())
    }
}

/// `events` can occur in that order in the life of a new session.
pub open spec fn is_run(events: Seq<Event>) -> bool
    decreases events.len(),
{
    events.len() > 0 ==> is_run(events.drop_last()) && accepts(
        phase_after(events.drop_last()),
        events.last(),
    )
}

/// A session never goes back: each event leaves it in its phase or takes it
/// to a later one.
pub proof fn lemma_phases_advance(phase: Phase, event: Event)
    requires
        accepts(phase, event),
    ensures
        rank(phase) <= rank(next(phase, event)),
{
}

proof fn lemma_run_prefix(events: Seq<Event>, upto: int)
    requires
        is_run(events),
        0 <= upto <= events.len(),
    ensures
        is_run(events.take(upto)),
        upto < events.len() ==> accepts(phase_after(events.take(upto)), events[upto]),
    decreases events.len(),
{
    if upto == events.len() {
        assert(events.take(upto) =~= events);
    } else {
        lemma_run_prefix(events.drop_last(), upto);
        assert(events.drop_last().take(upto) =~= events.take(upto));
        if upto == events.len() - 1 {
            assert(events.take(upto) =~= events.drop_last());
        }
    }
}

proof fn lemma_unpaired_was_silent(events: Seq<Event>, at: int)
    requires
        is_run(events),
        rank(phase_after(events)) < rank(Phase::Paired),
        0 <= at < events.len(),
    ensures
        output(events[at]) is Silent,
    decreases events.len(),
{
    let earlier = events.drop_last();
    lemma_phases_advance(phase_after(earlier), events.last());
    if at < events.len() - 1 {
        lemma_unpaired_was_silent(earlier, at);
    }
}

proof fn lemma_paired_was_acknowledged(events: Seq<Event>)
    requires
        is_run(events),
        phase_after(events) == Phase::Paired,
    ensures
        exists|i: int| 0 <= i < events.len() && #[trigger] output(events[i]) is Acknowledgement,
    decreases events.len(),
{
    if events.len() > 0 {
        let earlier = events.drop_last();
        if events.last() is Matched {
            assert(output(events[events.len() - 1]) is Acknowledgement);
        } else {
            lemma_paired_was_acknowledged(earlier);
            let i = choose|i: int|
                0 <= i < earlier.len() && #[trigger] output(earlier[i]) is Acknowledgement;
            assert(output(events[i]) is Acknowledgement);
        }
    }
}

/// The acknowledgement comes first. In every run of a session, chat text is
/// written to the connection only after the acknowledgement of the pairing
/// was.
pub proof fn lemma_acknowledgement_precedes_chat(events: Seq<Event>, at: int)
    requires
        is_run(events),
        0 <= at < events.len(),
        output(events[at]) is Chat,
    ensures
        exists|i: int| 0 <= i < at && #[trigger] output(events[i]) is Acknowledgement,
{
    let earlier = events.take(at);
    lemma_run_prefix(events, at);
    lemma_paired_was_acknowledged(earlier);
    let i = choose|i: int|
        0 <= i < earlier.len() && #[trigger] output(earlier[i]) is Acknowledgement;
    assert(output(events[i]) is Acknowledgement);
}

/// The acknowledgement comes once. No run of a session writes it twice, and
/// nothing is written before it.
pub proof fn lemma_acknowledgement_is_single(events: Seq<Event>, at: int, other: int)
    requires
        is_run(events),
        0 <= at < events.len(),
        0 <= other < at,
        output(events[at]) is Acknowledgement,
    ensures
        output(events[other]) is Silent,
{
    lemma_run_prefix(events, at);
    lemma_unpaired_was_silent(events.take(at), other);
}

/// Nothing follows the teardown but more of it: a session that is closed
/// stays closed and writes nothing.
pub proof fn lemma_closed_is_final(event: Event)
    requires
        accepts(Phase::Closed, event),
    ensures
        next(Phase::Closed, event) == Phase::Closed,
        output(event) is Silent,
{
}

} // verus!
