//! One session per connection: the handshake, the relay of text in both
//! directions, and the teardown.
//!
//! A session decides; it performs nothing. Its caller owns the connection
//! and the pool's lock: it reads and writes the connection, suspends and
//! resumes the task, and signals the handles that the session hands back.
//! Every method that takes the pool is one step under the lock.

use crate::clock::nanos_since_epoch;
use crate::error::ChatError;
use crate::laws::lemma_teardown_clears_the_line;
use crate::lifecycle::{next, Event, Phase};
use crate::model::{is_clone_of, PoolView, Registration};
use crate::pool::PairingPool;
use vstd::prelude::*;

verus! {

/// What the connection has handed in.
#[derive(Debug, PartialEq, Eq)]
pub enum Inbound {
    /// A text message.
    Text(String),
    /// The close signal.
    Close,
    /// Anything else.
    Other,
}

/// What a session's attempt to find a partner has come to.
#[derive(Debug, PartialEq, Eq)]
pub enum Joined<W> {
    /// The session has a partner. The caller writes `ack` to its own
    /// connection as a text message, before anything else, and signals
    /// `notify` if there is one.
    Paired { ack: &'static str, notify: Option<W> },
    /// Nobody to pair with yet: the caller suspends until the handle it left
    /// is signalled, then asks again.
    Waiting,
}

/// What the caller does after a step of the relay.
#[derive(Debug)]
pub enum Step<W> {
    /// Nothing to write. The caller signals `notify` if there is one and goes
    /// on with the loop.
    Continue { notify: Option<W> },
    /// The caller writes `text` to its own connection as a text message and
    /// goes on with the loop.
    Write { text: String },
    /// The mailbox is empty: the caller suspends that branch until the handle
    /// it left is signalled.
    Suspend,
    /// The loop has ended, normally or with the error given. The caller
    /// closes its connection and finishes the session.
    Leave { verdict: Result<(), ChatError> },
}

/// The acknowledgement that each member of a new pair is sent before any
/// chat text.
pub open spec fn ack_text() -> Seq<char> {
    seq!['O', 'K']
}

/// The acknowledgement as it is written to the connection.
pub fn acknowledgement() -> (ack: &'static str)
    ensures
        ack@ == ack_text(),
{
    let ack = "OK";
    proof {
        reveal_strlit("OK");
        assert(ack@ =~= ack_text());
    }
    ack
}

/// The state of one session: who it is, whom it is paired with once it is,
/// and where it stands.
#[derive(Debug)]
pub struct Session {
    id: u128,
    partner: Option<u128>,
    phase: Phase,
}

impl Session {
    /// The participant's id.
    pub closed spec fn spec_id(&self) -> u128 {
        self.id
    }

    /// The partner's id, once the session has learned it.
    pub closed spec fn spec_partner(&self) -> Option<u128> {
        self.partner
    }

    /// The session's phase.
    pub closed spec fn spec_phase(&self) -> Phase {
        self.phase
    }

    /// The session knows its partner from the moment it is paired, and not
    /// before.
    pub closed spec fn wf(&self) -> bool {
        &&& self.phase == Phase::Paired ==> self.partner is Some
        &&& self.phase == Phase::Connecting || self.phase == Phase::Waiting
            ==> self.partner is None
    }

    /// The partner that the teardown of this session names: the one that the
    /// session knows, or else the one that the pool has given it without the
    /// session having learned of it, or else, for want of any, the session's
    /// own id.
    pub open spec fn teardown_partner<W>(&self, pool: PoolView<W>) -> u128 {
        match self.spec_partner() {
            Some(partner) => partner,
            None => match pool.partner_of(self.spec_id()) {
                Some(partner) => partner,
                None => self.spec_id(),
            },
        }
    }

    /// A session for the participant `id`, which has not asked for a partner
    /// yet.
    fn new(id: u128) -> (session: Session)
        ensures
            session.wf(),
            session.spec_id() == id,
            session.spec_partner() is None,
            session.spec_phase() == Phase::Connecting,
    {
        Session { id, partner: None, phase: Phase::Connecting }
    }

    /// A session for a new participant, from the clock's answer to being
    /// asked the time. The pool gives the participant its id: the clock's
    /// reading where no id as high was issued or seen before, else the next
    /// id above all of those. So the id is that of no other session, also
    /// where the clock shows the same reading twice or runs backwards.
    ///
    /// Where the clock gave no reading, its error is passed on; where the
    /// ids are used up, the error is `IdsExhausted`. The pool is then
    /// unchanged.
    pub fn from_reading<W>(
        pool: &mut PairingPool<W>,
        reading: Result<u128, wtx::Error>,
    ) -> (started: Result<Session, ChatError>)
        requires
            old(pool).wf(),
        ensures
            final(pool).wf(),
            match reading {
                Ok(shown) => match old(pool)@.fresh_id(shown) {
                    Some(id) => {
                        &&& started is Ok
                        &&& started->Ok_0.wf()
                        &&& started->Ok_0.spec_id() == id
                        &&& started->Ok_0.spec_partner() is None
                        &&& started->Ok_0.spec_phase() == Phase::Connecting
                        &&& final(pool)@ == old(pool)@.issue(shown)
                        &&& id > old(pool)@.issued
                        &&& !final(pool)@.is_waiting(id)
                        &&& !final(pool)@.is_paired(id)
                    },
                    None => {
                        &&& started == Err::<Session, ChatError>(ChatError::IdsExhausted)
                        &&& final(pool)@ == old(pool)@
                    },
                },
                Err(error) => {
                    &&& started == Err::<Session, ChatError>(ChatError::Collaborator(error))
                    &&& final(pool)@ == old(pool)@
                },
            },
    {
        match reading {
            Ok(shown) => match pool.issue_id(shown) {
                Ok(id) => Ok(Session::new(id)),
                Err(error) => Err(error),
            },
            Err(error) => Err(ChatError::Collaborator(error)),
        }
    }

    /// A session for a new participant, whose id the pool issues on the
    /// clock's reading of now, in nanoseconds since the UNIX epoch: an id
    /// above every id that the pool has issued or seen before, and so the id
    /// of nobody who waits or is paired. Nothing else in the pool changes.
    ///
    /// Fails, and leaves the pool as it is, where the clock gives no reading
    /// or the ids are used up.
    pub fn start<W>(pool: &mut PairingPool<W>) -> (started: Result<Session, ChatError>)
        requires
            old(pool).wf(),
        ensures
            final(pool).wf(),
            match started {
                Ok(session) => {
                    &&& session.wf()
                    &&& session.spec_partner() is None
                    &&& session.spec_phase() == Phase::Connecting
                    &&& session.spec_id() > old(pool)@.issued
                    &&& !final(pool)@.is_waiting(session.spec_id())
                    &&& !final(pool)@.is_paired(session.spec_id())
                    &&& final(pool)@ == (PoolView {
                        waiting: old(pool)@.waiting,
                        mailboxes: old(pool)@.mailboxes,
                        issued: session.spec_id(),
                    })
                },
                Err(error) => {
                    &&& final(pool)@ == old(pool)@
                    &&& error is Collaborator || (error is IdsExhausted && old(pool)@.issued
                        == u128::MAX)
                },
            },
    {
        Session::from_reading(pool, nanos_since_epoch())
    }

    /// The participant's id.
    #[verifier::when_used_as_spec(spec_id)]
    pub fn id(&self) -> (id: u128)
        ensures
            id == self.spec_id(),
    {
        self.id
    }

    /// The partner's id, once the session has learned it.
    #[verifier::when_used_as_spec(spec_partner)]
    pub fn partner(&self) -> (partner: Option<u128>)
        ensures
            partner == self.spec_partner(),
    {
        self.partner
    }

    /// Where the session stands.
    #[verifier::when_used_as_spec(spec_phase)]
    pub fn phase(&self) -> (phase: Phase)
        ensures
            phase == self.spec_phase(),
    {
        self.phase
    }

    /// Asks the pool for a partner, leaving `wake` to be signalled when one
    /// arrives later. Called when the session starts and again each time
    /// `wake` was signalled, until the answer is a partner.
    ///
    /// With a partner the session is paired, and the answer carries the
    /// acknowledgement to write and the handle to signal. Told to wait, the
    /// session waits. Where the pool cannot take the session in, the session
    /// is closing and the pool's error is returned.
    pub fn join<W>(&mut self, pool: &mut PairingPool<W>, wake: W) -> (joined: Result<
        Joined<W>,
        ChatError,
    >)
        requires
            old(self).wf(),
            old(pool).wf(),
            old(self).phase() == Phase::Connecting || old(self).phase() == Phase::Waiting,
        ensures
            final(self).wf(),
            final(pool).wf(),
            final(self).id() == old(self).id(),
            match joined {
                Ok(Joined::Paired { ack, notify }) => {
                    &&& ack@ == ack_text()
                    &&& final(self).partner() is Some
                    &&& old(pool)@.registration(old(self).id()) == (Registration::Paired {
                        partner: final(self).partner()->0,
                        notify,
                    })
                    &&& final(pool)@ == old(pool)@.register(old(self).id(), wake)
                    &&& final(self).phase() == next(old(self).phase(), Event::Matched)
                },
                Ok(Joined::Waiting) => {
                    &&& old(pool)@.registration(old(self).id()) == Registration::<W>::Waiting
                    &&& final(pool)@ == old(pool)@.register(old(self).id(), wake)
                    &&& final(self).partner() is None
                    &&& final(self).phase() == next(old(self).phase(), Event::Queued)
                },
                Err(error) => {
                    &&& error is Collaborator
                    &&& old(pool)@.must_enqueue(old(self).id())
                    &&& final(pool)@ == old(pool)@
                    &&& final(self).partner() is None
                    &&& final(self).phase() == next(old(self).phase(), Event::Refused)
                },
            },
            !old(pool)@.must_enqueue(old(self).id()) ==> joined is Ok,
    {
        match pool.register_and_wait(self.id, wake) {
            Ok(Registration::Paired { partner, notify }) => {
                self.partner = Some(partner);
                self.phase = Phase::Paired;
                Ok(Joined::Paired { ack: acknowledgement(), notify })
            },
            Ok(Registration::Waiting) => {
                self.phase = Phase::Waiting;
                Ok(Joined::Waiting)
            },
            Err(error) => {
                self.phase = Phase::Closing;
                Err(error)
            },
        }
    }

    /// Takes what the session's own connection has handed in.
    ///
    /// Text goes to the partner's mailbox, and the answer carries a clone of
    /// the handle of the partner's reader to signal; where the partner's
    /// mailbox is gone, the relay ends with `ClosedConnection`. The close
    /// signal ends the relay without an error, anything else with
    /// `UnexpectedFrame`. Whenever the relay ends, the session is closing.
    pub fn on_inbound<W: Clone>(
        &mut self,
        pool: &mut PairingPool<W>,
        inbound: Inbound,
    ) -> (step: Step<W>)
        requires
            old(self).wf(),
            old(pool).wf(),
            old(self).phase() == Phase::Paired,
        ensures
            final(self).wf(),
            final(pool).wf(),
            final(self).id() == old(self).id(),
            final(self).partner() == old(self).partner(),
            match inbound {
                Inbound::Text(text) => if old(pool)@.is_paired(old(self).partner()->0) {
                    &&& step matches Step::Continue { notify }
                    &&& is_clone_of(old(pool)@.reader_of(old(self).partner()->0), notify)
                    &&& final(pool)@ == old(pool)@.deliver(old(self).partner()->0, text@)
                    &&& final(self).phase() == next(Phase::Paired, Event::Delivered)
                } else {
                    &&& step == Step::<W>::Leave { verdict: Err(ChatError::ClosedConnection) }
                    &&& final(pool)@ == old(pool)@
                    &&& final(self).phase() == next(Phase::Paired, Event::Undeliverable)
                },
                Inbound::Close => {
                    &&& step == Step::<W>::Leave { verdict: Ok(()) }
                    &&& final(pool)@ == old(pool)@
                    &&& final(self).phase() == next(Phase::Paired, Event::CloseSignal)
                },
                Inbound::Other => {
                    &&& step == Step::<W>::Leave { verdict: Err(ChatError::UnexpectedFrame) }
                    &&& final(pool)@ == old(pool)@
                    &&& final(self).phase() == next(Phase::Paired, Event::Unexpected)
                },
            },
    {
        match inbound {
            Inbound::Text(text) => {
                let partner = match self.partner {
                    Some(partner) => partner,
                    None => self.id,
                };
                match pool.deliver(partner, text.as_str()) {
                    Ok(notify) => Step::Continue { notify },
                    Err(error) => {
                        self.phase = Phase::Closing;
                        Step::Leave { verdict: Err(error) }
                    },
                }
            },
            Inbound::Close => {
                self.phase = Phase::Closing;
                Step::Leave { verdict: Ok(()) }
            },
            Inbound::Other => {
                self.phase = Phase::Closing;
                Step::Leave { verdict: Err(ChatError::UnexpectedFrame) }
            },
        }
    }

    /// Looks into the session's own mailbox, leaving `wake` to be signalled
    /// when text arrives later.
    ///
    /// Pending text is to be written to the connection, all of it as one
    /// message. With nothing pending the caller suspends. Where the mailbox
    /// is gone, the relay ends with `ClosedConnection` and the session is
    /// closing.
    pub fn on_mailbox<W>(&mut self, pool: &mut PairingPool<W>, wake: W) -> (step: Step<W>)
        requires
            old(self).wf(),
            old(pool).wf(),
            old(self).phase() == Phase::Paired,
        ensures
            final(self).wf(),
            final(pool).wf(),
            final(self).id() == old(self).id(),
            final(self).partner() == old(self).partner(),
            match step {
                Step::Write { text } => {
                    &&& old(pool)@.has_mail(old(self).id())
                    &&& text@ == old(pool)@.mailboxes[old(self).id()].pending
                    &&& final(pool)@ == old(pool)@.take(old(self).id(), wake)
                    &&& final(self).phase() == next(Phase::Paired, Event::Mail)
                },
                Step::Suspend => {
                    &&& old(pool)@.is_paired(old(self).id())
                    &&& !old(pool)@.has_mail(old(self).id())
                    &&& final(pool)@ == old(pool)@.take(old(self).id(), wake)
                    &&& final(self).phase() == next(Phase::Paired, Event::NoMail)
                },
                Step::Leave { verdict } => {
                    &&& verdict == Err::<(), ChatError>(ChatError::ClosedConnection)
                    &&& !old(pool)@.is_paired(old(self).id())
                    &&& final(pool)@ == old(pool)@
                    &&& final(self).phase() == next(Phase::Paired, Event::MailboxGone)
                },
                Step::Continue { .. } => false,
            },
    {
        match pool.take_or_wait(self.id, wake) {
            Ok(Some(text)) => Step::Write { text },
            Ok(None) => Step::Suspend,
            Err(error) => {
                self.phase = Phase::Closing;
                Step::Leave { verdict: Err(error) }
            },
        }
    }

    /// Gives the session up on an error of its connection: the session is
    /// closing, and what is left to do is to finish it.
    pub fn leave(&mut self)
        requires
            old(self).wf(),
            old(self).phase() != Phase::Closed,
        ensures
            final(self).wf(),
            final(self).id() == old(self).id(),
            final(self).partner() == old(self).partner(),
            final(self).phase() == next(old(self).phase(), Event::Aborted),
    {
        self.phase = Phase::Closing;
    }

    /// Tears the session down, on whatever path it has ended: takes it out
    /// of the waiting line, if it waits, removes its mailbox and its
    /// partner's from the pool, and hands back the handle of the partner's
    /// reader to signal. The partner is the one the session knows, or else
    /// the one the pool has on record for it. Afterwards the session neither
    /// waits nor is paired. A session that is closed already leaves the pool
    /// as it is.
    pub fn finish<W>(&mut self, pool: &mut PairingPool<W>) -> (notify: Option<W>)
        requires
            old(self).wf(),
            old(pool).wf(),
        ensures
            final(self).wf(),
            final(pool).wf(),
            final(self).id() == old(self).id(),
            final(self).partner() == old(self).partner(),
            final(self).phase() == next(old(self).phase(), Event::TornDown),
            if old(self).phase() == Phase::Closed {
                final(pool)@ == old(pool)@ && notify is None
            } else {
                &&& final(pool)@ == old(pool)@.teardown(
                    old(self).id(),
                    old(self).teardown_partner(old(pool)@),
                )
                &&& notify == old(pool)@.teardown_notify(
                    old(self).id(),
                    old(self).teardown_partner(old(pool)@),
                )
                &&& !final(pool)@.is_waiting(old(self).id())
                &&& !final(pool)@.is_paired(old(self).id())
            },
    {
        if self.phase == Phase::Closed {
            return None;
        }
        self.phase = Phase::Closed;
        let partner = match self.partner {
            Some(partner) => partner,
            None => match pool.partner_of(self.id) {
                Some(partner) => partner,
                None => self.id,
            },
        };
        proof {
            pool.lemma_view_wf();
            lemma_teardown_clears_the_line(pool@, self.id, partner);
        }
        pool.teardown(self.id, partner)
    }
}

} // verus!
