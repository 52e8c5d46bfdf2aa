//! The pairing pool: the one shared structure that all sessions go through.
//!
//! Every operation is one check-and-mutate step, meant to run under the
//! pool's lock. None of them signals a wake handle itself: an operation hands
//! back the handle that its caller is to signal once the step is done. Where
//! the handle goes out of the pool with its owner's entry, it is the handle
//! itself; where it stays, it is a clone of it.

use crate::error::ChatError;
use crate::laws::lemma_issued_ids_are_fresh;
use crate::model::{is_clone_of, MailboxView, PoolView, Registration, Waiter};
use crate::queue::{line_get, line_len, line_new, line_pop_front, line_push_back, queued_ids};
use std::collections::HashMap;
use vstd::prelude::*;
use vstd::string::StringExecFns;
use wtx::collection::Deque;

verus! {

#[derive(Debug)]
struct Mailbox {
    partner: u128,
    pending: String,
}

/// The waiting line and the mailboxes, with the wake handle that each
/// participant has left, and the highest id issued or seen. `W` is the type
/// of the handles; the pool stores and returns them and never looks inside.
#[derive(Debug)]
pub struct PairingPool<W> {
    waiting: Deque<u128>,
    mailboxes: HashMap<u128, Mailbox>,
    wakers: HashMap<u128, W>,
    issued: u128,
}

impl<W> View for PairingPool<W> {
    type V = PoolView<W>;

    closed spec fn view(&self) -> PoolView<W> {
        let ids = queued_ids(self.waiting);
        PoolView {
            issued: self.issued,
            waiting: Seq::new(
                ids.len(),
                |i: int| Waiter { id: ids[i], wake: self.wakers@[ids[i]] },
            ),
            mailboxes: Map::new(
                |id: u128| self.mailboxes@.contains_key(id),
                |id: u128|
                    MailboxView {
                        partner: self.mailboxes@[id].partner,
                        pending: self.mailboxes@[id].pending@,
                        reader: if self.wakers@.contains_key(id) {
                            Some(self.wakers@[id])
                        } else {
                            None
                        },
                    },
            ),
        }
    }
}

/// The answer to a participant whose id was offered to the waiting line, from
/// what the line said to that: the participant waits, unless the line could
/// not take it, and then the line's error is the answer.
pub fn answer_to_queued<W>(pushed: Result<(), wtx::Error>) -> (answer: Result<
    Registration<W>,
    ChatError,
>)
    ensures
        answer == match pushed {
            Ok(_) => Ok::<Registration<W>, ChatError>(Registration::Waiting),
            Err(error) => Err::<Registration<W>, ChatError>(ChatError::Collaborator(error)),
        },
{
    match pushed {
        Ok(_) => Ok(Registration::Waiting),
        Err(error) => Err(ChatError::Collaborator(error)),
    }
}

impl<W> PairingPool<W> {
    /// The pool is consistent: its view meets the pool's invariants, at most
    /// one participant waits, and every handle it stores belongs to a
    /// participant that waits or is paired.
    pub closed spec fn wf(&self) -> bool {
        let ids = queued_ids(self.waiting);
        &&& ids.no_duplicates()
        &&& ids.len() <= 1
        &&& forall|i: int| 0 <= i < ids.len() ==> #[trigger] ids[i] <= self.issued
        &&& forall|id: u128| #[trigger] self.mailboxes@.contains_key(id) ==> id <= self.issued
        &&& forall|i: int|
            0 <= i < ids.len() ==> self.wakers@.contains_key(#[trigger] ids[i])
                && !self.mailboxes@.contains_key(ids[i])
        &&& forall|id: u128| #[trigger]
            self.wakers@.contains_key(id) ==> ids.contains(id) || self.mailboxes@.contains_key(id)
        &&& forall|id: u128| #[trigger]
            self.mailboxes@.contains_key(id) ==> self.mailboxes@[id].partner != id
    }

    /// A consistent pool has a view that meets the model's invariants.
    pub proof fn lemma_view_wf(&self)
        requires
            self.wf(),
        ensures
            self@.wf(),
    {
        let ids = queued_ids(self.waiting);
        assert forall|i: int, j: int| 0 <= i < j < self@.waiting.len() implies (
        #[trigger] self@.waiting[i]).id != (#[trigger] self@.waiting[j]).id by {
            assert(ids[i] != ids[j]);
        }
        assert(self@.mailboxes.dom() =~= self.mailboxes@.dom());
    }

    proof fn lemma_view_is_waiting(&self, id: u128)
        ensures
            self@.is_waiting(id) <==> queued_ids(self.waiting).contains(id),
    {
        let ids = queued_ids(self.waiting);
        if ids.contains(id) {
            let i = choose|i: int| 0 <= i < ids.len() && ids[i] == id;
            assert(self@.waiting[i].id == id);
        }
        if self@.is_waiting(id) {
            let i = choose|i: int|
                0 <= i < self@.waiting.len() && (#[trigger] self@.waiting[i]).id == id;
            assert(ids[i] == id);
        }
    }

    /// The pool of a process that has just started: nobody waits, nobody is
    /// paired.
    pub fn new() -> (pool: Self)
        ensures
            pool.wf(),
            pool@ == PoolView::<W>::empty(),
    {
        let pool = PairingPool {
            waiting: line_new(),
            mailboxes: HashMap::new(),
            wakers: HashMap::new(),
            issued: 0,
        };
        assert(pool@.waiting =~= Seq::empty());
        assert(pool@.mailboxes =~= Map::empty());
        pool
    }

    /// Gives a new participant its id, the clock showing `reading`: the
    /// reading itself where it lies above every id that the pool has issued
    /// or seen, else the next id above them. So no two participants get the
    /// same id, whatever the clock shows, and the id is that of nobody who
    /// waits or is paired.
    ///
    /// Fails with `IdsExhausted`, and changes nothing, only where the
    /// highest id there is was issued already.
    pub fn issue_id(&mut self, reading: u128) -> (issued: Result<u128, ChatError>)
        requires
            old(self).wf(),
        ensures
            final(self).wf(),
            final(self)@ == old(self)@.issue(reading),
            match issued {
                Ok(id) => old(self)@.fresh_id(reading) == Some(id) && id > old(self)@.issued
                    && !final(self)@.is_waiting(id) && !final(self)@.is_paired(id),
                Err(error) => old(self)@.fresh_id(reading) is None && error is IdsExhausted,
            },
    {
        let ghost before = *self;
        proof {
            self.lemma_view_wf();
        }
        if reading > self.issued {
            self.issued = reading;
        } else if self.issued < u128::MAX {
            self.issued = self.issued + 1;
        } else {
            return Err(ChatError::IdsExhausted);
        }
        proof {
            assert(self@.waiting =~= before@.waiting);
            assert(self@.mailboxes =~= before@.mailboxes);
            lemma_issued_ids_are_fresh(before@, reading);
        }
        Ok(self.issued)
    }

    /// The partner of `id`, where it has one.
    pub fn partner_of(&self, id: u128) -> (partner: Option<u128>)
        ensures
            partner == self@.partner_of(id),
    {
        match self.mailboxes.get(&id) {
            Some(mailbox) => Some(mailbox.partner),
            None => None,
        }
    }

    /// Whether `id` stands in the waiting line.
    pub fn is_waiting(&self, id: u128) -> (found: bool)
        ensures
            found == self@.is_waiting(id),
    {
        let n = line_len(&self.waiting);
        let mut at: usize = 0;
        while at < n
            invariant
                n == queued_ids(self.waiting).len(),
                at <= n,
                forall|j: int| 0 <= j < at ==> queued_ids(self.waiting)[j] != id,
            decreases n - at,
        {
            match line_get(&self.waiting, at) {
                Some(other) => {
                    if other == id {
                        proof {
                            self.lemma_view_is_waiting(id);
                        }
                        return true;
                    }
                },
                None => {},
            }
            at = at + 1;
        }
        proof {
            self.lemma_view_is_waiting(id);
        }
        false
    }

    /// Asks for a partner for `id`, leaving `wake` to be signalled when one
    /// arrives later.
    ///
    /// A participant that is paired already is told its partner; one that
    /// waits already goes on waiting, with `wake` in place of the handle it
    /// left before. Otherwise the
    /// oldest waiter becomes the partner: both get an empty mailbox, and the
    /// waiter's handle is handed back to be signalled. With nobody waiting,
    /// `id` joins the line. Only that last step can fail, where the line
    /// cannot grow; the pool is then unchanged. An id that the pool did not
    /// issue goes on record when it gets a partner or a place in the line,
    /// so that it is never issued later.
    pub fn register_and_wait(&mut self, id: u128, wake: W) -> (answer: Result<
        Registration<W>,
        ChatError,
    >)
        requires
            old(self).wf(),
        ensures
            final(self).wf(),
            match answer {
                Ok(registration) => final(self)@ == old(self)@.register(id, wake) && registration
                    == old(self)@.registration(id),
                Err(error) => final(self)@ == old(self)@ && error is Collaborator
                    && old(self)@.must_enqueue(id),
            },
            !old(self)@.must_enqueue(id) ==> answer is Ok,
    {
        match self.mailboxes.get(&id) {
            Some(mailbox) => {
                return Ok(Registration::Paired { partner: mailbox.partner, notify: None });
            },
            None => {},
        }
        let ghost before = *self;
        if self.is_waiting(id) {
            self.wakers.insert(id, wake);
            proof {
                before.lemma_view_is_waiting(id);
                let ids = queued_ids(before.waiting);
                let place = before@.place_of(id);
                assert(ids[place] == id);
                assert forall|other: u128| #[trigger]
                    self.wakers@.contains_key(other) implies ids.contains(other)
                    || self.mailboxes@.contains_key(other) by {}
                assert(self@.waiting =~= before@.register(id, wake).waiting);
                assert(self@.mailboxes =~= before@.register(id, wake).mailboxes);
            }
            return Ok(Registration::Waiting);
        }
        proof {
            self.lemma_view_is_waiting(id);
        }
        match line_pop_front(&mut self.waiting) {
            Some(oldest) => {
                let notify = self.wakers.remove(&oldest);
                if id > self.issued {
                    self.issued = id;
                }
                self.mailboxes.insert(id, Mailbox { partner: oldest, pending: String::new() });
                self.mailboxes.insert(oldest, Mailbox { partner: id, pending: String::new() });
                proof {
                    let ids = queued_ids(before.waiting);
                    let rest = queued_ids(self.waiting);
                    assert forall|other: u128| #[trigger]
                        self.wakers@.contains_key(other) implies rest.contains(other)
                        || self.mailboxes@.contains_key(other) by {
                        if ids.contains(other) {
                            let k = choose|k: int| 0 <= k < ids.len() && ids[k] == other;
                            assert(rest[k - 1] == other);
                        }
                    }
                    assert(self@.waiting =~= before@.register(id, wake).waiting);
                    assert(self@.mailboxes =~= before@.register(id, wake).mailboxes);
                }
                Ok(Registration::Paired { partner: oldest, notify })
            },
            None => {
                let pushed = line_push_back(&mut self.waiting, id);
                if pushed.is_ok() {
                    self.wakers.insert(id, wake);
                    if id > self.issued {
                        self.issued = id;
                    }
                    proof {
                        let ids = queued_ids(before.waiting);
                        let grown = queued_ids(self.waiting);
                        assert(grown[ids.len() as int] == id);
                        assert forall|other: u128| #[trigger]
                            self.wakers@.contains_key(other) implies grown.contains(other)
                            || self.mailboxes@.contains_key(other) by {
                            if ids.contains(other) {
                                let k = choose|k: int| 0 <= k < ids.len() && ids[k] == other;
                                assert(grown[k] == other);
                            }
                        }
                        assert(self@.waiting =~= before@.register(id, wake).waiting);
                        assert(self@.mailboxes =~= before@.register(id, wake).mailboxes);
                    }
                } else {
                    proof {
                        assert(self@.waiting =~= before@.waiting);
                        assert(self@.mailboxes =~= before@.mailboxes);
                    }
                }
                answer_to_queued(pushed)
            },
        }
    }

    /// Takes the text that is pending for `id`, all of it at once, or leaves
    /// `wake` as the reader's handle where nothing is pending.
    ///
    /// `Ok(Some(text))` is the text, and the mailbox is empty afterwards;
    /// `Ok(None)` says that the caller is to suspend until `wake` is
    /// signalled, and then to ask again. Fails with `ClosedConnection`, and
    /// changes nothing, where `id` has no mailbox.
    pub fn take_or_wait(&mut self, id: u128, wake: W) -> (mail: Result<Option<String>, ChatError>)
        requires
            old(self).wf(),
        ensures
            final(self).wf(),
            match mail {
                Ok(Some(text)) => old(self)@.has_mail(id)
                    && text@ == old(self)@.mailboxes[id].pending
                    && final(self)@ == old(self)@.take(id, wake),
                Ok(None) => old(self)@.is_paired(id) && !old(self)@.has_mail(id) && final(self)@
                    == old(self)@.take(id, wake),
                Err(error) => !old(self)@.is_paired(id) && error is ClosedConnection
                    && final(self)@ == old(self)@,
            },
    {
        let ghost before = *self;
        match self.mailboxes.remove(&id) {
            None => {
                proof {
                    assert(self@.waiting =~= before@.waiting);
                    assert(self@.mailboxes =~= before@.mailboxes);
                }
                Err(ChatError::ClosedConnection)
            },
            Some(mailbox) => {
                if mailbox.pending.as_str().is_empty() {
                    self.mailboxes.insert(id, mailbox);
                    self.wakers.insert(id, wake);
                    proof {
                        assert(self@.waiting =~= before@.take(id, wake).waiting);
                        assert(self@.mailboxes =~= before@.take(id, wake).mailboxes);
                    }
                    Ok(None)
                } else {
                    let Mailbox { partner, pending } = mailbox;
                    self.mailboxes.insert(id, Mailbox { partner, pending: String::new() });
                    proof {
                        assert(self@.waiting =~= before@.take(id, wake).waiting);
                        assert(self@.mailboxes =~= before@.take(id, wake).mailboxes);
                    }
                    Ok(Some(pending))
                }
            },
        }
    }

    /// Ends the session of `id`, whose partner is `partner`: takes `id` out
    /// of the waiting line, if it waits, and removes the mailbox of `id`, if
    /// it has one, and that of `partner`, if it still has one. Hands back the
    /// handle of the partner's reader, where the partner's mailbox was
    /// removed here and a reader had left a handle: the caller signals it, so
    /// that the partner finds its mailbox gone instead of waiting for ever.
    ///
    /// A second call for the same pair changes nothing and hands back
    /// nothing.
    pub fn teardown(&mut self, id: u128, partner: u128) -> (notify: Option<W>)
        requires
            old(self).wf(),
        ensures
            final(self).wf(),
            final(self)@ == old(self)@.teardown(id, partner),
            notify == old(self)@.teardown_notify(id, partner),
    {
        let ghost before = *self;
        proof {
            self.lemma_view_is_waiting(id);
        }
        let mut waits = false;
        match line_get(&self.waiting, 0) {
            Some(front) => {
                waits = front == id;
            },
            None => {},
        }
        if waits {
            let _ = line_pop_front(&mut self.waiting);
            let _ = self.wakers.remove(&id);
            proof {
                assert(before@.waiting[0].id == id);
                assert(before@.place_of(id) == 0);
                assert(self@.waiting =~= before@.line_without(id));
            }
        } else {
            proof {
                assert(!before@.is_waiting(id)) by {
                    if before@.is_waiting(id) {
                        assert(queued_ids(before.waiting)[0] == id);
                    }
                }
            }
        }
        match self.mailboxes.remove(&id) {
            Some(_) => {
                let _ = self.wakers.remove(&id);
            },
            None => {},
        }
        let notify = match self.mailboxes.remove(&partner) {
            Some(_) => self.wakers.remove(&partner),
            None => None,
        };
        proof {
            assert(self@.waiting =~= before@.teardown(id, partner).waiting);
            assert(self@.mailboxes =~= before@.teardown(id, partner).mailboxes);
        }
        notify
    }
}

impl<W: Clone> PairingPool<W> {
    /// Puts `text` into the mailbox of `to`, behind what is pending there,
    /// and hands back a clone of the handle that the reader of `to` has
    /// left, if it has left one: the caller signals it. The handle itself
    /// stays in the mailbox.
    ///
    /// Fails with `ClosedConnection`, and changes nothing, where `to` has no
    /// mailbox.
    pub fn deliver(&mut self, to: u128, text: &str) -> (sent: Result<Option<W>, ChatError>)
        requires
            old(self).wf(),
        ensures
            final(self).wf(),
            match sent {
                Ok(notify) => old(self)@.is_paired(to) && final(self)@ == old(self)@.deliver(
                    to,
                    text@,
                ) && is_clone_of(old(self)@.reader_of(to), notify),
                Err(error) => !old(self)@.is_paired(to) && error is ClosedConnection
                    && final(self)@ == old(self)@,
            },
    {
        let ghost before = *self;
        match self.mailboxes.remove(&to) {
            None => {
                proof {
                    assert(self@.waiting =~= before@.waiting);
                    assert(self@.mailboxes =~= before@.mailboxes);
                }
                Err(ChatError::ClosedConnection)
            },
            Some(mailbox) => {
                let Mailbox { partner, mut pending } = mailbox;
                pending.append(text);
                self.mailboxes.insert(to, Mailbox { partner, pending });
                let notify = match self.wakers.get(&to) {
                    Some(handle) => Some(handle.clone()),
                    None => None,
                };
                proof {
                    assert(self@.waiting =~= before@.deliver(to, text@).waiting);
                    assert(self@.mailboxes =~= before@.deliver(to, text@).mailboxes);
                }
                Ok(notify)
            },
        }
    }
}

} // verus!
