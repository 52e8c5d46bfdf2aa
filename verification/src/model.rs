//! The pairing pool as a mathematical value, and its transitions: the four
//! that sessions go through, and the issuing of ids.
//!
//! The executable pool is specified against this model: each operation states
//! that the pool's view after the call is the model's transition applied to
//! the view before it.

use vstd::prelude::*;

verus! {

/// One participant that has no partner yet, with the handle that is to be
/// signalled once it has one.
pub struct Waiter<W> {
    pub id: u128,
    pub wake: W,
}

/// The inbox of one paired participant: who its partner is, the text that the
/// partner has sent and that was not read yet, and the handle that the reader
/// left when it last found the inbox empty, if it ever did.
pub struct MailboxView<W> {
    pub partner: u128,
    pub pending: Seq<char>,
    pub reader: Option<W>,
}

/// What a registration answers.
#[derive(Debug, PartialEq, Eq)]
pub enum Registration<W> {
    /// The participant has a partner. `notify` is the handle of the partner
    /// that waited and is to be signalled now; it is `None` where the pair
    /// was formed by the partner's own registration.
    Paired { partner: u128, notify: Option<W> },
    /// The participant stands in the waiting line.
    Waiting,
}

/// One call of one of the pool's operations.
pub enum Operation<W> {
    /// A new participant is given an id, the clock showing `reading`.
    Issue { reading: u128 },
    /// `id` asks for a partner and leaves `wake`.
    Register { id: u128, wake: W },
    /// `text` is sent to `to`.
    Deliver { to: u128, text: Seq<char> },
    /// `id` asks for its text and leaves `wake`.
    Take { id: u128, wake: W },
    /// The session of `id`, whose partner is `partner`, ends.
    Teardown { id: u128, partner: u128 },
}

/// The pool: the waiting line, oldest first, the mailboxes by participant
/// id, and the highest id that the pool has issued or seen so far.
pub struct PoolView<W> {
    pub waiting: Seq<Waiter<W>>,
    pub mailboxes: Map<u128, MailboxView<W>>,
    pub issued: u128,
}

/// `handed` is what a caller gets to signal for the handle `stored`: a clone
/// of it where there is one, nothing where there is none.
pub open spec fn is_clone_of<W: Clone>(stored: Option<W>, handed: Option<W>) -> bool {
    match stored {
        Some(handle) => handed is Some && cloned(handle, handed->0),
        None => handed is None,
    }
}

impl<W> MailboxView<W> {
    /// The mailbox that a new pair member starts with.
    pub open spec fn fresh(partner: u128) -> Self {
        MailboxView { partner, pending: Seq::empty(), reader: None }
    }
}

impl<W> PoolView<W> {
    /// The pool at process start.
    pub open spec fn empty() -> Self {
        PoolView { waiting: Seq::empty(), mailboxes: Map::empty(), issued: 0 }
    }

    /// `id` stands in the waiting line.
    pub open spec fn is_waiting(self, id: u128) -> bool {
        exists|i: int| 0 <= i < self.waiting.len() && (#[trigger] self.waiting[i]).id == id
    }

    /// `id` has a mailbox, that is, a partner.
    pub open spec fn is_paired(self, id: u128) -> bool {
        self.mailboxes.contains_key(id)
    }

    /// The invariants of the pool: nobody waits twice, nobody waits and is
    /// paired at once, nobody is its own partner, no id in the pool lies
    /// above the highest one on record, and the mailboxes are finitely many.
    pub open spec fn wf(self) -> bool {
        &&& forall|i: int, j: int|
            0 <= i < j < self.waiting.len() ==> (#[trigger] self.waiting[i]).id != (
            #[trigger] self.waiting[j]).id
        &&& forall|i: int|
            0 <= i < self.waiting.len() ==> !self.mailboxes.contains_key(
                (#[trigger] self.waiting[i]).id,
            )
        &&& forall|id: u128| #[trigger]
            self.mailboxes.contains_key(id) ==> self.mailboxes[id].partner != id
        &&& forall|i: int|
            0 <= i < self.waiting.len() ==> (#[trigger] self.waiting[i]).id <= self.issued
        &&& forall|id: u128| #[trigger] self.mailboxes.contains_key(id) ==> id <= self.issued
        &&& self.mailboxes.dom().finite()
    }

    /// The id that a new participant gets when the clock shows `reading`:
    /// the reading itself where it lies above every id on record, else the
    /// next id above them; none where the ids are used up.
    pub open spec fn fresh_id(self, reading: u128) -> Option<u128> {
        if reading > self.issued {
            Some(reading)
        } else if self.issued < u128::MAX {
            Some((self.issued + 1) as u128)
        } else {
            None
        }
    }

    /// The pool after a new participant was given an id: the id is on
    /// record as the highest, and nothing else has changed.
    pub open spec fn issue(self, reading: u128) -> Self {
        match self.fresh_id(reading) {
            Some(id) => PoolView { waiting: self.waiting, mailboxes: self.mailboxes, issued: id },
            None => self,
        }
    }

    /// The highest id on record once `id` was seen.
    pub open spec fn seen(self, id: u128) -> u128 {
        if id > self.issued {
            id
        } else {
            self.issued
        }
    }

    /// Where `id` stands in the waiting line, if it stands there.
    pub open spec fn place_of(self, id: u128) -> int {
        choose|i: int| 0 <= i < self.waiting.len() && (#[trigger] self.waiting[i]).id == id
    }

    /// The waiting line without `id`.
    pub open spec fn line_without(self, id: u128) -> Seq<Waiter<W>> {
        if self.is_waiting(id) {
            self.waiting.remove(self.place_of(id))
        } else {
            self.waiting
        }
    }

    /// The partner of `id`, where it has one.
    pub open spec fn partner_of(self, id: u128) -> Option<u128> {
        if self.is_paired(id) {
            Some(self.mailboxes[id].partner)
        } else {
            None
        }
    }

    /// Every pair has both its members: whoever is paired is the partner of
    /// its partner.
    pub open spec fn pairs_are_mutual(self) -> bool {
        forall|id: u128| #[trigger]
            self.mailboxes.contains_key(id) ==> self.mailboxes.contains_key(
                self.mailboxes[id].partner,
            ) && self.mailboxes[self.mailboxes[id].partner].partner == id
    }

    /// The pool after `id` has asked for a partner, leaving `wake` to be
    /// signalled. A participant that is paired already changes nothing; one
    /// that waits already keeps its place in the line, and `wake` takes the
    /// place of the handle it left before. Otherwise the oldest waiter, if
    /// there is one, leaves the line
    /// and both get an empty mailbox that names the other; with nobody
    /// waiting, `id` joins the line at its end. An id that the pool has not
    /// issued is on record from then on, so that it is never issued later.
    pub open spec fn register(self, id: u128, wake: W) -> Self {
        if self.is_paired(id) {
            self
        } else if self.is_waiting(id) {
            PoolView {
                waiting: self.waiting.update(self.place_of(id), Waiter { id, wake }),
                mailboxes: self.mailboxes,
                issued: self.issued,
            }
        } else if self.waiting.len() > 0 {
            let oldest = self.waiting[0];
            PoolView {
                waiting: self.waiting.drop_first(),
                mailboxes: self.mailboxes.insert(id, MailboxView::fresh(oldest.id)).insert(
                    oldest.id,
                    MailboxView::fresh(id),
                ),
                issued: self.seen(id),
            }
        } else {
            PoolView {
                waiting: self.waiting.push(Waiter { id, wake }),
                mailboxes: self.mailboxes,
                issued: self.seen(id),
            }
        }
    }

    /// What the registration of `id` answers in this pool.
    pub open spec fn registration(self, id: u128) -> Registration<W> {
        if self.is_paired(id) {
            Registration::Paired { partner: self.mailboxes[id].partner, notify: None }
        } else if !self.is_waiting(id) && self.waiting.len() > 0 {
            Registration::Paired {
                partner: self.waiting[0].id,
                notify: Some(self.waiting[0].wake),
            }
        } else {
            Registration::Waiting
        }
    }

    /// The registration of `id` has to extend the waiting line.
    pub open spec fn must_enqueue(self, id: u128) -> bool {
        !self.is_paired(id) && !self.is_waiting(id) && self.waiting.len() == 0
    }

    /// The pool after `text` was sent to `to`: the text stands behind what
    /// was pending, and the reader's handle stays where it is. Without a
    /// mailbox for `to` nothing changes.
    pub open spec fn deliver(self, to: u128, text: Seq<char>) -> Self {
        if self.is_paired(to) {
            let mailbox = self.mailboxes[to];
            PoolView {
                issued: self.issued,
                waiting: self.waiting,
                mailboxes: self.mailboxes.insert(
                    to,
                    MailboxView {
                        partner: mailbox.partner,
                        pending: mailbox.pending + text,
                        reader: mailbox.reader,
                    },
                ),
            }
        } else {
            self
        }
    }

    /// The handle that the reader of `to` has left, if it has left one.
    pub open spec fn reader_of(self, to: u128) -> Option<W> {
        if self.is_paired(to) {
            self.mailboxes[to].reader
        } else {
            None
        }
    }

    /// `id` has text to read.
    pub open spec fn has_mail(self, id: u128) -> bool {
        self.is_paired(id) && self.mailboxes[id].pending.len() > 0
    }

    /// The pool after `id` has asked for its text, leaving `wake`. Pending
    /// text is taken whole and the buffer is empty afterwards; with nothing
    /// pending, `wake` becomes the reader's handle. Without a mailbox for
    /// `id` nothing changes.
    pub open spec fn take(self, id: u128, wake: W) -> Self {
        if self.is_paired(id) {
            let mailbox = self.mailboxes[id];
            PoolView {
                issued: self.issued,
                waiting: self.waiting,
                mailboxes: self.mailboxes.insert(
                    id,
                    if mailbox.pending.len() > 0 {
                        MailboxView {
                            partner: mailbox.partner,
                            pending: Seq::empty(),
                            reader: mailbox.reader,
                        }
                    } else {
                        MailboxView {
                            partner: mailbox.partner,
                            pending: mailbox.pending,
                            reader: Some(wake),
                        }
                    },
                ),
            }
        } else {
            self
        }
    }

    /// The pool after the session of `id`, whose partner is `partner`, has
    /// ended: `id` does not wait any more, and neither of the two has a
    /// mailbox any more.
    pub open spec fn teardown(self, id: u128, partner: u128) -> Self {
        PoolView {
            waiting: self.line_without(id),
            mailboxes: self.mailboxes.remove(id).remove(partner),
            issued: self.issued,
        }
    }

    /// The pool after one operation.
    pub open spec fn apply(self, operation: Operation<W>) -> Self {
        match operation {
            Operation::Issue { reading } => self.issue(reading),
            Operation::Register { id, wake } => self.register(id, wake),
            Operation::Deliver { to, text } => self.deliver(to, text),
            Operation::Take { id, wake } => self.take(id, wake),
            Operation::Teardown { id, partner } => self.teardown(id, partner),
        }
    }

    /// The pool after the operations of `history`, in that order, on the
    /// empty pool.
    pub open spec fn after(history: Seq<Operation<W>>) -> Self
        decreases history.len(),
    {
        if history.len() == 0 {
            Self::empty()
        } else {
            Self::after(history.drop_last()).apply(history.last())
        }
    }

    /// The handle to signal after that teardown: the one of the partner's
    /// reader, where the partner still had a mailbox.
    pub open spec fn teardown_notify(self, id: u128, partner: u128) -> Option<W> {
        if partner != id && self.is_paired(partner) {
            self.mailboxes[partner].reader
        } else {
            None
        }
    }
}

} // verus!
