//! What holds of the pool whatever the participants do, proved over the
//! model.

use crate::model::{MailboxView, Operation, PoolView, Registration, Waiter};
use vstd::prelude::*;

verus! {

/// An issued id is fresh: it lies above every id that the pool has issued or
/// seen, nobody who waits or is paired has it, and issuing it keeps the
/// pool's invariants.
pub proof fn lemma_issued_ids_are_fresh<W>(pool: PoolView<W>, reading: u128)
    requires
        pool.wf(),
    ensures
        pool.issue(reading).wf(),
        pool.fresh_id(reading) matches Some(id) ==> id > pool.issued && !pool.is_waiting(id)
            && !pool.is_paired(id) && !pool.issue(reading).is_waiting(id) && !pool.issue(
            reading,
        ).is_paired(id) && pool.issue(reading).issued == id,
{
}

/// The record of ids only grows: no operation lowers the highest id that
/// the pool has issued or seen.
pub proof fn lemma_record_grows<W>(pool: PoolView<W>, operation: Operation<W>)
    ensures
        pool.issued <= pool.apply(operation).issued,
{
}

/// The id that the operation at place `at` of `history` gives to a new
/// participant, if it is one that issues an id and there was one left.
pub open spec fn issued_at<W>(history: Seq<Operation<W>>, at: int) -> Option<u128> {
    match history[at] {
        Operation::Issue { reading } => PoolView::after(history.take(at)).fresh_id(reading),
        _ => None,
    }
}

proof fn lemma_record_grows_along<W>(history: Seq<Operation<W>>, from: int, to: int)
    requires
        0 <= from <= to <= history.len(),
    ensures
        PoolView::after(history.take(from)).issued <= PoolView::after(history.take(to)).issued,
    decreases to - from,
{
    if from < to {
        lemma_record_grows_along(history, from, to - 1);
        assert(history.take(to).drop_last() =~= history.take(to - 1));
        lemma_record_grows(PoolView::after(history.take(to - 1)), history.take(to).last());
    }
}

/// No id is issued twice. Whatever happens in the pool, and whatever the
/// clock shows, be it the same reading again or an earlier one, a
/// participant that is given its id later gets a higher one than every
/// participant before it.
pub proof fn lemma_issued_ids_differ<W>(history: Seq<Operation<W>>, earlier: int, later: int)
    requires
        0 <= earlier < later < history.len(),
        issued_at(history, earlier) is Some,
        issued_at(history, later) is Some,
    ensures
        issued_at(history, earlier)->0 < issued_at(history, later)->0,
{
    let reading = history[earlier]->Issue_reading;
    let before = PoolView::after(history.take(earlier));
    assert(history.take(earlier + 1).drop_last() =~= history.take(earlier));
    assert(history.take(earlier + 1).last() == history[earlier]);
    assert(PoolView::after(history.take(earlier + 1)) == before.issue(reading));
    lemma_record_grows_along(history, earlier + 1, later);
}

/// Registration keeps the pool's invariants: nobody waits twice, and nobody
/// waits and is paired at once.
pub proof fn lemma_register_keeps_invariants<W>(pool: PoolView<W>, id: u128, wake: W)
    requires
        pool.wf(),
    ensures
        pool.register(id, wake).wf(),
{
    let after = pool.register(id, wake);
    if !pool.is_paired(id) && !pool.is_waiting(id) && pool.waiting.len() > 0 {
        // The line has lost its first entry: what stands at `i` stood at `i + 1`.
        assert forall|i: int, j: int| 0 <= i < j < after.waiting.len() implies (
        #[trigger] after.waiting[i]).id != (#[trigger] after.waiting[j]).id by {
            assert(after.waiting[i] == pool.waiting[i + 1]);
            assert(after.waiting[j] == pool.waiting[j + 1]);
        }
        // Who still waits is neither the newcomer nor the waiter that left.
        assert forall|i: int| 0 <= i < after.waiting.len() implies !after.mailboxes.contains_key(
            (#[trigger] after.waiting[i]).id,
        ) by {
            assert(after.waiting[i] == pool.waiting[i + 1]);
            assert(pool.waiting[0].id != pool.waiting[i + 1].id);
        }
        assert(pool.waiting[0].id != id);
    }
}

/// Delivery keeps the pool's invariants.
pub proof fn lemma_deliver_keeps_invariants<W>(pool: PoolView<W>, to: u128, text: Seq<char>)
    requires
        pool.wf(),
    ensures
        pool.deliver(to, text).wf(),
{
}

/// Reading keeps the pool's invariants.
pub proof fn lemma_take_keeps_invariants<W>(pool: PoolView<W>, id: u128, wake: W)
    requires
        pool.wf(),
    ensures
        pool.take(id, wake).wf(),
{
}

/// Teardown keeps the pool's invariants.
pub proof fn lemma_teardown_keeps_invariants<W>(pool: PoolView<W>, id: u128, partner: u128)
    requires
        pool.wf(),
    ensures
        pool.teardown(id, partner).wf(),
{
}

/// The invariants hold in every state that the pool can reach. The sessions
/// share the pool under one lock, so whatever they do at once reaches the
/// pool as some sequence of operations; after any such sequence nobody waits
/// twice, nobody waits and is paired at once, and at most one participant
/// waits.
pub proof fn lemma_every_history_keeps_invariants<W>(history: Seq<Operation<W>>)
    ensures
        PoolView::after(history).wf(),
        PoolView::after(history).waiting.len() <= 1,
    decreases history.len(),
{
    if history.len() > 0 {
        let before = PoolView::after(history.drop_last());
        lemma_every_history_keeps_invariants(history.drop_last());
        match history.last() {
            Operation::Issue { reading } => {
                lemma_issued_ids_are_fresh(before, reading);
            },
            Operation::Register { id, wake } => {
                lemma_register_keeps_invariants(before, id, wake);
            },
            Operation::Deliver { to, text } => {
                lemma_deliver_keeps_invariants(before, to, text);
            },
            Operation::Take { id, wake } => {
                lemma_take_keeps_invariants(before, id, wake);
            },
            Operation::Teardown { id, partner } => {
                lemma_teardown_keeps_invariants(before, id, partner);
            },
        }
    }
}

/// A participant that registers is never made a member of a second pair,
/// nor put in the line while it has a partner: a paired participant keeps
/// the mailbox it has, and one without a partner gets at most the oldest
/// waiter, who until then had none.
pub proof fn lemma_no_double_pairing<W>(pool: PoolView<W>, id: u128, wake: W, other: u128)
    requires
        pool.wf(),
        pool.is_paired(other),
    ensures
        pool.register(id, wake).is_paired(other),
        pool.register(id, wake).mailboxes[other] == pool.mailboxes[other],
        !pool.register(id, wake).is_waiting(other),
{
    if !pool.is_paired(id) && !pool.is_waiting(id) {
        lemma_register_keeps_invariants(pool, id, wake);
    }
}

/// A pair is made of two participants that had no partner. Whoever is handed
/// a waiter to signal was not paired before, nor was that waiter, and the two
/// are not the same participant.
pub proof fn lemma_pairs_are_made_of_the_unpaired<W>(pool: PoolView<W>, id: u128)
    requires
        pool.wf(),
        pool.registration(id) matches Registration::Paired { notify, .. } && notify is Some,
    ensures
        !pool.is_paired(id),
        !pool.is_waiting(id),
        pool.registration(id) matches Registration::Paired { partner, .. } && partner != id
            && pool.is_waiting(partner) && !pool.is_paired(partner),
{
    assert(pool.is_waiting(pool.waiting[0].id));
}

/// The place in the order of arrival of the participant that the one at
/// place `i` is paired with: they pair up two by two.
pub open spec fn mate(i: int) -> int {
    if i % 2 == 0 {
        i + 1
    } else {
        i - 1
    }
}

/// `id` is among the first `count` of `ids`.
pub open spec fn among_first(ids: Seq<u128>, count: int, id: u128) -> bool {
    exists|i: int| 0 <= i < count && i < ids.len() && #[trigger] ids[i] == id
}

/// The pool after the participants `ids` have registered in that order, the
/// one at place `i` leaving the handle `wakes[i]`, starting from the empty
/// pool.
pub open spec fn after_arrivals<W>(ids: Seq<u128>, wakes: Seq<W>) -> PoolView<W>
    decreases ids.len(),
{
    if ids.len() == 0 {
        PoolView::empty()
    } else {
        after_arrivals(ids.drop_last(), wakes.drop_last()).register(ids.last(), wakes.last())
    }
}

/// What `lemma_fifo_pairing` states of `pool` as the pool after the arrival
/// of `ids`.
pub open spec fn paired_in_order<W>(ids: Seq<u128>, wakes: Seq<W>, pool: PoolView<W>) -> bool {
    let even = ids.len() - ids.len() % 2;
    &&& pool.wf()
    &&& forall|i: int|
        0 <= i < even ==> pool.is_paired(#[trigger] ids[i]) && pool.mailboxes[ids[i]].partner
            == ids[mate(i)]
    &&& forall|id: u128| #[trigger] pool.is_paired(id) ==> among_first(ids, even, id)
    &&& ids.len() % 2 == 0 ==> pool.waiting == Seq::<Waiter<W>>::empty()
    &&& ids.len() % 2 == 1 ==> pool.waiting == seq![Waiter { id: ids.last(), wake: wakes.last() }]
}

proof fn lemma_arrival_to_empty_line<W>(
    ids: Seq<u128>,
    wakes: Seq<W>,
    before: PoolView<W>,
)
    requires
        ids.len() == wakes.len(),
        ids.len() % 2 == 1,
        ids.no_duplicates(),
        paired_in_order(ids.drop_last(), wakes.drop_last(), before),
    ensures
        paired_in_order(ids, wakes, before.register(ids.last(), wakes.last())),
{
    let n = ids.len() as int;
    let earlier = ids.drop_last();
    let id = ids.last();
    let wake = wakes.last();
    let pool = before.register(id, wake);
    lemma_register_keeps_invariants(before, id, wake);
    if before.is_paired(id) {
        assert(among_first(earlier, n - 1, id));
        let i = choose|i: int| 0 <= i < n - 1 && i < earlier.len() && #[trigger] earlier[i] == id;
        assert(ids[i] == ids[n - 1]);
    }
    assert(!before.is_waiting(id));
    assert(pool.waiting =~= seq![Waiter { id, wake }]);
    assert(pool.mailboxes == before.mailboxes);
    assert forall|i: int| 0 <= i < n - 1 implies pool.is_paired(#[trigger] ids[i])
        && pool.mailboxes[ids[i]].partner == ids[mate(i)] by {
        assert(earlier[i] == ids[i]);
        assert(earlier[mate(i)] == ids[mate(i)]);
    }
    assert forall|other: u128| #[trigger] pool.is_paired(other) implies among_first(
        ids,
        n - 1,
        other,
    ) by {
        assert(before.is_paired(other));
        assert(among_first(earlier, n - 1, other));
        let i = choose|i: int|
            0 <= i < n - 1 && i < earlier.len() && #[trigger] earlier[i] == other;
        assert(ids[i] == other);
    }
}

proof fn lemma_arrival_to_waiter<W>(ids: Seq<u128>, wakes: Seq<W>, before: PoolView<W>)
    requires
        ids.len() == wakes.len(),
        ids.len() > 0,
        ids.len() % 2 == 0,
        ids.no_duplicates(),
        paired_in_order(ids.drop_last(), wakes.drop_last(), before),
    ensures
        paired_in_order(ids, wakes, before.register(ids.last(), wakes.last())),
{
    let n = ids.len() as int;
    let earlier = ids.drop_last();
    let id = ids.last();
    let wake = wakes.last();
    let pool = before.register(id, wake);
    lemma_register_keeps_invariants(before, id, wake);
    let oldest = before.waiting[0];
    assert(oldest.id == earlier.last());
    assert(oldest.id == ids[n - 2]);
    if before.is_paired(id) {
        assert(among_first(earlier, n - 2, id));
        let i = choose|i: int| 0 <= i < n - 2 && i < earlier.len() && #[trigger] earlier[i] == id;
        assert(ids[i] == ids[n - 1]);
    }
    if before.is_waiting(id) {
        let i = choose|i: int|
            0 <= i < before.waiting.len() && (#[trigger] before.waiting[i]).id == id;
        assert(ids[n - 2] == ids[n - 1]);
    }
    assert(pool.waiting =~= Seq::<Waiter<W>>::empty());
    assert(pool.mailboxes == before.mailboxes.insert(id, MailboxView::fresh(oldest.id)).insert(
        oldest.id,
        MailboxView::fresh(id),
    ));
    assert forall|i: int| 0 <= i < n implies pool.is_paired(#[trigger] ids[i])
        && pool.mailboxes[ids[i]].partner == ids[mate(i)] by {
        if i < n - 2 {
            assert(earlier[i] == ids[i]);
            assert(earlier[mate(i)] == ids[mate(i)]);
            assert(ids[i] != ids[n - 1]);
            assert(ids[i] != ids[n - 2]);
        }
    }
    assert forall|other: u128| #[trigger] pool.is_paired(other) implies among_first(
        ids,
        n,
        other,
    ) by {
        if other == id {
            assert(ids[n - 1] == other);
        } else if other == oldest.id {
            assert(ids[n - 2] == other);
        } else {
            assert(before.is_paired(other));
            assert(among_first(earlier, n - 2, other));
            let i = choose|i: int|
                0 <= i < n - 2 && i < earlier.len() && #[trigger] earlier[i] == other;
            assert(ids[i] == other);
        }
    }
}

/// Pairing is first come, first served. Of participants that arrive one
/// after the other, the first is paired with the second, the third with the
/// fourth, and so on; nobody else is paired; and where their number is odd,
/// the last one waits alone, with the handle it left.
pub proof fn lemma_fifo_pairing<W>(ids: Seq<u128>, wakes: Seq<W>)
    requires
        ids.len() == wakes.len(),
        ids.no_duplicates(),
    ensures
        paired_in_order(ids, wakes, after_arrivals(ids, wakes)),
    decreases ids.len(),
{
    if ids.len() > 0 {
        let before = after_arrivals(ids.drop_last(), wakes.drop_last());
        lemma_fifo_pairing(ids.drop_last(), wakes.drop_last());
        if ids.len() % 2 == 1 {
            lemma_arrival_to_empty_line(ids, wakes, before);
        } else {
            lemma_arrival_to_waiter(ids, wakes, before);
        }
    }
}

/// What each arrival is told. Of participants that arrive one after the
/// other, every second one is paired on arrival, with the one that came just
/// before it, and is handed that one's handle to signal; the others are told
/// to wait.
pub proof fn lemma_arrival_answers<W>(ids: Seq<u128>, wakes: Seq<W>, i: int)
    requires
        ids.len() == wakes.len(),
        ids.no_duplicates(),
        0 <= i < ids.len(),
    ensures
        after_arrivals(ids.take(i), wakes.take(i)).registration(ids[i]) == if i % 2 == 1 {
            Registration::Paired { partner: ids[i - 1], notify: Some(wakes[i - 1]) }
        } else {
            Registration::Waiting
        },
{
    let earlier = ids.take(i);
    let before = after_arrivals(earlier, wakes.take(i));
    lemma_fifo_pairing(earlier, wakes.take(i));
    if before.is_paired(ids[i]) {
        assert(among_first(earlier, i - i % 2, ids[i]));
        let k = choose|k: int|
            0 <= k < i - i % 2 && k < earlier.len() && #[trigger] earlier[k] == ids[i];
        assert(ids[k] == ids[i]);
    }
    if before.is_waiting(ids[i]) {
        let k = choose|k: int|
            0 <= k < before.waiting.len() && (#[trigger] before.waiting[k]).id == ids[i];
        assert(earlier.last() == ids[i - 1]);
    }
    if i % 2 == 1 {
        assert(earlier.last() == ids[i - 1]);
        assert(wakes.take(i).last() == wakes[i - 1]);
    }
}

/// Pairs are made and unmade as a whole. While every session tears down
/// with the partner that it was given, and only when it had one or lost it
/// to the partner's own teardown, each mailbox has its counterpart.
pub proof fn lemma_pairs_stay_mutual<W>(
    pool: PoolView<W>,
    id: u128,
    partner: u128,
    wake: W,
    text: Seq<char>,
)
    requires
        pool.wf(),
        pool.pairs_are_mutual(),
    ensures
        pool.register(id, wake).pairs_are_mutual(),
        pool.deliver(id, text).pairs_are_mutual(),
        pool.take(id, wake).pairs_are_mutual(),
        (if pool.is_paired(id) {
            pool.mailboxes[id].partner == partner
        } else {
            !pool.is_paired(partner)
        }) ==> pool.teardown(id, partner).pairs_are_mutual(),
{
    let after = pool.register(id, wake);
    if !pool.is_paired(id) && !pool.is_waiting(id) && pool.waiting.len() > 0 {
        let oldest = pool.waiting[0].id;
        assert(!pool.is_paired(oldest));
        assert forall|other: u128| #[trigger] after.mailboxes.contains_key(other) implies
            after.mailboxes.contains_key(after.mailboxes[other].partner)
            && after.mailboxes[after.mailboxes[other].partner].partner == other by {
            if other != id && other != oldest {
                assert(pool.mailboxes.contains_key(other));
            }
        }
    }
    let sent = pool.deliver(id, text);
    assert forall|other: u128| #[trigger] sent.mailboxes.contains_key(other) implies
        sent.mailboxes.contains_key(sent.mailboxes[other].partner)
        && sent.mailboxes[sent.mailboxes[other].partner].partner == other by {
        assert(pool.mailboxes.contains_key(other));
    }
    let read = pool.take(id, wake);
    assert forall|other: u128| #[trigger] read.mailboxes.contains_key(other) implies
        read.mailboxes.contains_key(read.mailboxes[other].partner)
        && read.mailboxes[read.mailboxes[other].partner].partner == other by {
        assert(pool.mailboxes.contains_key(other));
    }
    let ended = pool.teardown(id, partner);
    if (if pool.is_paired(id) {
        pool.mailboxes[id].partner == partner
    } else {
        !pool.is_paired(partner)
    }) {
        assert forall|other: u128| #[trigger] ended.mailboxes.contains_key(other) implies
            ended.mailboxes.contains_key(ended.mailboxes[other].partner)
            && ended.mailboxes[ended.mailboxes[other].partner].partner == other by {
            assert(pool.mailboxes.contains_key(other));
            if pool.is_paired(id) {
                assert(pool.mailboxes.contains_key(partner));
            }
        }
    }
}

/// Text passes unchanged. What is sent to a participant whose mailbox is
/// empty is, letter for letter, what it reads next.
pub proof fn lemma_relay_is_verbatim<W>(pool: PoolView<W>, to: u128, text: Seq<char>, wake: W)
    requires
        pool.is_paired(to),
        !pool.has_mail(to),
        text.len() > 0,
    ensures
        pool.deliver(to, text).has_mail(to),
        pool.deliver(to, text).mailboxes[to].pending == text,
        !pool.deliver(to, text).take(to, wake).has_mail(to),
{
    assert(pool.mailboxes[to].pending + text =~= text);
}

/// Deliveries coalesce. Two texts sent one after the other, with no read in
/// between, are pending as one text, the second behind the first: the reader
/// gets both in a single read and cannot tell where one ended.
pub proof fn lemma_deliveries_coalesce<W>(
    pool: PoolView<W>,
    to: u128,
    first: Seq<char>,
    second: Seq<char>,
)
    requires
        pool.is_paired(to),
    ensures
        pool.deliver(to, first).deliver(to, second) == pool.deliver(to, first + second),
        pool.deliver(to, first).deliver(to, second).mailboxes[to].pending
            == pool.mailboxes[to].pending + first + second,
{
    let pending = pool.mailboxes[to].pending;
    assert((pending + first) + second =~= pending + (first + second));
    assert(pool.deliver(to, first).deliver(to, second).mailboxes =~= pool.deliver(
        to,
        first + second,
    ).mailboxes);
}

/// A reader that waits is not forgotten. Once a read has found the mailbox
/// empty and left a handle, that handle is the one on record: a delivery
/// hands back a clone of it to be signalled, deliveries before the next read
/// leave it where it is, and the partner's teardown hands back the handle
/// itself.
pub proof fn lemma_waiting_reader_is_signalled<W>(
    pool: PoolView<W>,
    id: u128,
    wake: W,
    partner: u128,
)
    requires
        pool.is_paired(id),
        !pool.has_mail(id),
        partner != id,
    ensures
        pool.take(id, wake).reader_of(id) == Some(wake),
        forall|text: Seq<char>| #[trigger]
            pool.take(id, wake).deliver(id, text).reader_of(id) == Some(wake),
        pool.take(id, wake).teardown_notify(partner, id) == Some(wake),
{
}

/// Nobody waits on after its teardown: the session that ends is out of the
/// waiting line, and everybody else stands where they stood.
pub proof fn lemma_teardown_clears_the_line<W>(pool: PoolView<W>, id: u128, partner: u128)
    requires
        pool.wf(),
    ensures
        !pool.teardown(id, partner).is_waiting(id),
        forall|other: u128|
            other != id ==> (#[trigger] pool.teardown(id, partner).is_waiting(other)
                <==> pool.is_waiting(other)),
{
    let after = pool.teardown(id, partner);
    if pool.is_waiting(id) {
        let place = pool.place_of(id);
        assert forall|i: int| 0 <= i < after.waiting.len() implies #[trigger] after.waiting[i]
            == pool.waiting[if i < place {
            i
        } else {
            i + 1
        }] by {}
        if after.is_waiting(id) {
            let i = choose|i: int|
                0 <= i < after.waiting.len() && (#[trigger] after.waiting[i]).id == id;
            assert(pool.waiting[if i < place { i } else { i + 1 }].id == id);
        }
        assert forall|other: u128| other != id implies (#[trigger] after.is_waiting(other)
            <==> pool.is_waiting(other)) by {
            if after.is_waiting(other) {
                let i = choose|i: int|
                    0 <= i < after.waiting.len() && (#[trigger] after.waiting[i]).id == other;
                assert(pool.waiting[if i < place { i } else { i + 1 }].id == other);
            }
            if pool.is_waiting(other) {
                let i = choose|i: int|
                    0 <= i < pool.waiting.len() && (#[trigger] pool.waiting[i]).id == other;
                assert(after.waiting[if i < place { i } else { i - 1 }].id == other);
            }
        }
    } else {
        assert(after.waiting == pool.waiting);
    }
}

/// A departure reaches the partner. After one side of a pair has torn down,
/// neither side has a mailbox: whatever the other side asks of the pool next,
/// a delivery or a read, fails as a closed connection.
pub proof fn lemma_departure_closes_both<W>(pool: PoolView<W>, leaver: u128, partner: u128)
    ensures
        !pool.teardown(leaver, partner).is_paired(leaver),
        !pool.teardown(leaver, partner).is_paired(partner),
{
}

/// Teardown may be repeated. A second teardown of the same pair changes
/// nothing and hands back no handle: nobody is signalled twice. The same
/// holds of the partner's own teardown that follows, unless the partner named
/// is somebody who waits, whom that teardown takes out of the line.
pub proof fn lemma_teardown_is_idempotent<W>(pool: PoolView<W>, id: u128, partner: u128)
    requires
        pool.wf(),
    ensures
        pool.teardown(id, partner).teardown(id, partner) == pool.teardown(id, partner),
        pool.teardown(id, partner).teardown_notify(id, partner) is None,
        !pool.is_waiting(partner) ==> pool.teardown(id, partner).teardown(partner, id)
            == pool.teardown(id, partner),
        pool.teardown(id, partner).teardown_notify(partner, id) is None,
{
    let once = pool.teardown(id, partner);
    lemma_teardown_clears_the_line(pool, id, partner);
    assert(once.teardown(id, partner).mailboxes =~= once.mailboxes);
    assert(once.teardown(partner, id).mailboxes =~= once.mailboxes);
    if !pool.is_waiting(partner) && partner != id {
        assert(!once.is_waiting(partner));
    }
}

} // verus!
