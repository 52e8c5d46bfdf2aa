use live_chat::error::ChatError;
use live_chat::lifecycle::Phase;
use live_chat::pool::PairingPool;
use live_chat::session::{acknowledgement, Inbound, Joined, Session, Step};

fn session(pool: &mut PairingPool<&'static str>, reading: u128) -> Session {
    Session::from_reading(pool, Ok(reading)).unwrap()
}

fn pair_up(pool: &mut PairingPool<&'static str>) -> (Session, Session) {
    let mut first = session(pool, 1);
    let mut second = session(pool, 2);
    assert!(matches!(first.join(pool, "first"), Ok(Joined::Waiting)));
    assert!(matches!(
        second.join(pool, "second"),
        Ok(Joined::Paired { ack: "OK", notify: Some("first") })
    ));
    assert!(matches!(first.join(pool, "first"), Ok(Joined::Paired { ack: "OK", notify: None })));
    (first, second)
}

#[test]
fn acknowledgement_is_the_two_bytes_ok() {
    assert_eq!(acknowledgement(), "OK");
    assert_eq!(acknowledgement().as_bytes(), b"OK");
}

#[test]
fn new_session_is_connecting_and_has_no_partner() {
    let mut pool: PairingPool<&'static str> = PairingPool::new();
    let session = session(&mut pool, 42);
    assert_eq!(session.id(), 42);
    assert_eq!(session.partner(), None);
    assert_eq!(session.phase(), Phase::Connecting);
}

#[test]
fn started_session_takes_its_id_from_the_clock() {
    let mut pool: PairingPool<&'static str> = PairingPool::new();
    let session = Session::start(&mut pool).unwrap();
    assert_eq!(session.phase(), Phase::Connecting);
    assert_eq!(session.partner(), None);
    // Nanoseconds since 1970: any clock that is set at all is past 2017.
    assert!(session.id() > 1_500_000_000_000_000_000);
    assert!(!pool.is_waiting(session.id()));
    assert_eq!(pool.partner_of(session.id()), None);
}

#[test]
fn both_members_are_acknowledged_before_any_chat() {
    let mut pool: PairingPool<&'static str> = PairingPool::new();
    let mut first = session(&mut pool, 1);
    let mut second = session(&mut pool, 2);
    assert!(matches!(first.join(&mut pool, "first"), Ok(Joined::Waiting)));
    assert_eq!(first.phase(), Phase::Waiting);
    assert_eq!(first.partner(), None);
    match second.join(&mut pool, "second") {
        Ok(Joined::Paired { ack, notify }) => {
            assert_eq!(ack, "OK");
            assert_eq!(notify, Some("first"));
        }
        _ => panic!("the second arrival is paired at once"),
    }
    assert_eq!(second.phase(), Phase::Paired);
    assert_eq!(second.partner(), Some(1));
    match first.join(&mut pool, "first") {
        Ok(Joined::Paired { ack, notify }) => {
            assert_eq!(ack, "OK");
            assert_eq!(notify, None);
        }
        _ => panic!("the waiter learns of its partner"),
    }
    assert_eq!(first.phase(), Phase::Paired);
    assert_eq!(first.partner(), Some(2));
}

#[test]
fn waiter_woken_for_nothing_waits_on() {
    let mut pool: PairingPool<&'static str> = PairingPool::new();
    let mut lonely = session(&mut pool, 1);
    assert!(matches!(lonely.join(&mut pool, "w"), Ok(Joined::Waiting)));
    assert!(matches!(lonely.join(&mut pool, "w"), Ok(Joined::Waiting)));
    assert_eq!(lonely.phase(), Phase::Waiting);
}

#[test]
fn hello_passes_from_one_side_to_the_other() {
    let mut pool: PairingPool<&'static str> = PairingPool::new();
    let (mut a, mut b) = pair_up(&mut pool);
    assert!(matches!(b.on_mailbox(&mut pool, "reader b"), Step::Suspend));
    match a.on_inbound(&mut pool, Inbound::Text(String::from("hello"))) {
        Step::Continue { notify } => assert_eq!(notify, Some("reader b")),
        _ => panic!("text is delivered"),
    }
    match b.on_mailbox(&mut pool, "reader b") {
        Step::Write { text } => assert_eq!(text, "hello"),
        _ => panic!("text is pending"),
    }
    assert!(matches!(b.on_mailbox(&mut pool, "reader b"), Step::Suspend));
    assert!(matches!(a.on_mailbox(&mut pool, "reader a"), Step::Suspend));
    assert_eq!(a.phase(), Phase::Paired);
    assert_eq!(b.phase(), Phase::Paired);
}

#[test]
fn bursts_are_written_as_one_message() {
    let mut pool: PairingPool<&'static str> = PairingPool::new();
    let (mut a, mut b) = pair_up(&mut pool);
    assert!(matches!(b.on_mailbox(&mut pool, "reader b"), Step::Suspend));
    assert!(matches!(
        a.on_inbound(&mut pool, Inbound::Text(String::from("foo"))),
        Step::Continue { notify: Some("reader b") }
    ));
    assert!(matches!(
        a.on_inbound(&mut pool, Inbound::Text(String::from("bar"))),
        Step::Continue { notify: Some("reader b") }
    ));
    match b.on_mailbox(&mut pool, "reader b") {
        Step::Write { text } => assert_eq!(text, "foobar"),
        _ => panic!("text is pending"),
    }
}

#[test]
fn close_signal_ends_the_relay_without_an_error() {
    let mut pool: PairingPool<&'static str> = PairingPool::new();
    let (mut a, _b) = pair_up(&mut pool);
    assert!(matches!(a.on_inbound(&mut pool, Inbound::Close), Step::Leave { verdict: Ok(()) }));
    assert_eq!(a.phase(), Phase::Closing);
    assert_eq!(pool.partner_of(1), Some(2));
}

#[test]
fn anything_but_text_or_close_is_an_unexpected_frame() {
    let mut pool: PairingPool<&'static str> = PairingPool::new();
    let (mut a, _b) = pair_up(&mut pool);
    assert!(matches!(
        a.on_inbound(&mut pool, Inbound::Other),
        Step::Leave { verdict: Err(ChatError::UnexpectedFrame) }
    ));
    assert_eq!(a.phase(), Phase::Closing);
}

#[test]
fn departure_is_seen_by_the_partner_at_its_next_step() {
    let mut pool: PairingPool<&'static str> = PairingPool::new();
    let (mut a, mut b) = pair_up(&mut pool);
    assert!(matches!(a.on_mailbox(&mut pool, "reader a"), Step::Suspend));
    assert!(matches!(b.on_inbound(&mut pool, Inbound::Close), Step::Leave { verdict: Ok(()) }));
    assert_eq!(b.finish(&mut pool), Some("reader a"));
    assert_eq!(b.phase(), Phase::Closed);
    assert!(matches!(
        a.on_mailbox(&mut pool, "reader a"),
        Step::Leave { verdict: Err(ChatError::ClosedConnection) }
    ));
    assert_eq!(a.phase(), Phase::Closing);
    assert_eq!(a.finish(&mut pool), None);
    assert_eq!(a.phase(), Phase::Closed);
}

#[test]
fn text_for_a_departed_partner_is_a_closed_connection() {
    let mut pool: PairingPool<&'static str> = PairingPool::new();
    let (mut a, mut b) = pair_up(&mut pool);
    b.leave();
    assert_eq!(b.phase(), Phase::Closing);
    assert_eq!(b.finish(&mut pool), None);
    assert!(matches!(
        a.on_inbound(&mut pool, Inbound::Text(String::from("anyone?"))),
        Step::Leave { verdict: Err(ChatError::ClosedConnection) }
    ));
    assert_eq!(a.phase(), Phase::Closing);
}

#[test]
fn finishing_twice_signals_nobody_twice() {
    let mut pool: PairingPool<&'static str> = PairingPool::new();
    let (mut a, mut b) = pair_up(&mut pool);
    assert!(matches!(b.on_mailbox(&mut pool, "reader b"), Step::Suspend));
    a.leave();
    assert_eq!(a.finish(&mut pool), Some("reader b"));
    assert_eq!(a.finish(&mut pool), None);
    assert_eq!(a.phase(), Phase::Closed);
    assert_eq!(pool.partner_of(1), None);
    assert_eq!(pool.partner_of(2), None);
}

#[test]
fn finishing_a_session_that_never_joined_leaves_the_pool_alone() {
    let mut pool: PairingPool<&'static str> = PairingPool::new();
    let (_a, _b) = pair_up(&mut pool);
    let mut stranger = session(&mut pool, 3);
    assert_eq!(stranger.finish(&mut pool), None);
    assert_eq!(stranger.phase(), Phase::Closed);
    assert_eq!(pool.partner_of(1), Some(2));
    assert_eq!(pool.partner_of(2), Some(1));
}

#[test]
fn waiter_given_up_after_it_was_paired_takes_its_pair_down() {
    let mut pool: PairingPool<&'static str> = PairingPool::new();
    let mut first = session(&mut pool, 1);
    let mut second = session(&mut pool, 2);
    assert!(matches!(first.join(&mut pool, "first"), Ok(Joined::Waiting)));
    assert!(matches!(second.join(&mut pool, "second"), Ok(Joined::Paired { .. })));
    assert!(matches!(second.on_mailbox(&mut pool, "reader 2"), Step::Suspend));
    first.leave();
    assert_eq!(first.finish(&mut pool), Some("reader 2"));
    assert_eq!(pool.partner_of(1), None);
    assert_eq!(pool.partner_of(2), None);
}

#[test]
fn clock_reading_becomes_the_id() {
    let mut pool: PairingPool<&'static str> = PairingPool::new();
    let session = Session::from_reading(&mut pool, Ok(1_730_000_000_123_456_789)).unwrap();
    assert_eq!(session.id(), 1_730_000_000_123_456_789);
    assert_eq!(session.partner(), None);
    assert_eq!(session.phase(), Phase::Connecting);
}

#[test]
fn clock_without_a_reading_is_passed_on_as_it_came() {
    let mut pool: PairingPool<&'static str> = PairingPool::new();
    let refused = Session::from_reading(&mut pool, Err(wtx::Error::ClosedHttpConnection));
    assert!(matches!(
        refused,
        Err(ChatError::Collaborator(wtx::Error::ClosedHttpConnection))
    ));
    assert_eq!(session(&mut pool, 0).id(), 1);
}

#[test]
fn sessions_started_on_one_reading_get_different_ids() {
    let mut pool: PairingPool<&'static str> = PairingPool::new();
    let first = session(&mut pool, 1_000);
    let second = session(&mut pool, 1_000);
    let third = session(&mut pool, 1_000);
    assert_eq!(first.id(), 1_000);
    assert_eq!(second.id(), 1_001);
    assert_eq!(third.id(), 1_002);
}

#[test]
fn clock_that_runs_backwards_repeats_no_id() {
    let mut pool: PairingPool<&'static str> = PairingPool::new();
    let first = session(&mut pool, 500);
    let second = session(&mut pool, 7);
    let third = session(&mut pool, 501);
    let fourth = session(&mut pool, 9_000);
    assert_eq!(first.id(), 500);
    assert_eq!(second.id(), 501);
    assert_eq!(third.id(), 502);
    assert_eq!(fourth.id(), 9_000);
}

#[test]
fn sessions_started_on_one_reading_are_paired_with_each_other() {
    let mut pool: PairingPool<&'static str> = PairingPool::new();
    let mut first = session(&mut pool, 77);
    let mut second = session(&mut pool, 77);
    assert!(matches!(first.join(&mut pool, "first"), Ok(Joined::Waiting)));
    assert!(matches!(
        second.join(&mut pool, "second"),
        Ok(Joined::Paired { ack: "OK", notify: Some("first") })
    ));
    assert_eq!(second.partner(), Some(first.id()));
    assert_eq!(pool.partner_of(first.id()), Some(second.id()));
}

#[test]
fn no_session_is_started_once_the_ids_are_used_up() {
    let mut pool: PairingPool<&'static str> = PairingPool::new();
    assert_eq!(session(&mut pool, u128::MAX).id(), u128::MAX);
    assert!(matches!(
        Session::from_reading(&mut pool, Ok(12)),
        Err(ChatError::IdsExhausted)
    ));
    assert!(matches!(
        Session::from_reading(&mut pool, Ok(u128::MAX)),
        Err(ChatError::IdsExhausted)
    ));
}

#[test]
fn waiter_that_is_finished_leaves_the_line() {
    let mut pool: PairingPool<&'static str> = PairingPool::new();
    let mut gone = session(&mut pool, 5);
    assert!(matches!(gone.join(&mut pool, "dead"), Ok(Joined::Waiting)));
    assert!(pool.is_waiting(gone.id()));
    gone.leave();
    assert_eq!(gone.finish(&mut pool), None);
    assert_eq!(gone.phase(), Phase::Closed);
    assert!(!pool.is_waiting(gone.id()));
    let mut next = session(&mut pool, 6);
    assert!(matches!(next.join(&mut pool, "next"), Ok(Joined::Waiting)));
    assert_eq!(next.partner(), None);
    let mut last = session(&mut pool, 7);
    assert!(matches!(
        last.join(&mut pool, "last"),
        Ok(Joined::Paired { ack: "OK", notify: Some("next") })
    ));
    assert_eq!(last.partner(), Some(next.id()));
}
