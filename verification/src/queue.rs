//! The waiting line of participant ids, kept in `wtx`'s ring-buffer deque.
//!
//! Nothing in this file is proved: each function states what the deque's
//! source shows of the method it calls, and the rest of the crate is verified
//! against these statements.

use vstd::prelude::*;
use wtx::collection::Deque;

verus! {

/// `wtx::collection::Deque`, the double-ended queue, made known so that it
/// can stand in fields and signatures. Nothing of its inside is visible here:
/// what a deque of ids holds is `queued_ids`.
#[verifier::external_type_specification]
#[verifier::external_body]
#[verifier::reject_recursive_types(T)]
pub struct ExDeque<T>(Deque<T>);

/// The ids that a deque holds, the oldest at index 0.
pub uninterp spec fn queued_ids(line: Deque<u128>) -> Seq<u128>;

/// `Deque::new`: a deque that holds nothing.
#[verifier::external_body]
pub(crate) fn line_new() -> (line: Deque<u128>)
    ensures
        queued_ids(line) == Seq::<u128>::empty(),
{
    Deque::new()
}

/// `Deque::len`: the number of ids held.
#[verifier::external_body]
pub(crate) fn line_len(line: &Deque<u128>) -> (n: usize)
    ensures
        n == queued_ids(*line).len(),
{
    line.len()
}

/// `Deque::get`: the id at position `at`, counted from the front; `None`
/// where the deque holds no more than `at` ids.
#[verifier::external_body]
pub(crate) fn line_get(line: &Deque<u128>, at: usize) -> (found: Option<u128>)
    ensures
        match found {
            Some(id) => at < queued_ids(*line).len() && id == queued_ids(*line)[at as int],
            None => at >= queued_ids(*line).len(),
        },
{
    line.get(at).copied()
}

/// `Deque::push_back`: on success the id stands behind all others. The
/// method fails only where memory for one more element cannot be had, and
/// then it leaves the deque as it was.
#[verifier::external_body]
pub(crate) fn line_push_back(line: &mut Deque<u128>, id: u128) -> (pushed: Result<(), wtx::Error>)
    ensures
        pushed is Ok ==> queued_ids(*final(line)) == queued_ids(*old(line)).push(id),
        pushed is Err ==> queued_ids(*final(line)) == queued_ids(*old(line)),
{
    line.push_back(id)
}

/// `Deque::pop_front`: takes the oldest id out and returns it; `None`, and
/// no change, where the deque is empty.
#[verifier::external_body]
pub(crate) fn line_pop_front(line: &mut Deque<u128>) -> (front: Option<u128>)
    ensures
        match front {
            Some(id) => queued_ids(*old(line)).len() > 0 && id == queued_ids(*old(line))[0]
                && queued_ids(*final(line)) == queued_ids(*old(line)).drop_first(),
            None => queued_ids(*old(line)).len() == 0 && queued_ids(*final(line)) == queued_ids(
                *old(line),
            ),
        },
{
    line.pop_front()
}

} // verus!
