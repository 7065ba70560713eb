//! The pending-document queue: crossbeam's segmented queue, seen through
//! the sequence of entries it holds.
use crossbeam::queue::SegQueue;
use vstd::prelude::*;

verus! {

/// One pending document: the index it goes to, and its JSON text.
pub type Entry = (String, String);

#[verifier::external_type_specification]
#[verifier::external_body]
#[verifier::reject_recursive_types(T)]
pub struct ExSegQueue<T>(SegQueue<T>);

/// The entries a queue holds, head first.
pub uninterp spec fn queued(q: SegQueue<(String, String)>) -> Seq<(String, String)>;

/// Relies on `SegQueue::new`: a new queue holds nothing.
#[verifier::external_body]
pub(crate) fn new_queue() -> (r: SegQueue<Entry>)
    ensures
        queued(r) == Seq::<Entry>::empty(),
{
    SegQueue::new()
}

/// Relies on `SegQueue::push_mut`: the entry goes to the tail.
#[verifier::external_body]
pub(crate) fn push_entry(q: &mut SegQueue<Entry>, e: Entry)
    ensures
        queued(*final(q)) == queued(*old(q)).push(e),
{
    q.push_mut(e)
}

/// Relies on `SegQueue::pop_mut`: the head leaves the queue; an empty queue
/// gives `None` and stays empty.
#[verifier::external_body]
pub(crate) fn pop_entry(q: &mut SegQueue<Entry>) -> (r: Option<Entry>)
    ensures
        queued(*old(q)).len() == 0 ==> r.is_none() && queued(*final(q)) == queued(*old(q)),
        queued(*old(q)).len() > 0 ==> r == Some(queued(*old(q))[0]) && queued(*final(q))
            == queued(*old(q)).drop_first(),
{
    q.pop_mut()
}

/// Relies on `SegQueue::len`: the number of entries held.
#[verifier::external_body]
pub(crate) fn queue_len(q: &SegQueue<Entry>) -> (r: usize)
    ensures
        r as int == queued(*q).len(),
{
    q.len()
}

/// Relies on `std::mem::take` with `SegQueue`'s `Default`, which is
/// `SegQueue::new`: the entries move out and an empty queue is left.
#[verifier::external_body]
pub(crate) fn take_queue(q: &mut SegQueue<Entry>) -> (r: SegQueue<Entry>)
    ensures
        queued(r) == queued(*old(q)),
        queued(*final(q)) == Seq::<Entry>::empty(),
{
    std::mem::take(q)
}

/// Moves every entry of `q` into a vector, head first.
pub(crate) fn drain_queue(q: SegQueue<Entry>) -> (r: Vec<Entry>)
    ensures
        r@ == queued(q),
{
    let ghost all = queued(q);
    let mut q = q;
    let mut out: Vec<Entry> = Vec::new();
    loop
        invariant
            out@ + queued(q) == all,
        ensures
            out@ == all,
        decreases queued(q).len(),
    {
        let ghost before = queued(q);
        match pop_entry(&mut q) {
            Some(e) => {
                assert(before =~= seq![e] + before.drop_first());
                out.push(e);
                assert(out@ + queued(q) =~= all);
            },
            None => {
                assert(out@ =~= all);
                break;
            },
        }
    }
    out
}

} // verus!
