//! tokio channels and uuid request identifiers.
use vstd::prelude::*;
use crate::feed::FeedItem;

verus! {

#[verifier::external_type_specification]
#[verifier::external_body]
#[verifier::reject_recursive_types(T)]
pub struct ExMpscSender<T>(tokio::sync::mpsc::Sender<T>);

#[verifier::external_type_specification]
#[verifier::external_body]
#[verifier::reject_recursive_types(T)]
pub struct ExMpscReceiver<T>(tokio::sync::mpsc::Receiver<T>);

#[verifier::external_type_specification]
#[verifier::external_body]
#[verifier::reject_recursive_types(T)]
pub struct ExOneshotSender<T>(tokio::sync::oneshot::Sender<T>);

#[verifier::external_type_specification]
#[verifier::external_body]
#[verifier::reject_recursive_types(T)]
pub struct ExOneshotReceiver<T>(tokio::sync::oneshot::Receiver<T>);

/// Named by the oneshot receiver's `Future` impl, so it must be known too.
#[verifier::external_type_specification]
#[verifier::external_body]
pub struct ExOneshotRecvError(tokio::sync::oneshot::error::RecvError);

/// What the feed channel that `tx` sends into holds: the items it took in
/// and that were not yet taken out through `feed_take`, oldest first.
pub uninterp spec fn feed_queue(tx: tokio::sync::mpsc::Sender<FeedItem>) -> Seq<FeedItem>;

/// `rx` is the receiving end of the feed channel that `tx` sends into.
pub uninterp spec fn feed_pair(tx: tokio::sync::mpsc::Sender<FeedItem>, rx: tokio::sync::mpsc::Receiver<FeedItem>) -> bool;

/// The capacity the feed channel of `tx` was made with.
pub uninterp spec fn feed_capacity(tx: tokio::sync::mpsc::Sender<FeedItem>) -> nat;

/// `tokio::sync::mpsc::channel(capacity)` for feed items: an empty channel
/// and its two ends. tokio panics on a capacity of 0 or above
/// `Semaphore::MAX_PERMITS` (usize::MAX >> 3).
#[verifier::external_body]
pub(crate) fn feed_channel(capacity: usize) -> (r: (tokio::sync::mpsc::Sender<FeedItem>, tokio::sync::mpsc::Receiver<FeedItem>))
    requires
        0 < capacity <= 0x1fff_ffff,
    ensures
        feed_queue(r.0) == Seq::<FeedItem>::empty(),
        feed_pair(r.0, r.1),
        feed_capacity(r.0) == capacity,
{
    tokio::sync::mpsc::channel(capacity)
}

/// `Sender::try_send`, which does not panic: true when the channel took the
/// item, which then queues behind the others. Whether it takes it depends on the receiving
/// end, which this call does not see.
#[verifier::external_body]
pub(crate) fn feed_try_send(tx: &mut tokio::sync::mpsc::Sender<FeedItem>, item: FeedItem) -> (r: bool)
    ensures
        r ==> feed_queue(*final(tx)) == feed_queue(*old(tx)).push(item),
        !r ==> feed_queue(*final(tx)) == feed_queue(*old(tx)),
        feed_capacity(*final(tx)) == feed_capacity(*old(tx)),
        forall|rx: tokio::sync::mpsc::Receiver<FeedItem>| feed_pair(*old(tx), rx) ==> #[trigger] feed_pair(*final(tx), rx),
    no_unwind
{
    tx.try_send(item).is_ok()
}

/// `Sender::try_send` while the receiving end `rx` is still there: tokio
/// refuses the item only when the channel is full, that is when as many
/// items as its capacity are queued (a permit comes back when an item is
/// received).
#[verifier::external_body]
pub(crate) fn feed_send_open(
    tx: &mut tokio::sync::mpsc::Sender<FeedItem>,
    rx: &tokio::sync::mpsc::Receiver<FeedItem>,
    item: FeedItem,
) -> (r: bool)
    requires
        feed_pair(*old(tx), *rx),
    ensures
        r == (feed_queue(*old(tx)).len() < feed_capacity(*old(tx))),
        r ==> feed_queue(*final(tx)) == feed_queue(*old(tx)).push(item),
        !r ==> feed_queue(*final(tx)) == feed_queue(*old(tx)),
        feed_capacity(*final(tx)) == feed_capacity(*old(tx)),
        feed_pair(*final(tx), *rx),
    no_unwind
{
    let _ = rx;
    tx.try_send(item).is_ok()
}

/// `Receiver::try_recv` on the receiving end of the channel `tx` sends
/// into: the oldest queued item, if there is one. tokio documents that it
/// never reports an empty channel spuriously.
#[verifier::external_body]
pub(crate) fn feed_take(
    tx: &mut tokio::sync::mpsc::Sender<FeedItem>,
    rx: &mut tokio::sync::mpsc::Receiver<FeedItem>,
) -> (r: Option<FeedItem>)
    requires
        feed_pair(*old(tx), *old(rx)),
    ensures
        ({
            let q = feed_queue(*old(tx));
            &&& r == if q.len() > 0 { Some(q[0]) } else { None::<FeedItem> }
            &&& feed_queue(*final(tx)) == if q.len() > 0 { q.drop_first() } else { q }
        }),
        feed_capacity(*final(tx)) == feed_capacity(*old(tx)),
        feed_pair(*final(tx), *final(rx)),
    no_unwind
{
    let _ = tx;
    rx.try_recv().ok()
}

/// mpsc `Sender::try_send`: true when the channel took the value. Whether
/// it does depends on the receiver, so nothing more is promised.
#[verifier::external_body]
pub(crate) fn try_send<T>(tx: &tokio::sync::mpsc::Sender<T>, value: T) -> bool {
    tx.try_send(value).is_ok()
}

/// tokio::sync::oneshot::channel.
#[verifier::external_body]
pub(crate) fn oneshot_channel<T>() -> (tokio::sync::oneshot::Sender<T>, tokio::sync::oneshot::Receiver<T>) {
    tokio::sync::oneshot::channel()
}

/// oneshot `Sender::send`: true unless the receiver was already dropped.
#[verifier::external_body]
pub(crate) fn oneshot_send<T>(tx: tokio::sync::oneshot::Sender<T>, value: T) -> bool {
    tx.send(value).is_ok()
}

pub open spec fn is_uuid_char(c: char) -> bool {
    ('0' <= c <= '9') || ('a' <= c <= 'f') || c == '-'
}

/// `Uuid::new_v4().to_string()`: random, so only its shape is promised,
/// the 36-character lower-case hyphenated form.
#[verifier::external_body]
pub(crate) fn new_uuid() -> (r: String)
    ensures
        r@.len() == 36,
        forall|i: int| 0 <= i < 36 ==> is_uuid_char(#[trigger] r@[i]),
{
    uuid::Uuid::new_v4().to_string()
}

} // verus!
