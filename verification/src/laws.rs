//! Laws that relate several coordinator steps.
//!
//! Each proof function here states a guarantee that spans more than
//! one operation, over the transition relations that the operations'
//! own contracts establish.  Single-step guarantees — id preservation,
//! outbox consumption on acknowledgement, self-announce without
//! overlay traffic, subscriber cleanup — are stated directly in the
//! `ensures` of the functions they concern.

use vstd::prelude::*;

use crate::daemon::{announce_applied, message_queued, message_received, is_restart_of, Daemon};
use crate::json::JsonView;
use crate::store::{Store, has_blob, has_outbox_row, has_announcement, ann_received, ann_data,
    ann_index_of, app_id_of, peer_id_of};

verus! {

broadcast use vstd::std_specs::vec::group_vec_axioms, vstd::seq::group_seq_axioms;

/// Inbox ordering: two messages delivered one after the other are
/// stored under strictly increasing inbox ids, so the events pushed
/// to a destination's subscribers carry strictly increasing ids, in
/// delivery order.
pub proof fn lemma_inbox_ordering(
    s0: Store,
    s1: Store,
    s2: Store,
    sender1: Seq<char>,
    sender2: Seq<char>,
    local: Seq<char>,
    from1: Seq<char>,
    to1: Seq<char>,
    from2: Seq<char>,
    to2: Seq<char>,
    d1: Seq<u8>,
    d2: Seq<u8>,
    t1: i64,
    t2: i64,
    id1: i64,
    id2: i64,
)
    requires
        message_received(s0, s1, sender1, local, from1, to1, d1, t1, id1),
        message_received(s1, s2, sender2, local, from2, to2, d2, t2, id2),
    ensures
        id1 < id2,
{
    let n = s1.inbox@.len() - 1;
    assert(s1.inbox@[n].id == id1);
    assert(s1.inbox@[n].id < id2);
}

/// Blob interning: queueing the identical byte sequence twice creates
/// two outbox rows but at most one new blob row, and both rows
/// reference the same blob.
pub proof fn lemma_blob_interning(
    s0: Store,
    s1: Store,
    s2: Store,
    from1: i64,
    to1: i64,
    from2: i64,
    to2: i64,
    data: Seq<u8>,
    t1: i64,
    t2: i64,
    o1: i64,
    o2: i64,
)
    requires
        message_queued(s0, s1, from1, to1, data, t1, o1),
        message_queued(s1, s2, from2, to2, data, t2, o2),
    ensures
        s2.outbox@.len() == s0.outbox@.len() + 2,
        has_blob(s0, data) ==> s2.blobs == s0.blobs,
        !has_blob(s0, data) ==> s2.blobs@.len() == s0.blobs@.len() + 1,
        s2.outbox@[s2.outbox@.len() - 1].message_id == s2.outbox@[s2.outbox@.len()
            - 2].message_id,
{
    assert(has_blob(s1, data));
    assert(s2.blobs == s1.blobs);
    let n1 = s1.outbox@.len() - 1;
    assert(s1.outbox@[n1].message_id == crate::store::blob_id_of(s1, data));
    assert(s2.outbox@[n1] == s1.outbox@[n1]);
    assert(s2.outbox@[s2.outbox@.len() - 1].message_id == crate::store::blob_id_of(s2, data));
}

/// Announcement idempotence: announcing twice for the same app leaves
/// exactly one announcement row for it, holding the payload and the
/// later timestamp, and no extra rows anywhere.
pub proof fn lemma_announcement_idempotence(
    s0: Store,
    s1: Store,
    s2: Store,
    peer: Seq<char>,
    uuid: Seq<char>,
    data: JsonView,
    t1: i64,
    t2: i64,
)
    requires
        s2.wf(),
        announce_applied(s0, s1, peer, uuid, t1, data),
        announce_applied(s1, s2, peer, uuid, t2, data),
    ensures
        ({
            let app = app_id_of(s2, peer_id_of(s2, peer), uuid);
            &&& has_announcement(s2, app)
            &&& ann_received(s2, app) == t2
            &&& ann_data(s2, app) == data
            &&& (forall|i: int|
                0 <= i < s2.announcements@.len() && (#[trigger] s2.announcements@[i]).app_id
                    == app ==> i == ann_index_of(s2, app))
        }),
        s2.announcements@.len() == s1.announcements@.len(),
{
    assert(s2.peers == s1.peers);
    assert(s2.apps == s1.apps);
    let app = app_id_of(s1, peer_id_of(s1, peer), uuid);
    assert(app_id_of(s2, peer_id_of(s2, peer), uuid) == app);
    assert(has_announcement(s1, app));
    assert(ann_received(s2, app) == t2 && ann_data(s2, app) == data);
    assert forall|i: int|
        0 <= i < s2.announcements@.len() && (#[trigger] s2.announcements@[i]).app_id
            == app implies i == ann_index_of(s2, app) by {
        let w = ann_index_of(s2, app);
        assert(s2.announcements@[w].app_id == app);
    }
    if s2.announcements@.len() != s1.announcements@.len() {
        assert(has_announcement(s1, app));
    }
}

/// Crash safety: killing the daemon after a send was queued but
/// before its acknowledgement leaves the queued outbox row in the
/// store after restart, while the delivery-attempt table starts
/// empty, so no acknowledgement can ever consume the row silently.
pub proof fn lemma_crash_safety(
    pre: Daemon,
    mid: Daemon,
    post: Daemon,
    from_app: i64,
    to_app: i64,
    data: Seq<u8>,
    now: i64,
    outbox_id: i64,
)
    requires
        message_queued(pre.store, mid.store, from_app, to_app, data, now, outbox_id),
        is_restart_of(post, mid),
    ensures
        has_outbox_row(post.store, outbox_id),
        post.delivery_attempts@.len() == 0,
        pre.store.wf() ==> (forall|i: int|
            0 <= i < post.store.outbox@.len() && (#[trigger] post.store.outbox@[i]).id
                == outbox_id ==> post.store.outbox@[i].queued == now),
{
    assert(post.store == mid.store);
    assert(has_outbox_row(mid.store, outbox_id));
    if pre.store.wf() {
        assert forall|i: int|
            0 <= i < post.store.outbox@.len() && (#[trigger] post.store.outbox@[i]).id
                == outbox_id implies post.store.outbox@[i].queued == now by {
            let n = mid.store.outbox@.len() - 1;
            if i < n {
                assert(mid.store.outbox@[i] == pre.store.outbox@[i]);
                assert(pre.store.outbox@[i].id < outbox_id);
            }
        }
    }
}

} // verus!
