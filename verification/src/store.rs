//! The relational store: apps and peers, message blobs, inboxes,
//! outboxes, announcements and per-app scalars.
//!
//! This is the daemon's single consistency boundary.  Every operation
//! mutates the store atomically and preserves its well-formedness
//! invariant: unique identifiers, unique peer names, unique `(peer,
//! uuid)` app coordinates, injective labels, content-addressed blobs,
//! and inbox and outbox rows in strictly increasing id order.  The
//! surrounding process mirrors each mutation to its persistence engine
//! inside one transaction.

use vstd::prelude::*;

use crate::json::JsonValue;
use crate::protocol::{Message, MessageView};

verus! {

broadcast use vstd::std_specs::vec::group_vec_axioms, vstd::seq::group_seq_axioms,
    vstd::seq_lib::group_seq_properties;

/// A known overlay peer.
#[derive(Debug)]
pub struct PeerRow {
    pub id: i64,
    pub peer_id: String,
}

/// An app instance, addressed by `(peer, uuid)`.
#[derive(Debug)]
pub struct AppRow {
    pub id: i64,
    pub peer_id: i64,
    pub uuid: String,
}

/// A local human-readable name for one app.
#[derive(Debug)]
pub struct LabelRow {
    pub app_id: i64,
    pub label: String,
}

/// A message body, stored once per distinct byte string.
#[derive(Debug)]
pub struct BlobRow {
    pub id: i64,
    pub data: Vec<u8>,
}

/// A stored incoming message.
#[derive(Debug)]
pub struct InboxRow {
    pub id: i64,
    pub received: i64,
    pub from_app_id: i64,
    pub to_app_id: i64,
    pub message_id: i64,
}

/// A stored outgoing message awaiting acknowledgement.
#[derive(Debug)]
pub struct OutboxRow {
    pub id: i64,
    pub queued: i64,
    pub from_app_id: i64,
    pub to_app_id: i64,
    pub message_id: i64,
}

/// The single current announcement of one app.
#[derive(Debug)]
pub struct AnnouncementRow {
    pub app_id: i64,
    pub received: i64,
    pub data: JsonValue,
}

/// The last port recorded for one app.
#[derive(Debug)]
pub struct PortRow {
    pub app_id: i64,
    pub port: u16,
}

/// A store operation that was refused.
#[derive(Debug, PartialEq, Eq, Structural, Clone, Copy)]
pub enum StoreError {
    /// The label is already bound, or the app already has a label.
    LabelTaken,
}

/// The schema version that migration brings the store to.
pub const SCHEMA_VERSION: i64 = 3;

/// The daemon's relational state.
#[derive(Debug)]
pub struct Store {
    pub version: i64,
    pub peers: Vec<PeerRow>,
    pub apps: Vec<AppRow>,
    pub labels: Vec<LabelRow>,
    pub blobs: Vec<BlobRow>,
    pub inbox: Vec<InboxRow>,
    pub outbox: Vec<OutboxRow>,
    pub announcements: Vec<AnnouncementRow>,
    pub ports: Vec<PortRow>,
    pub next_peer_id: i64,
    pub next_app_id: i64,
    pub next_blob_id: i64,
    pub next_inbox_id: i64,
    pub next_outbox_id: i64,
}

/// Whether the store holds a peer row with this id.
pub open spec fn has_peer_row(s: Store, id: i64) -> bool {
    exists|i: int| 0 <= i < s.peers@.len() && (#[trigger] s.peers@[i]).id == id
}

/// Whether the store holds a peer with this textual identifier.
pub open spec fn has_peer(s: Store, text: Seq<char>) -> bool {
    exists|i: int| 0 <= i < s.peers@.len() && (#[trigger] s.peers@[i]).peer_id@ == text
}

/// The id of the peer with this textual identifier.
pub open spec fn peer_id_of(s: Store, text: Seq<char>) -> i64 {
    let i = choose|i: int| 0 <= i < s.peers@.len() && (#[trigger] s.peers@[i]).peer_id@ == text;
    s.peers@[i].id
    // well-defined under `wf` because peer names are unique
}

/// The textual identifier of the peer row with this id.
pub open spec fn peer_text(s: Store, id: i64) -> Seq<char> {
    let i = choose|i: int| 0 <= i < s.peers@.len() && (#[trigger] s.peers@[i]).id == id;
    s.peers@[i].peer_id@
}

/// Whether the store holds an app row with this id.
pub open spec fn has_app_row(s: Store, id: i64) -> bool {
    exists|i: int| 0 <= i < s.apps@.len() && (#[trigger] s.apps@[i]).id == id
}

/// Whether the store holds an app at `(peer, uuid)`.
pub open spec fn has_app(s: Store, peer_id: i64, uuid: Seq<char>) -> bool {
    exists|i: int|
        0 <= i < s.apps@.len() && (#[trigger] s.apps@[i]).peer_id == peer_id
            && s.apps@[i].uuid@ == uuid
}

/// The id of the app at `(peer, uuid)`.
pub open spec fn app_id_of(s: Store, peer_id: i64, uuid: Seq<char>) -> i64 {
    let i = choose|i: int|
        0 <= i < s.apps@.len() && (#[trigger] s.apps@[i]).peer_id == peer_id
            && s.apps@[i].uuid@ == uuid;
    s.apps@[i].id
}

/// The peer id of the app row with this id.
pub open spec fn app_peer(s: Store, id: i64) -> i64 {
    let i = choose|i: int| 0 <= i < s.apps@.len() && (#[trigger] s.apps@[i]).id == id;
    s.apps@[i].peer_id
}

/// The uuid of the app row with this id.
pub open spec fn app_uuid(s: Store, id: i64) -> Seq<char> {
    let i = choose|i: int| 0 <= i < s.apps@.len() && (#[trigger] s.apps@[i]).id == id;
    s.apps@[i].uuid@
}

/// Whether the store holds a blob row with this id.
pub open spec fn has_blob_row(s: Store, id: i64) -> bool {
    exists|i: int| 0 <= i < s.blobs@.len() && (#[trigger] s.blobs@[i]).id == id
}

/// Whether the store holds a blob with these bytes.
pub open spec fn has_blob(s: Store, data: Seq<u8>) -> bool {
    exists|i: int| 0 <= i < s.blobs@.len() && (#[trigger] s.blobs@[i]).data@ == data
}

/// The id of the blob with these bytes.
pub open spec fn blob_id_of(s: Store, data: Seq<u8>) -> i64 {
    let i = choose|i: int| 0 <= i < s.blobs@.len() && (#[trigger] s.blobs@[i]).data@ == data;
    s.blobs@[i].id
}

/// The bytes of the blob row with this id.
pub open spec fn blob_data(s: Store, id: i64) -> Seq<u8> {
    let i = choose|i: int| 0 <= i < s.blobs@.len() && (#[trigger] s.blobs@[i]).id == id;
    s.blobs@[i].data@
}

/// Whether the store binds this label.
pub open spec fn has_label(s: Store, label: Seq<char>) -> bool {
    exists|i: int| 0 <= i < s.labels@.len() && (#[trigger] s.labels@[i]).label@ == label
}

/// The app bound to this label.
pub open spec fn label_app(s: Store, label: Seq<char>) -> i64 {
    let i = choose|i: int| 0 <= i < s.labels@.len() && (#[trigger] s.labels@[i]).label@ == label;
    s.labels@[i].app_id
}

/// Whether this app already has a label.
pub open spec fn app_has_label(s: Store, app_id: i64) -> bool {
    exists|i: int| 0 <= i < s.labels@.len() && (#[trigger] s.labels@[i]).app_id == app_id
}

/// Whether this app has a stored announcement.
pub open spec fn has_announcement(s: Store, app_id: i64) -> bool {
    exists|i: int|
        0 <= i < s.announcements@.len() && (#[trigger] s.announcements@[i]).app_id == app_id
}

/// Whether this app has a recorded last port.
pub open spec fn has_port(s: Store, app_id: i64) -> bool {
    exists|i: int| 0 <= i < s.ports@.len() && (#[trigger] s.ports@[i]).app_id == app_id
}

/// Whether the character is a lowercase hexadecimal digit.
pub open spec fn is_lower_hex(c: char) -> bool {
    (('0' as u32) <= (c as u32) && (c as u32) <= ('9' as u32)) || (('a' as u32) <= (c as u32) && (
    c as u32) <= ('f' as u32))
}

/// Counters start at one and only grow.
pub open spec fn counters_wf(s: Store) -> bool {
    &&& 1 <= s.next_peer_id
    &&& 1 <= s.next_app_id
    &&& 1 <= s.next_blob_id
    &&& 1 <= s.next_inbox_id
    &&& 1 <= s.next_outbox_id
}

/// Peer rows have in-range, distinct ids and distinct names.
pub open spec fn peers_wf(s: Store) -> bool {
    &&& (forall|i: int|
        0 <= i < s.peers@.len() ==> 1 <= (#[trigger] s.peers@[i]).id < s.next_peer_id)
    &&& (forall|i: int, j: int|
        0 <= i < s.peers@.len() && 0 <= j < s.peers@.len() && i != j ==> (
        #[trigger] s.peers@[i]).id != (#[trigger] s.peers@[j]).id && s.peers@[i].peer_id@
            != s.peers@[j].peer_id@)
}

/// App rows have in-range, distinct ids, distinct coordinates, and
/// reference existing peers.
pub open spec fn apps_wf(s: Store) -> bool {
    &&& (forall|i: int|
        0 <= i < s.apps@.len() ==> 1 <= (#[trigger] s.apps@[i]).id < s.next_app_id
            && has_peer_row(s, s.apps@[i].peer_id))
    &&& (forall|i: int, j: int|
        0 <= i < s.apps@.len() && 0 <= j < s.apps@.len() && i != j ==> (
        #[trigger] s.apps@[i]).id != (#[trigger] s.apps@[j]).id && !(s.apps@[i].peer_id
            == s.apps@[j].peer_id && s.apps@[i].uuid@ == s.apps@[j].uuid@))
}

/// Label rows reference existing apps; labels and apps each appear at
/// most once.
pub open spec fn labels_wf(s: Store) -> bool {
    &&& (forall|i: int|
        0 <= i < s.labels@.len() ==> has_app_row(s, (#[trigger] s.labels@[i]).app_id))
    &&& (forall|i: int, j: int|
        0 <= i < s.labels@.len() && 0 <= j < s.labels@.len() && i != j ==> (
        #[trigger] s.labels@[i]).app_id != (#[trigger] s.labels@[j]).app_id
            && s.labels@[i].label@ != s.labels@[j].label@)
}

/// Blob rows have in-range, distinct ids and distinct contents.
pub open spec fn blobs_wf(s: Store) -> bool {
    &&& (forall|i: int|
        0 <= i < s.blobs@.len() ==> 1 <= (#[trigger] s.blobs@[i]).id < s.next_blob_id)
    &&& (forall|i: int, j: int|
        0 <= i < s.blobs@.len() && 0 <= j < s.blobs@.len() && i != j ==> (
        #[trigger] s.blobs@[i]).id != (#[trigger] s.blobs@[j]).id && s.blobs@[i].data@
            != s.blobs@[j].data@)
}

/// Inbox rows are in strictly increasing id order, with in-range ids
/// and existing apps and blob.
pub open spec fn inbox_wf(s: Store) -> bool {
    &&& (forall|i: int|
        0 <= i < s.inbox@.len() ==> 1 <= (#[trigger] s.inbox@[i]).id < s.next_inbox_id
            && has_app_row(s, s.inbox@[i].from_app_id) && has_app_row(s, s.inbox@[i].to_app_id)
            && has_blob_row(s, s.inbox@[i].message_id))
    &&& (forall|i: int, j: int|
        0 <= i < j < s.inbox@.len() ==> (#[trigger] s.inbox@[i]).id < (
        #[trigger] s.inbox@[j]).id)
}

/// Outbox rows are in strictly increasing id order, with in-range ids
/// and existing apps and blob.
pub open spec fn outbox_wf(s: Store) -> bool {
    &&& (forall|i: int|
        0 <= i < s.outbox@.len() ==> 1 <= (#[trigger] s.outbox@[i]).id < s.next_outbox_id
            && has_app_row(s, s.outbox@[i].from_app_id) && has_app_row(s, s.outbox@[i].to_app_id)
            && has_blob_row(s, s.outbox@[i].message_id))
    &&& (forall|i: int, j: int|
        0 <= i < j < s.outbox@.len() ==> (#[trigger] s.outbox@[i]).id < (
        #[trigger] s.outbox@[j]).id)
}

/// Announcement rows reference existing apps, at most one per app.
pub open spec fn announcements_wf(s: Store) -> bool {
    &&& (forall|i: int|
        0 <= i < s.announcements@.len() ==> has_app_row(
            s,
            (#[trigger] s.announcements@[i]).app_id,
        ))
    &&& (forall|i: int, j: int|
        0 <= i < s.announcements@.len() && 0 <= j < s.announcements@.len() && i != j ==> (
        #[trigger] s.announcements@[i]).app_id != (#[trigger] s.announcements@[j]).app_id)
}

/// Port rows reference existing apps, at most one per app.
pub open spec fn ports_wf(s: Store) -> bool {
    &&& (forall|i: int|
        0 <= i < s.ports@.len() ==> has_app_row(s, (#[trigger] s.ports@[i]).app_id))
    &&& (forall|i: int, j: int|
        0 <= i < s.ports@.len() && 0 <= j < s.ports@.len() && i != j ==> (
        #[trigger] s.ports@[i]).app_id != (#[trigger] s.ports@[j]).app_id)
}

impl Store {
    /// The store's well-formedness invariant.
    pub open spec fn wf(self) -> bool {
        &&& counters_wf(self)
        &&& peers_wf(self)
        &&& apps_wf(self)
        &&& labels_wf(self)
        &&& blobs_wf(self)
        &&& inbox_wf(self)
        &&& outbox_wf(self)
        &&& announcements_wf(self)
        &&& ports_wf(self)
    }

    /// A fresh, empty store at schema version zero.
    pub fn new() -> (s: Store)
        ensures
            s.wf(),
            s.version == 0,
            s.peers@.len() == 0,
            s.apps@.len() == 0,
            s.labels@.len() == 0,
            s.blobs@.len() == 0,
            s.inbox@.len() == 0,
            s.outbox@.len() == 0,
            s.announcements@.len() == 0,
            s.ports@.len() == 0,
            s.next_peer_id == 1,
            s.next_app_id == 1,
            s.next_blob_id == 1,
            s.next_inbox_id == 1,
            s.next_outbox_id == 1,
    {
        Store {
            version: 0,
            peers: Vec::new(),
            apps: Vec::new(),
            labels: Vec::new(),
            blobs: Vec::new(),
            inbox: Vec::new(),
            outbox: Vec::new(),
            announcements: Vec::new(),
            ports: Vec::new(),
            next_peer_id: 1,
            next_app_id: 1,
            next_blob_id: 1,
            next_inbox_id: 1,
            next_outbox_id: 1,
        }
    }

    /// The stored schema version.
    pub fn schema_version(&self) -> (v: i64)
        ensures
            v == self.version,
    {
        self.version
    }

    /// Forward-only schema migration: steps the version one schema at
    /// a time until it reaches the current one; later versions are
    /// left alone.
    #[verifier::loop_isolation(false)]
    pub fn migrate(&mut self)
        requires
            old(self).wf(),
        ensures
            final(self).wf(),
            *final(self) == if old(self).version < SCHEMA_VERSION {
                Store { version: SCHEMA_VERSION, ..*old(self) }
            } else {
                *old(self)
            },
    {
        while self.version < SCHEMA_VERSION
            invariant
                old(self).version >= SCHEMA_VERSION ==> self.version == old(self).version,
                old(self).version < SCHEMA_VERSION ==> old(self).version <= self.version
                    <= SCHEMA_VERSION,
                self.peers == old(self).peers,
                self.apps == old(self).apps,
                self.labels == old(self).labels,
                self.blobs == old(self).blobs,
                self.inbox == old(self).inbox,
                self.outbox == old(self).outbox,
                self.announcements == old(self).announcements,
                self.ports == old(self).ports,
                self.next_peer_id == old(self).next_peer_id,
                self.next_app_id == old(self).next_app_id,
                self.next_blob_id == old(self).next_blob_id,
                self.next_inbox_id == old(self).next_inbox_id,
                self.next_outbox_id == old(self).next_outbox_id,
            decreases SCHEMA_VERSION - self.version,
        {
            self.version = self.version + 1;
        }
    }
}

/// Compares two strings character by character.
#[verifier::loop_isolation(false)]
pub fn str_eq(a: &str, b: &str) -> (r: bool)
    ensures
        r <==> a@ == b@,
{
    let n = a.unicode_len();
    let m = b.unicode_len();
    if n != m {
        return false;
    }
    let mut i: usize = 0;
    while i < n
        invariant
            i <= n,
            n == a@.len(),
            n == b@.len(),
            forall|j: int| 0 <= j < i ==> a@[j] == b@[j],
        decreases n - i,
    {
        if a.get_char(i) != b.get_char(i) {
            return false;
        }
        i += 1;
    }
    proof {
        assert(a@ =~= b@);
    }
    true
}

/// Compares two byte strings element by element.
#[verifier::loop_isolation(false)]
pub fn bytes_eq(a: &Vec<u8>, b: &Vec<u8>) -> (r: bool)
    ensures
        r <==> a@ == b@,
{
    if a.len() != b.len() {
        return false;
    }
    let mut i: usize = 0;
    while i < a.len()
        invariant
            i <= a@.len(),
            a@.len() == b@.len(),
            forall|j: int| 0 <= j < i ==> a@[j] == b@[j],
        decreases a@.len() - i,
    {
        if a[i] != b[i] {
            return false;
        }
        i += 1;
    }
    proof {
        assert(a@ =~= b@);
    }
    true
}

// ---------------------------------------------------------------------
// Peers
// ---------------------------------------------------------------------

/// What inserting-or-finding a peer leaves behind: either the store is
/// untouched and `id` names the existing row, or exactly one peer row
/// was appended under a fresh id.
pub open spec fn put_peer_post(pre: Store, post: Store, text: Seq<char>, id: i64) -> bool {
    if has_peer(pre, text) {
        post == pre && id == peer_id_of(pre, text)
    } else {
        &&& id == pre.next_peer_id
        &&& post.peers@.len() == pre.peers@.len() + 1
        &&& (forall|j: int| 0 <= j < pre.peers@.len() ==> post.peers@[j] == pre.peers@[j])
        &&& post.peers@.last().id == id
        &&& post.peers@.last().peer_id@ == text
        &&& post.next_peer_id == pre.next_peer_id + 1
        &&& post == Store { peers: post.peers, next_peer_id: post.next_peer_id, ..pre }
    }
}

impl Store {
    /// Looks up a peer by its textual identifier.
    #[verifier::loop_isolation(false)]
    pub fn get_peer(&self, peer_id: &str) -> (r: Option<i64>)
        requires
            self.wf(),
        ensures
            match r {
                Option::Some(id) => has_peer(*self, peer_id@) && id == peer_id_of(*self, peer_id@),
                Option::None => !has_peer(*self, peer_id@),
            },
    {
        let mut i: usize = 0;
        while i < self.peers.len()
            invariant
                i <= self.peers@.len(),
                forall|j: int| 0 <= j < i ==> (#[trigger] self.peers@[j]).peer_id@ != peer_id@,
            decreases self.peers@.len() - i,
        {
            if str_eq(self.peers[i].peer_id.as_str(), peer_id) {
                proof {
                    let w = choose|k: int|
                        0 <= k < self.peers@.len() && (#[trigger] self.peers@[k]).peer_id@
                            == peer_id@;
                    assert(self.peers@[w].id == self.peers@[i as int].id);
                }
                return Option::Some(self.peers[i].id);
            }
            i += 1;
        }
        Option::None
    }

    /// Inserts a peer known not to be present yet.
    pub fn put_peer(&mut self, peer_id: &str) -> (id: i64)
        requires
            old(self).wf(),
            !has_peer(*old(self), peer_id@),
            old(self).next_peer_id < 0x7fff_ffff_ffff_ffff,
        ensures
            final(self).wf(),
            put_peer_post(*old(self), *final(self), peer_id@, id),
            has_peer(*final(self), peer_id@),
            peer_id_of(*final(self), peer_id@) == id,
            peer_text(*final(self), id) == peer_id@,
            has_peer_row(*final(self), id),
    {
        let id = self.next_peer_id;
        self.next_peer_id = self.next_peer_id + 1;
        self.peers.push(PeerRow { id, peer_id: peer_id.to_owned() });
        proof {
            let pre = *old(self);
            let post = *self;
            let n = pre.peers@.len() as int;
            assert(post.peers@[n].id == id);
            assert(post.peers@[n].peer_id@ == peer_id@);
            assert forall|i: int|
                0 <= i < post.apps@.len() implies has_peer_row(
                post,
                (#[trigger] post.apps@[i]).peer_id,
            ) by {
                assert(post.apps@[i] == pre.apps@[i]);
                assert(has_peer_row(pre, pre.apps@[i].peer_id));
                let w = choose|k: int|
                    0 <= k < pre.peers@.len() && (#[trigger] pre.peers@[k]).id
                        == pre.apps@[i].peer_id;
                assert(post.peers@[w].id == post.apps@[i].peer_id);
            }
            assert(post.wf());
            assert forall|k: int|
                0 <= k < post.peers@.len() && (#[trigger] post.peers@[k]).peer_id@
                    == peer_id@ implies k == n by {
                if k < n {
                    assert(pre.peers@[k].peer_id@ == peer_id@);
                }
            }
        }
        id
    }

    /// Looks up a peer by its textual identifier, inserting it on
    /// first reference.
    pub fn get_or_put_peer(&mut self, peer_id: &str) -> (id: i64)
        requires
            old(self).wf(),
            old(self).next_peer_id < 0x7fff_ffff_ffff_ffff,
        ensures
            final(self).wf(),
            put_peer_post(*old(self), *final(self), peer_id@, id),
            has_peer(*final(self), peer_id@),
            peer_id_of(*final(self), peer_id@) == id,
            peer_text(*final(self), id) == peer_id@,
            has_peer_row(*final(self), id),
    {
        match self.get_peer(peer_id) {
            Option::Some(id) => {
                proof {
                    let w = choose|k: int|
                        0 <= k < self.peers@.len() && (#[trigger] self.peers@[k]).peer_id@
                            == peer_id@;
                    assert(self.peers@[w].id == id);
                    let v = choose|k: int|
                        0 <= k < self.peers@.len() && (#[trigger] self.peers@[k]).id == id;
                    assert(self.peers@[v].id == self.peers@[w].id);
                    assert(v == w);
                }
                id
            },
            Option::None => self.put_peer(peer_id),
        }
    }
}

// ---------------------------------------------------------------------
// Apps and labels
// ---------------------------------------------------------------------

/// An app row survives when the app table only grows at the end.
proof fn lemma_app_row_preserved(pre: Store, post: Store, id: i64)
    requires
        post.apps@.len() >= pre.apps@.len(),
        forall|j: int| 0 <= j < pre.apps@.len() ==> post.apps@[j] == pre.apps@[j],
        has_app_row(pre, id),
    ensures
        has_app_row(post, id),
{
    let w = choose|k: int| 0 <= k < pre.apps@.len() && (#[trigger] pre.apps@[k]).id == id;
    assert(post.apps@[w].id == id);
}

/// A peer row survives when the peer table only grows at the end.
proof fn lemma_peer_row_preserved(pre: Store, post: Store, id: i64)
    requires
        post.peers@.len() >= pre.peers@.len(),
        forall|j: int| 0 <= j < pre.peers@.len() ==> post.peers@[j] == pre.peers@[j],
        has_peer_row(pre, id),
    ensures
        has_peer_row(post, id),
{
    let w = choose|k: int| 0 <= k < pre.peers@.len() && (#[trigger] pre.peers@[k]).id == id;
    assert(post.peers@[w].id == id);
}

/// A blob row survives when the blob table only grows at the end.
proof fn lemma_blob_row_preserved(pre: Store, post: Store, id: i64)
    requires
        post.blobs@.len() >= pre.blobs@.len(),
        forall|j: int| 0 <= j < pre.blobs@.len() ==> post.blobs@[j] == pre.blobs@[j],
        has_blob_row(pre, id),
    ensures
        has_blob_row(post, id),
{
    let w = choose|k: int| 0 <= k < pre.blobs@.len() && (#[trigger] pre.blobs@[k]).id == id;
    assert(post.blobs@[w].id == id);
}

/// What inserting-or-finding an app leaves behind: either the store is
/// untouched and `id` names the existing row, or exactly one app row
/// was appended under a fresh id.
pub open spec fn put_app_post(pre: Store, post: Store, peer_id: i64, uuid: Seq<char>, id: i64) -> bool {
    if has_app(pre, peer_id, uuid) {
        post == pre && id == app_id_of(pre, peer_id, uuid)
    } else {
        &&& id == pre.next_app_id
        &&& post.apps@.len() == pre.apps@.len() + 1
        &&& (forall|j: int| 0 <= j < pre.apps@.len() ==> post.apps@[j] == pre.apps@[j])
        &&& post.apps@.last().id == id
        &&& post.apps@.last().peer_id == peer_id
        &&& post.apps@.last().uuid@ == uuid
        &&& post.next_app_id == pre.next_app_id + 1
        &&& post == Store { apps: post.apps, next_app_id: post.next_app_id, ..pre }
    }
}

impl Store {
    /// Looks up an app by its `(peer, uuid)` coordinates.
    #[verifier::loop_isolation(false)]
    pub fn get_app(&self, peer_id: i64, uuid: &str) -> (r: Option<i64>)
        requires
            self.wf(),
        ensures
            match r {
                Option::Some(id) => has_app(*self, peer_id, uuid@) && id == app_id_of(
                    *self,
                    peer_id,
                    uuid@,
                ) && has_app_row(*self, id) && app_peer(*self, id) == peer_id && app_uuid(
                    *self,
                    id,
                ) == uuid@,
                Option::None => !has_app(*self, peer_id, uuid@),
            },
    {
        let mut i: usize = 0;
        while i < self.apps.len()
            invariant
                i <= self.apps@.len(),
                forall|j: int|
                    0 <= j < i ==> !((#[trigger] self.apps@[j]).peer_id == peer_id
                        && self.apps@[j].uuid@ == uuid@),
            decreases self.apps@.len() - i,
        {
            if self.apps[i].peer_id == peer_id && str_eq(self.apps[i].uuid.as_str(), uuid) {
                proof {
                    let w = choose|k: int|
                        0 <= k < self.apps@.len() && (#[trigger] self.apps@[k]).peer_id == peer_id
                            && self.apps@[k].uuid@ == uuid@;
                    assert(self.apps@[w].id == self.apps@[i as int].id);
                    let id = self.apps@[i as int].id;
                    assert(has_app_row(*self, id));
                    let v = choose|k: int|
                        0 <= k < self.apps@.len() && (#[trigger] self.apps@[k]).id == id;
                    assert(self.apps@[v].id == self.apps@[i as int].id);
                    assert(v == i as int);
                }
                return Option::Some(self.apps[i].id);
            }
            i += 1;
        }
        Option::None
    }

    /// The uuid of the app row with this id, if any.
    #[verifier::loop_isolation(false)]
    pub fn get_app_uuid(&self, app_id: i64) -> (r: Option<String>)
        requires
            self.wf(),
        ensures
            match r {
                Option::Some(uuid) => has_app_row(*self, app_id) && uuid@ == app_uuid(
                    *self,
                    app_id,
                ),
                Option::None => !has_app_row(*self, app_id),
            },
    {
        let mut i: usize = 0;
        while i < self.apps.len()
            invariant
                i <= self.apps@.len(),
                forall|j: int| 0 <= j < i ==> (#[trigger] self.apps@[j]).id != app_id,
            decreases self.apps@.len() - i,
        {
            if self.apps[i].id == app_id {
                proof {
                    let v = choose|k: int|
                        0 <= k < self.apps@.len() && (#[trigger] self.apps@[k]).id == app_id;
                    assert(self.apps@[v].id == self.apps@[i as int].id);
                    assert(v == i as int);
                }
                return Option::Some(self.apps[i].uuid.clone());
            }
            i += 1;
        }
        Option::None
    }

    /// Inserts an app known not to be present yet.
    pub fn put_app(&mut self, peer_id: i64, uuid: &str) -> (id: i64)
        requires
            old(self).wf(),
            has_peer_row(*old(self), peer_id),
            !has_app(*old(self), peer_id, uuid@),
            old(self).next_app_id < 0x7fff_ffff_ffff_ffff,
        ensures
            final(self).wf(),
            put_app_post(*old(self), *final(self), peer_id, uuid@, id),
            has_app(*final(self), peer_id, uuid@),
            app_id_of(*final(self), peer_id, uuid@) == id,
            has_app_row(*final(self), id),
            app_peer(*final(self), id) == peer_id,
            app_uuid(*final(self), id) == uuid@,
    {
        let id = self.next_app_id;
        self.next_app_id = self.next_app_id + 1;
        self.apps.push(AppRow { id, peer_id, uuid: uuid.to_owned() });
        proof {
            let pre = *old(self);
            let post = *self;
            let n = pre.apps@.len() as int;
            assert(post.apps@[n].id == id);
            assert(post.apps@[n].peer_id == peer_id);
            assert(post.apps@[n].uuid@ == uuid@);
            assert forall|i: int|
                0 <= i < post.labels@.len() implies has_app_row(
                post,
                (#[trigger] post.labels@[i]).app_id,
            ) by {
                lemma_app_row_preserved(pre, post, pre.labels@[i].app_id);
            }
            assert forall|i: int|
                0 <= i < post.inbox@.len() implies has_app_row(
                post,
                (#[trigger] post.inbox@[i]).from_app_id,
            ) && has_app_row(post, post.inbox@[i].to_app_id) by {
                lemma_app_row_preserved(pre, post, pre.inbox@[i].from_app_id);
                lemma_app_row_preserved(pre, post, pre.inbox@[i].to_app_id);
            }
            assert forall|i: int|
                0 <= i < post.outbox@.len() implies has_app_row(
                post,
                (#[trigger] post.outbox@[i]).from_app_id,
            ) && has_app_row(post, post.outbox@[i].to_app_id) by {
                lemma_app_row_preserved(pre, post, pre.outbox@[i].from_app_id);
                lemma_app_row_preserved(pre, post, pre.outbox@[i].to_app_id);
            }
            assert forall|i: int|
                0 <= i < post.announcements@.len() implies has_app_row(
                post,
                (#[trigger] post.announcements@[i]).app_id,
            ) by {
                lemma_app_row_preserved(pre, post, pre.announcements@[i].app_id);
            }
            assert forall|i: int|
                0 <= i < post.ports@.len() implies has_app_row(
                post,
                (#[trigger] post.ports@[i]).app_id,
            ) by {
                lemma_app_row_preserved(pre, post, pre.ports@[i].app_id);
            }
            assert forall|i: int|
                0 <= i < post.apps@.len() implies 1 <= (#[trigger] post.apps@[i]).id
                    < post.next_app_id && has_peer_row(post, post.apps@[i].peer_id) by {
                if i < n {
                    assert(post.apps@[i] == pre.apps@[i]);
                    assert(has_peer_row(pre, pre.apps@[i].peer_id));
                    lemma_peer_row_preserved(pre, post, pre.apps@[i].peer_id);
                } else {
                    lemma_peer_row_preserved(pre, post, peer_id);
                }
            }
            assert forall|i: int, j: int|
                0 <= i < post.apps@.len() && 0 <= j < post.apps@.len() && i != j implies (
            #[trigger] post.apps@[i]).id != (#[trigger] post.apps@[j]).id && !(
            post.apps@[i].peer_id == post.apps@[j].peer_id && post.apps@[i].uuid@
                == post.apps@[j].uuid@) by {
                if i < n && j < n {
                    assert(post.apps@[i] == pre.apps@[i] && post.apps@[j] == pre.apps@[j]);
                } else if i == n && j < n {
                    assert(post.apps@[j] == pre.apps@[j]);
                    assert(1 <= pre.apps@[j].id < pre.next_app_id);
                    assert(!(pre.apps@[j].peer_id == peer_id && pre.apps@[j].uuid@ == uuid@));
                } else if j == n && i < n {
                    assert(post.apps@[i] == pre.apps@[i]);
                    assert(1 <= pre.apps@[i].id < pre.next_app_id);
                    assert(!(pre.apps@[i].peer_id == peer_id && pre.apps@[i].uuid@ == uuid@));
                }
            }
            assert(post.wf());
            assert forall|k: int|
                0 <= k < post.apps@.len() && (#[trigger] post.apps@[k]).peer_id == peer_id
                    && post.apps@[k].uuid@ == uuid@ implies k == n by {
                if k < n {
                    assert(pre.apps@[k].peer_id == peer_id && pre.apps@[k].uuid@ == uuid@);
                }
            }
            assert forall|k: int|
                0 <= k < post.apps@.len() && (#[trigger] post.apps@[k]).id == id implies k
                    == n by {
                if k < n {
                    assert(1 <= pre.apps@[k].id < pre.next_app_id);
                }
            }
        }
        id
    }

    /// Looks up an app by its coordinates, inserting it on first
    /// reference.
    pub fn get_or_put_app(&mut self, peer_id: i64, uuid: &str) -> (id: i64)
        requires
            old(self).wf(),
            has_peer_row(*old(self), peer_id),
            old(self).next_app_id < 0x7fff_ffff_ffff_ffff,
        ensures
            final(self).wf(),
            put_app_post(*old(self), *final(self), peer_id, uuid@, id),
            has_app(*final(self), peer_id, uuid@),
            app_id_of(*final(self), peer_id, uuid@) == id,
            has_app_row(*final(self), id),
            app_peer(*final(self), id) == peer_id,
            app_uuid(*final(self), id) == uuid@,
    {
        match self.get_app(peer_id, uuid) {
            Option::Some(id) => id,
            Option::None => self.put_app(peer_id, uuid),
        }
    }

    /// The app bound to this label, if any.
    #[verifier::loop_isolation(false)]
    pub fn get_app_by_label(&self, label: &str) -> (r: Option<i64>)
        requires
            self.wf(),
        ensures
            match r {
                Option::Some(id) => has_label(*self, label@) && id == label_app(*self, label@)
                    && has_app_row(*self, id),
                Option::None => !has_label(*self, label@),
            },
    {
        let mut i: usize = 0;
        while i < self.labels.len()
            invariant
                i <= self.labels@.len(),
                forall|j: int| 0 <= j < i ==> (#[trigger] self.labels@[j]).label@ != label@,
            decreases self.labels@.len() - i,
        {
            if str_eq(self.labels[i].label.as_str(), label) {
                proof {
                    let w = choose|k: int|
                        0 <= k < self.labels@.len() && (#[trigger] self.labels@[k]).label@
                            == label@;
                    assert(self.labels@[w].app_id == self.labels@[i as int].app_id);
                }
                return Option::Some(self.labels[i].app_id);
            }
            i += 1;
        }
        Option::None
    }

    /// Whether this app already carries a label.
    #[verifier::loop_isolation(false)]
    pub fn app_label_exists(&self, app_id: i64) -> (r: bool)
        ensures
            r <==> app_has_label(*self, app_id),
    {
        let mut i: usize = 0;
        while i < self.labels.len()
            invariant
                i <= self.labels@.len(),
                forall|j: int| 0 <= j < i ==> (#[trigger] self.labels@[j]).app_id != app_id,
            decreases self.labels@.len() - i,
        {
            if self.labels[i].app_id == app_id {
                return true;
            }
            i += 1;
        }
        false
    }

    /// Whether this label is already bound.
    #[verifier::loop_isolation(false)]
    pub fn label_exists(&self, label: &str) -> (r: bool)
        ensures
            r <==> has_label(*self, label@),
    {
        let mut i: usize = 0;
        while i < self.labels.len()
            invariant
                i <= self.labels@.len(),
                forall|j: int| 0 <= j < i ==> (#[trigger] self.labels@[j]).label@ != label@,
            decreases self.labels@.len() - i,
        {
            if str_eq(self.labels[i].label.as_str(), label) {
                return true;
            }
            i += 1;
        }
        false
    }

    /// Binds a label to an app.  Labels are injective and an app
    /// carries at most one: a label that is already bound, or an app
    /// that is already labelled, is refused and the store is left
    /// untouched.
    pub fn put_app_label(&mut self, app_id: i64, label: &str) -> (r: Result<(), StoreError>)
        requires
            old(self).wf(),
            has_app_row(*old(self), app_id),
        ensures
            final(self).wf(),
            match r {
                Result::Ok(()) => {
                    &&& !has_label(*old(self), label@)
                    &&& !app_has_label(*old(self), app_id)
                    &&& final(self).labels@.len() == old(self).labels@.len() + 1
                    &&& (forall|j: int|
                        0 <= j < old(self).labels@.len() ==> final(self).labels@[j] == old(
                            self,
                        ).labels@[j])
                    &&& final(self).labels@.last().app_id == app_id
                    &&& final(self).labels@.last().label@ == label@
                    &&& *final(self) == Store { labels: final(self).labels, ..*old(self) }
                    &&& has_label(*final(self), label@)
                    &&& label_app(*final(self), label@) == app_id
                },
                Result::Err(StoreError::LabelTaken) => {
                    &&& has_label(*old(self), label@) || app_has_label(*old(self), app_id)
                    &&& *final(self) == *old(self)
                },
            },
    {
        if self.label_exists(label) || self.app_label_exists(app_id) {
            return Result::Err(StoreError::LabelTaken);
        }
        self.labels.push(LabelRow { app_id, label: label.to_owned() });
        proof {
            let pre = *old(self);
            let post = *self;
            let n = pre.labels@.len() as int;
            assert(post.labels@[n].app_id == app_id);
            assert(post.labels@[n].label@ == label@);
            assert forall|i: int|
                0 <= i < post.labels@.len() implies has_app_row(
                post,
                (#[trigger] post.labels@[i]).app_id,
            ) by {
                if i < n {
                    assert(post.labels@[i] == pre.labels@[i]);
                    assert(has_app_row(pre, pre.labels@[i].app_id));
                    lemma_app_row_preserved(pre, post, pre.labels@[i].app_id);
                } else {
                    lemma_app_row_preserved(pre, post, app_id);
                }
            }
            assert forall|i: int, j: int|
                0 <= i < post.labels@.len() && 0 <= j < post.labels@.len() && i != j implies (
            #[trigger] post.labels@[i]).app_id != (#[trigger] post.labels@[j]).app_id
                && post.labels@[i].label@ != post.labels@[j].label@ by {
                if i < n && j < n {
                    assert(post.labels@[i] == pre.labels@[i] && post.labels@[j] == pre.labels@[j]);
                } else if i == n && j < n {
                    assert(post.labels@[j] == pre.labels@[j]);
                    assert(pre.labels@[j].label@ != label@);
                    assert(pre.labels@[j].app_id != app_id);
                } else if j == n && i < n {
                    assert(post.labels@[i] == pre.labels@[i]);
                    assert(pre.labels@[i].label@ != label@);
                    assert(pre.labels@[i].app_id != app_id);
                }
            }
            assert(counters_wf(post));
            assert(peers_wf(post));
            assert forall|i: int|
                0 <= i < post.apps@.len() implies 1 <= (#[trigger] post.apps@[i]).id
                    < post.next_app_id && has_peer_row(post, post.apps@[i].peer_id) by {
                assert(has_peer_row(pre, pre.apps@[i].peer_id));
                let w = choose|k: int|
                    0 <= k < pre.peers@.len() && (#[trigger] pre.peers@[k]).id
                        == pre.apps@[i].peer_id;
                assert(post.peers@[w].id == post.apps@[i].peer_id);
            }
            assert(apps_wf(post));
            assert(labels_wf(post));
            assert(blobs_wf(post));
            assert(inbox_wf(post));
            assert(outbox_wf(post));
            assert(announcements_wf(post));
            assert(ports_wf(post));
            assert(post.wf());
            assert forall|k: int|
                0 <= k < post.labels@.len() && (#[trigger] post.labels@[k]).label@
                    == label@ implies k == n by {
                if k < n {
                    assert(pre.labels@[k].label@ == label@);
                }
            }
        }
        Result::Ok(())
    }

    /// Relies on `uuid::Uuid::new_v4` with `Uuid::hyphenated` and
    /// `encode_lower`: a fresh random version-4 uuid rendered in the
    /// canonical 36-character lowercase hyphenated form, with the
    /// version nibble `4` and an RFC 4122 variant nibble.  The value
    /// is random: nothing beyond that form is assumed of it.
    #[verifier::external_body]
    pub fn generate_app_uuid() -> (r: String)
        ensures
            r@.len() == 36,
            r@[8] == '-' && r@[13] == '-' && r@[18] == '-' && r@[23] == '-',
            forall|i: int|
                0 <= i < 36 && i != 8 && i != 13 && i != 18 && i != 23 ==> is_lower_hex(
                    #[trigger] r@[i],
                ),
            r@[14] == '4',
            r@[19] == '8' || r@[19] == '9' || r@[19] == 'a' || r@[19] == 'b',
    {
        let buffer = &mut uuid::Uuid::encode_buffer();
        uuid::Uuid::new_v4().hyphenated().encode_lower(buffer).to_owned()
    }
}

// ---------------------------------------------------------------------
// Message blobs, inbox and outbox
// ---------------------------------------------------------------------

/// Whether the store holds an outbox row with this id.
pub open spec fn has_outbox_row(s: Store, id: i64) -> bool {
    exists|i: int| 0 <= i < s.outbox@.len() && (#[trigger] s.outbox@[i]).id == id
}

/// The position of the outbox row with this id.
pub open spec fn outbox_index_of(s: Store, id: i64) -> int {
    choose|i: int| 0 <= i < s.outbox@.len() && (#[trigger] s.outbox@[i]).id == id
}

/// Whether the store holds an inbox row with this id.
pub open spec fn has_inbox_row(s: Store, id: i64) -> bool {
    exists|i: int| 0 <= i < s.inbox@.len() && (#[trigger] s.inbox@[i]).id == id
}

/// What interning a blob leaves behind: either the store is untouched
/// and `id` names the existing row holding exactly these bytes, or one
/// blob row was appended under a fresh id.  Interning the same bytes
/// twice therefore never creates a second row.
pub open spec fn put_blob_post(pre: Store, post: Store, data: Seq<u8>, id: i64) -> bool {
    if has_blob(pre, data) {
        post == pre && id == blob_id_of(pre, data)
    } else {
        &&& id == pre.next_blob_id
        &&& post.blobs@.len() == pre.blobs@.len() + 1
        &&& (forall|j: int| 0 <= j < pre.blobs@.len() ==> post.blobs@[j] == pre.blobs@[j])
        &&& post.blobs@.last().id == id
        &&& post.blobs@.last().data@ == data
        &&& post.next_blob_id == pre.next_blob_id + 1
        &&& post == Store { blobs: post.blobs, next_blob_id: post.next_blob_id, ..pre }
    }
}

impl Store {
    /// Looks up a blob by its exact bytes.
    #[verifier::loop_isolation(false)]
    pub fn get_message_data(&self, data: &Vec<u8>) -> (r: Option<i64>)
        requires
            self.wf(),
        ensures
            match r {
                Option::Some(id) => has_blob(*self, data@) && id == blob_id_of(*self, data@),
                Option::None => !has_blob(*self, data@),
            },
    {
        let mut i: usize = 0;
        while i < self.blobs.len()
            invariant
                i <= self.blobs@.len(),
                forall|j: int| 0 <= j < i ==> (#[trigger] self.blobs@[j]).data@ != data@,
            decreases self.blobs@.len() - i,
        {
            if bytes_eq(&self.blobs[i].data, data) {
                proof {
                    let w = choose|k: int|
                        0 <= k < self.blobs@.len() && (#[trigger] self.blobs@[k]).data@ == data@;
                    assert(self.blobs@[w].id == self.blobs@[i as int].id);
                }
                return Option::Some(self.blobs[i].id);
            }
            i += 1;
        }
        Option::None
    }

    /// Inserts a blob known not to be present yet.
    pub fn put_message_data(&mut self, data: &Vec<u8>) -> (id: i64)
        requires
            old(self).wf(),
            !has_blob(*old(self), data@),
            old(self).next_blob_id < 0x7fff_ffff_ffff_ffff,
        ensures
            final(self).wf(),
            put_blob_post(*old(self), *final(self), data@, id),
            has_blob(*final(self), data@),
            blob_id_of(*final(self), data@) == id,
            has_blob_row(*final(self), id),
            blob_data(*final(self), id) == data@,
    {
        let id = self.next_blob_id;
        self.next_blob_id = self.next_blob_id + 1;
        self.blobs.push(BlobRow { id, data: data.clone() });
        proof {
            let pre = *old(self);
            let post = *self;
            let n = pre.blobs@.len() as int;
            assert(post.blobs@[n].id == id);
            assert(post.blobs@[n].data@ == data@);
            assert(counters_wf(post));
            assert(peers_wf(post));
            assert forall|i: int|
                0 <= i < post.apps@.len() implies 1 <= (#[trigger] post.apps@[i]).id
                    < post.next_app_id && has_peer_row(post, post.apps@[i].peer_id) by {
                assert(has_peer_row(pre, pre.apps@[i].peer_id));
                let w = choose|k: int|
                    0 <= k < pre.peers@.len() && (#[trigger] pre.peers@[k]).id
                        == pre.apps@[i].peer_id;
                assert(post.peers@[w].id == post.apps@[i].peer_id);
            }
            assert(apps_wf(post));
            assert forall|i: int|
                0 <= i < post.labels@.len() implies has_app_row(
                post,
                (#[trigger] post.labels@[i]).app_id,
            ) by {
                lemma_app_row_preserved(pre, post, pre.labels@[i].app_id);
            }
            assert(labels_wf(post));
            assert forall|i: int|
                0 <= i < post.blobs@.len() implies 1 <= (#[trigger] post.blobs@[i]).id
                    < post.next_blob_id by {
                if i < n {
                    assert(post.blobs@[i] == pre.blobs@[i]);
                }
            }
            assert forall|i: int, j: int|
                0 <= i < post.blobs@.len() && 0 <= j < post.blobs@.len() && i != j implies (
            #[trigger] post.blobs@[i]).id != (#[trigger] post.blobs@[j]).id && post.blobs@[i].data@
                != post.blobs@[j].data@ by {
                if i < n && j < n {
                    assert(post.blobs@[i] == pre.blobs@[i] && post.blobs@[j] == pre.blobs@[j]);
                } else if i == n && j < n {
                    assert(post.blobs@[j] == pre.blobs@[j]);
                    assert(1 <= pre.blobs@[j].id < pre.next_blob_id);
                    assert(pre.blobs@[j].data@ != data@);
                } else if j == n && i < n {
                    assert(post.blobs@[i] == pre.blobs@[i]);
                    assert(1 <= pre.blobs@[i].id < pre.next_blob_id);
                    assert(pre.blobs@[i].data@ != data@);
                }
            }
            assert(blobs_wf(post));
            assert forall|i: int|
                0 <= i < post.inbox@.len() implies 1 <= (#[trigger] post.inbox@[i]).id
                    < post.next_inbox_id && has_app_row(post, post.inbox@[i].from_app_id)
                && has_app_row(post, post.inbox@[i].to_app_id) && has_blob_row(
                post,
                post.inbox@[i].message_id,
            ) by {
                lemma_app_row_preserved(pre, post, pre.inbox@[i].from_app_id);
                lemma_app_row_preserved(pre, post, pre.inbox@[i].to_app_id);
                lemma_blob_row_preserved(pre, post, pre.inbox@[i].message_id);
            }
            assert(inbox_wf(post));
            assert forall|i: int|
                0 <= i < post.outbox@.len() implies 1 <= (#[trigger] post.outbox@[i]).id
                    < post.next_outbox_id && has_app_row(post, post.outbox@[i].from_app_id)
                && has_app_row(post, post.outbox@[i].to_app_id) && has_blob_row(
                post,
                post.outbox@[i].message_id,
            ) by {
                lemma_app_row_preserved(pre, post, pre.outbox@[i].from_app_id);
                lemma_app_row_preserved(pre, post, pre.outbox@[i].to_app_id);
                lemma_blob_row_preserved(pre, post, pre.outbox@[i].message_id);
            }
            assert(outbox_wf(post));
            assert forall|i: int|
                0 <= i < post.announcements@.len() implies has_app_row(
                post,
                (#[trigger] post.announcements@[i]).app_id,
            ) by {
                lemma_app_row_preserved(pre, post, pre.announcements@[i].app_id);
            }
            assert(announcements_wf(post));
            assert forall|i: int|
                0 <= i < post.ports@.len() implies has_app_row(
                post,
                (#[trigger] post.ports@[i]).app_id,
            ) by {
                lemma_app_row_preserved(pre, post, pre.ports@[i].app_id);
            }
            assert(ports_wf(post));
            assert(post.wf());
            assert forall|k: int|
                0 <= k < post.blobs@.len() && (#[trigger] post.blobs@[k]).data@
                    == data@ implies k == n by {
                if k < n {
                    assert(pre.blobs@[k].data@ == data@);
                }
            }
            assert forall|k: int|
                0 <= k < post.blobs@.len() && (#[trigger] post.blobs@[k]).id == id implies k
                    == n by {
                if k < n {
                    assert(1 <= pre.blobs@[k].id < pre.next_blob_id);
                }
            }
        }
        id
    }

    /// Looks up a blob by its bytes, interning it on first reference.
    pub fn get_or_put_message_data(&mut self, data: &Vec<u8>) -> (id: i64)
        requires
            old(self).wf(),
            old(self).next_blob_id < 0x7fff_ffff_ffff_ffff,
        ensures
            final(self).wf(),
            put_blob_post(*old(self), *final(self), data@, id),
            has_blob(*final(self), data@),
            blob_id_of(*final(self), data@) == id,
            has_blob_row(*final(self), id),
            blob_data(*final(self), id) == data@,
    {
        match self.get_message_data(data) {
            Option::Some(id) => {
                proof {
                    let w = choose|k: int|
                        0 <= k < self.blobs@.len() && (#[trigger] self.blobs@[k]).data@ == data@;
                    assert(self.blobs@[w].id == id);
                    let v = choose|k: int|
                        0 <= k < self.blobs@.len() && (#[trigger] self.blobs@[k]).id == id;
                    assert(self.blobs@[v].id == self.blobs@[w].id);
                    assert(v == w);
                }
                id
            },
            Option::None => self.put_message_data(data),
        }
    }

    /// Blob pruning is deferred: rows referenced by no inbox or outbox
    /// entry are left in place for a later sweep.
    pub fn prune_message_data(&self) {
    }

    /// Appends an outgoing message to the outbox under a fresh,
    /// strictly larger id.
    pub fn put_message_outbox(&mut self, queued: i64, from: i64, to: i64, message_id: i64) -> (id: i64)
        requires
            old(self).wf(),
            has_app_row(*old(self), from),
            has_app_row(*old(self), to),
            has_blob_row(*old(self), message_id),
            old(self).next_outbox_id < 0x7fff_ffff_ffff_ffff,
        ensures
            final(self).wf(),
            id == old(self).next_outbox_id,
            final(self).outbox@.len() == old(self).outbox@.len() + 1,
            forall|j: int|
                0 <= j < old(self).outbox@.len() ==> final(self).outbox@[j] == old(
                    self,
                ).outbox@[j],
            final(self).outbox@.last() == (OutboxRow {
                id,
                queued,
                from_app_id: from,
                to_app_id: to,
                message_id,
            }),
            forall|j: int| 0 <= j < old(self).outbox@.len() ==> old(self).outbox@[j].id < id,
            final(self).next_outbox_id == old(self).next_outbox_id + 1,
            *final(self) == (Store {
                outbox: final(self).outbox,
                next_outbox_id: final(self).next_outbox_id,
                ..*old(self)
            }),
            has_outbox_row(*final(self), id),
    {
        let id = self.next_outbox_id;
        self.next_outbox_id = self.next_outbox_id + 1;
        self.outbox.push(OutboxRow { id, queued, from_app_id: from, to_app_id: to, message_id });
        proof {
            let pre = *old(self);
            let post = *self;
            let n = pre.outbox@.len() as int;
            assert(post.outbox@[n].id == id);
            assert(counters_wf(post));
            assert(peers_wf(post));
            assert forall|i: int|
                0 <= i < post.apps@.len() implies 1 <= (#[trigger] post.apps@[i]).id
                    < post.next_app_id && has_peer_row(post, post.apps@[i].peer_id) by {
                assert(has_peer_row(pre, pre.apps@[i].peer_id));
                let w = choose|k: int|
                    0 <= k < pre.peers@.len() && (#[trigger] pre.peers@[k]).id
                        == pre.apps@[i].peer_id;
                assert(post.peers@[w].id == post.apps@[i].peer_id);
            }
            assert(apps_wf(post));
            assert forall|i: int|
                0 <= i < post.labels@.len() implies has_app_row(
                post,
                (#[trigger] post.labels@[i]).app_id,
            ) by {
                lemma_app_row_preserved(pre, post, pre.labels@[i].app_id);
            }
            assert(labels_wf(post));
            assert(blobs_wf(post));
            assert forall|i: int|
                0 <= i < post.inbox@.len() implies 1 <= (#[trigger] post.inbox@[i]).id
                    < post.next_inbox_id && has_app_row(post, post.inbox@[i].from_app_id)
                && has_app_row(post, post.inbox@[i].to_app_id) && has_blob_row(
                post,
                post.inbox@[i].message_id,
            ) by {
                lemma_app_row_preserved(pre, post, pre.inbox@[i].from_app_id);
                lemma_app_row_preserved(pre, post, pre.inbox@[i].to_app_id);
                lemma_blob_row_preserved(pre, post, pre.inbox@[i].message_id);
            }
            assert(inbox_wf(post));
            assert forall|i: int|
                0 <= i < post.outbox@.len() implies 1 <= (#[trigger] post.outbox@[i]).id
                    < post.next_outbox_id && has_app_row(post, post.outbox@[i].from_app_id)
                && has_app_row(post, post.outbox@[i].to_app_id) && has_blob_row(
                post,
                post.outbox@[i].message_id,
            ) by {
                if i < n {
                    assert(post.outbox@[i] == pre.outbox@[i]);
                    lemma_app_row_preserved(pre, post, pre.outbox@[i].from_app_id);
                    lemma_app_row_preserved(pre, post, pre.outbox@[i].to_app_id);
                    lemma_blob_row_preserved(pre, post, pre.outbox@[i].message_id);
                } else {
                    lemma_app_row_preserved(pre, post, from);
                    lemma_app_row_preserved(pre, post, to);
                    lemma_blob_row_preserved(pre, post, message_id);
                }
            }
            assert forall|i: int, j: int|
                0 <= i < j < post.outbox@.len() implies (#[trigger] post.outbox@[i]).id < (
            #[trigger] post.outbox@[j]).id by {
                if j < n {
                    assert(post.outbox@[i] == pre.outbox@[i] && post.outbox@[j] == pre.outbox@[j]);
                } else {
                    assert(post.outbox@[i] == pre.outbox@[i]);
                    assert(pre.outbox@[i].id < pre.next_outbox_id);
                }
            }
            assert(outbox_wf(post));
            assert forall|i: int|
                0 <= i < post.announcements@.len() implies has_app_row(
                post,
                (#[trigger] post.announcements@[i]).app_id,
            ) by {
                lemma_app_row_preserved(pre, post, pre.announcements@[i].app_id);
            }
            assert(announcements_wf(post));
            assert forall|i: int|
                0 <= i < post.ports@.len() implies has_app_row(
                post,
                (#[trigger] post.ports@[i]).app_id,
            ) by {
                lemma_app_row_preserved(pre, post, pre.ports@[i].app_id);
            }
            assert(ports_wf(post));
            assert(post.wf());
            assert forall|j: int| 0 <= j < pre.outbox@.len() implies pre.outbox@[j].id < id by {
                assert(1 <= pre.outbox@[j].id < pre.next_outbox_id);
            }
        }
        id
    }
}

impl Store {
    /// Deletes the outbox row with this id, if it is present.
    #[verifier::loop_isolation(false)]
    #[verifier::rlimit(60)]
    pub fn delete_message_outbox(&mut self, outbox_id: i64)
        requires
            old(self).wf(),
        ensures
            final(self).wf(),
            !has_outbox_row(*final(self), outbox_id),
            if has_outbox_row(*old(self), outbox_id) {
                &&& final(self).outbox@ == old(self).outbox@.remove(
                    outbox_index_of(*old(self), outbox_id),
                )
                &&& *final(self) == (Store { outbox: final(self).outbox, ..*old(self) })
            } else {
                *final(self) == *old(self)
            },
            forall|x: i64|
                x != outbox_id ==> (has_outbox_row(*final(self), x) <==> has_outbox_row(
                    *old(self),
                    x,
                )),
    {
        let mut i: usize = 0;
        while i < self.outbox.len()
            invariant
                i <= self.outbox@.len(),
                *self == *old(self),
                forall|j: int| 0 <= j < i ==> (#[trigger] self.outbox@[j]).id != outbox_id,
            decreases self.outbox@.len() - i,
        {
            if self.outbox[i].id == outbox_id {
                proof {
                    let w = outbox_index_of(*self, outbox_id);
                    assert(self.outbox@[w].id == outbox_id);
                    assert(w == i as int);
                }
                self.outbox.remove(i);
                proof {
                    let pre = *old(self);
                    let post = *self;
                    let idx = i as int;
                    assert(post.outbox@.len() == pre.outbox@.len() - 1);
                    assert(forall|j: int| 0 <= j < idx ==> post.outbox@[j] == pre.outbox@[j]);
                    assert(forall|j: int|
                        idx <= j < post.outbox@.len() ==> post.outbox@[j] == pre.outbox@[j + 1]);
                    assert(counters_wf(post));
                    assert(peers_wf(post));
                    assert forall|k: int|
                        0 <= k < post.apps@.len() implies 1 <= (#[trigger] post.apps@[k]).id
                            < post.next_app_id && has_peer_row(post, post.apps@[k].peer_id) by {
                        assert(has_peer_row(pre, pre.apps@[k].peer_id));
                        let w = choose|q: int|
                            0 <= q < pre.peers@.len() && (#[trigger] pre.peers@[q]).id
                                == pre.apps@[k].peer_id;
                        assert(post.peers@[w].id == post.apps@[k].peer_id);
                    }
                    assert(apps_wf(post));
                    assert forall|k: int|
                        0 <= k < post.labels@.len() implies has_app_row(
                        post,
                        (#[trigger] post.labels@[k]).app_id,
                    ) by {
                        lemma_app_row_preserved(pre, post, pre.labels@[k].app_id);
                    }
                    assert(labels_wf(post));
                    assert(blobs_wf(post));
                    assert forall|k: int|
                        0 <= k < post.inbox@.len() implies 1 <= (#[trigger] post.inbox@[k]).id
                            < post.next_inbox_id && has_app_row(post, post.inbox@[k].from_app_id)
                        && has_app_row(post, post.inbox@[k].to_app_id) && has_blob_row(
                        post,
                        post.inbox@[k].message_id,
                    ) by {
                        lemma_app_row_preserved(pre, post, pre.inbox@[k].from_app_id);
                        lemma_app_row_preserved(pre, post, pre.inbox@[k].to_app_id);
                        lemma_blob_row_preserved(pre, post, pre.inbox@[k].message_id);
                    }
                    assert(inbox_wf(post));
                    assert forall|k: int|
                        0 <= k < post.outbox@.len() implies 1 <= (#[trigger] post.outbox@[k]).id
                            < post.next_outbox_id && has_app_row(
                        post,
                        post.outbox@[k].from_app_id,
                    ) && has_app_row(post, post.outbox@[k].to_app_id) && has_blob_row(
                        post,
                        post.outbox@[k].message_id,
                    ) by {
                        let src: int = if k < idx {
                            k
                        } else {
                            k + 1
                        };
                        assert(post.outbox@[k] == pre.outbox@[src]);
                        lemma_app_row_preserved(pre, post, pre.outbox@[src].from_app_id);
                        lemma_app_row_preserved(pre, post, pre.outbox@[src].to_app_id);
                        lemma_blob_row_preserved(pre, post, pre.outbox@[src].message_id);
                    }
                    assert forall|a: int, b: int|
                        0 <= a < b < post.outbox@.len() implies (#[trigger] post.outbox@[a]).id < (
                    #[trigger] post.outbox@[b]).id by {
                        let sa: int = if a < idx {
                            a
                        } else {
                            a + 1
                        };
                        let sb: int = if b < idx {
                            b
                        } else {
                            b + 1
                        };
                        assert(post.outbox@[a] == pre.outbox@[sa]);
                        assert(post.outbox@[b] == pre.outbox@[sb]);
                        assert(pre.outbox@[sa].id < pre.outbox@[sb].id);
                    }
                    assert(outbox_wf(post));
                    assert forall|k: int|
                        0 <= k < post.announcements@.len() implies has_app_row(
                        post,
                        (#[trigger] post.announcements@[k]).app_id,
                    ) by {
                        lemma_app_row_preserved(pre, post, pre.announcements@[k].app_id);
                    }
                    assert(announcements_wf(post));
                    assert forall|k: int|
                        0 <= k < post.ports@.len() implies has_app_row(
                        post,
                        (#[trigger] post.ports@[k]).app_id,
                    ) by {
                        lemma_app_row_preserved(pre, post, pre.ports@[k].app_id);
                    }
                    assert(ports_wf(post));
                    assert(post.wf());
                    assert forall|x: i64|
                        x != outbox_id && has_outbox_row(pre, x) implies has_outbox_row(
                        post,
                        x,
                    ) by {
                        let w = choose|k: int|
                            0 <= k < pre.outbox@.len() && (#[trigger] pre.outbox@[k]).id == x;
                        if w < idx {
                            assert(post.outbox@[w].id == x);
                        } else {
                            assert(post.outbox@[w - 1].id == x);
                        }
                    }
                    assert forall|x: i64|
                        x != outbox_id && has_outbox_row(post, x) implies has_outbox_row(
                        pre,
                        x,
                    ) by {
                        let w = choose|k: int|
                            0 <= k < post.outbox@.len() && (#[trigger] post.outbox@[k]).id == x;
                        if w < idx {
                            assert(pre.outbox@[w].id == x);
                        } else {
                            assert(pre.outbox@[w + 1].id == x);
                        }
                    }
                    assert forall|k: int|
                        0 <= k < post.outbox@.len() implies (#[trigger] post.outbox@[k]).id
                            != outbox_id by {
                        if k >= idx {
                            assert(pre.outbox@[k + 1].id == post.outbox@[k].id);
                            assert(pre.outbox@[idx].id == outbox_id);
                            assert(pre.outbox@[idx].id < pre.outbox@[k + 1].id);
                        }
                    }
                }
                return;
            }
            i += 1;
        }
    }

    /// Appends an incoming message to the inbox under a fresh,
    /// strictly larger id.
    pub fn put_message_inbox(&mut self, received: i64, from: i64, to: i64, message_id: i64) -> (id: i64)
        requires
            old(self).wf(),
            has_app_row(*old(self), from),
            has_app_row(*old(self), to),
            has_blob_row(*old(self), message_id),
            old(self).next_inbox_id < 0x7fff_ffff_ffff_ffff,
        ensures
            final(self).wf(),
            id == old(self).next_inbox_id,
            final(self).inbox@.len() == old(self).inbox@.len() + 1,
            forall|j: int|
                0 <= j < old(self).inbox@.len() ==> final(self).inbox@[j] == old(self).inbox@[j],
            final(self).inbox@.last() == (InboxRow {
                id,
                received,
                from_app_id: from,
                to_app_id: to,
                message_id,
            }),
            forall|j: int| 0 <= j < old(self).inbox@.len() ==> old(self).inbox@[j].id < id,
            final(self).next_inbox_id == old(self).next_inbox_id + 1,
            *final(self) == (Store {
                inbox: final(self).inbox,
                next_inbox_id: final(self).next_inbox_id,
                ..*old(self)
            }),
            has_inbox_row(*final(self), id),
    {
        let id = self.next_inbox_id;
        self.next_inbox_id = self.next_inbox_id + 1;
        self.inbox.push(InboxRow { id, received, from_app_id: from, to_app_id: to, message_id });
        proof {
            let pre = *old(self);
            let post = *self;
            let n = pre.inbox@.len() as int;
            assert(post.inbox@[n].id == id);
            assert(counters_wf(post));
            assert(peers_wf(post));
            assert forall|i: int|
                0 <= i < post.apps@.len() implies 1 <= (#[trigger] post.apps@[i]).id
                    < post.next_app_id && has_peer_row(post, post.apps@[i].peer_id) by {
                assert(has_peer_row(pre, pre.apps@[i].peer_id));
                let w = choose|k: int|
                    0 <= k < pre.peers@.len() && (#[trigger] pre.peers@[k]).id
                        == pre.apps@[i].peer_id;
                assert(post.peers@[w].id == post.apps@[i].peer_id);
            }
            assert(apps_wf(post));
            assert forall|i: int|
                0 <= i < post.labels@.len() implies has_app_row(
                post,
                (#[trigger] post.labels@[i]).app_id,
            ) by {
                lemma_app_row_preserved(pre, post, pre.labels@[i].app_id);
            }
            assert(labels_wf(post));
            assert(blobs_wf(post));
            assert forall|i: int|
                0 <= i < post.inbox@.len() implies 1 <= (#[trigger] post.inbox@[i]).id
                    < post.next_inbox_id && has_app_row(post, post.inbox@[i].from_app_id)
                && has_app_row(post, post.inbox@[i].to_app_id) && has_blob_row(
                post,
                post.inbox@[i].message_id,
            ) by {
                if i < n {
                    assert(post.inbox@[i] == pre.inbox@[i]);
                    lemma_app_row_preserved(pre, post, pre.inbox@[i].from_app_id);
                    lemma_app_row_preserved(pre, post, pre.inbox@[i].to_app_id);
                    lemma_blob_row_preserved(pre, post, pre.inbox@[i].message_id);
                } else {
                    lemma_app_row_preserved(pre, post, from);
                    lemma_app_row_preserved(pre, post, to);
                    lemma_blob_row_preserved(pre, post, message_id);
                }
            }
            assert forall|i: int, j: int|
                0 <= i < j < post.inbox@.len() implies (#[trigger] post.inbox@[i]).id < (
            #[trigger] post.inbox@[j]).id by {
                if j < n {
                    assert(post.inbox@[i] == pre.inbox@[i] && post.inbox@[j] == pre.inbox@[j]);
                } else {
                    assert(post.inbox@[i] == pre.inbox@[i]);
                    assert(pre.inbox@[i].id < pre.next_inbox_id);
                }
            }
            assert(inbox_wf(post));
            assert forall|i: int|
                0 <= i < post.outbox@.len() implies 1 <= (#[trigger] post.outbox@[i]).id
                    < post.next_outbox_id && has_app_row(post, post.outbox@[i].from_app_id)
                && has_app_row(post, post.outbox@[i].to_app_id) && has_blob_row(
                post,
                post.outbox@[i].message_id,
            ) by {
                lemma_app_row_preserved(pre, post, pre.outbox@[i].from_app_id);
                lemma_app_row_preserved(pre, post, pre.outbox@[i].to_app_id);
                lemma_blob_row_preserved(pre, post, pre.outbox@[i].message_id);
            }
            assert(outbox_wf(post));
            assert forall|i: int|
                0 <= i < post.announcements@.len() implies has_app_row(
                post,
                (#[trigger] post.announcements@[i]).app_id,
            ) by {
                lemma_app_row_preserved(pre, post, pre.announcements@[i].app_id);
            }
            assert(announcements_wf(post));
            assert forall|i: int|
                0 <= i < post.ports@.len() implies has_app_row(
                post,
                (#[trigger] post.ports@[i]).app_id,
            ) by {
                lemma_app_row_preserved(pre, post, pre.ports@[i].app_id);
            }
            assert(ports_wf(post));
            assert(post.wf());
            assert forall|j: int| 0 <= j < pre.inbox@.len() implies pre.inbox@[j].id < id by {
                assert(1 <= pre.inbox@[j].id < pre.next_inbox_id);
            }
        }
        id
    }
}

// ---------------------------------------------------------------------
// Announcements, ports and list queries
// ---------------------------------------------------------------------

/// The position of the announcement row for this app.
pub open spec fn ann_index_of(s: Store, app_id: i64) -> int {
    choose|i: int|
        0 <= i < s.announcements@.len() && (#[trigger] s.announcements@[i]).app_id == app_id
}

/// The timestamp of this app's announcement.
pub open spec fn ann_received(s: Store, app_id: i64) -> i64 {
    s.announcements@[ann_index_of(s, app_id)].received
}

/// The payload of this app's announcement.
pub open spec fn ann_data(s: Store, app_id: i64) -> crate::json::JsonView {
    s.announcements@[ann_index_of(s, app_id)].data@
}

/// What upserting an announcement leaves behind: the app has exactly
/// one announcement row, holding the given timestamp and payload;
/// other rows and tables are untouched.
pub open spec fn set_announcement_post(
    pre: Store,
    post: Store,
    app_id: i64,
    received: i64,
    data: crate::json::JsonView,
) -> bool {
    &&& post == (Store { announcements: post.announcements, ..pre })
    &&& has_announcement(post, app_id)
    &&& ann_received(post, app_id) == received
    &&& ann_data(post, app_id) == data
    &&& if has_announcement(pre, app_id) {
        &&& post.announcements@.len() == pre.announcements@.len()
        &&& (forall|j: int|
            0 <= j < pre.announcements@.len() && j != ann_index_of(pre, app_id)
                ==> post.announcements@[j] == pre.announcements@[j])
    } else {
        &&& post.announcements@.len() == pre.announcements@.len() + 1
        &&& (forall|j: int|
            0 <= j < pre.announcements@.len() ==> post.announcements@[j]
                == pre.announcements@[j])
    }
}

/// The model of one announcement row, joined with its app and peer.
pub open spec fn announcement_of_row(s: Store, r: AnnouncementRow) -> crate::protocol::AppAnnouncementView {
    crate::protocol::AppAnnouncementView {
        peer: peer_text(s, app_peer(s, r.app_id)),
        app_uuid: app_uuid(s, r.app_id),
        data: r.data@,
    }
}

/// The rows of a sequence addressed to one app, in order.
pub open spec fn rows_for(rows: Seq<InboxRow>, app_id: i64) -> Seq<InboxRow> {
    rows.filter(|r: InboxRow| r.to_app_id == app_id)
}

/// The inbox rows addressed to one app, in stored (id) order.
pub open spec fn inbox_rows_for(s: Store, app_id: i64) -> Seq<InboxRow> {
    rows_for(s.inbox@, app_id)
}

/// The model of one inbox row, joined with its sender and blob.
pub open spec fn message_of_row(s: Store, r: InboxRow) -> MessageView {
    MessageView {
        id: r.id as u64,
        peer: peer_text(s, app_peer(s, r.from_app_id)),
        uuid: app_uuid(s, r.from_app_id),
        message: blob_data(s, r.message_id),
    }
}

/// Filtering a sequence of rows with strictly increasing ids keeps
/// membership and strict id order.
proof fn lemma_filtered_rows(rows: Seq<InboxRow>, app_id: i64)
    requires
        forall|i: int, j: int| 0 <= i < j < rows.len() ==> rows[i].id < rows[j].id,
    ensures
        forall|i: int, j: int|
            #![trigger rows_for(rows, app_id)[i], rows_for(rows, app_id)[j]]
            0 <= i < j < rows_for(rows, app_id).len() ==> rows_for(rows, app_id)[i].id
                < rows_for(rows, app_id)[j].id,
        forall|i: int|
            0 <= i < rows_for(rows, app_id).len() ==> rows.contains(
                #[trigger] rows_for(rows, app_id)[i],
            ),
    decreases rows.len(),
{
    broadcast use vstd::seq_lib::group_filter_ensures;

    reveal_with_fuel(Seq::<InboxRow>::filter, 2);
    let f = rows_for(rows, app_id);
    if rows.len() != 0 {
        let prefix = rows.drop_last();
        lemma_filtered_rows(prefix, app_id);
        let fp = rows_for(prefix, app_id);
        assert(f == if rows.last().to_app_id == app_id {
            fp.push(rows.last())
        } else {
            fp
        });
        assert forall|i: int| 0 <= i < f.len() implies rows.contains(#[trigger] f[i]) by {
            if i < fp.len() {
                assert(fp[i] == f[i]);
                assert(prefix.contains(fp[i]));
                let w = choose|k: int| 0 <= k < prefix.len() && prefix[k] == fp[i];
                assert(rows[w] == f[i]);
            } else {
                assert(f[i] == rows.last());
                assert(rows[rows.len() - 1] == rows.last());
            }
        }
        assert forall|i: int, j: int|
            #![trigger f[i], f[j]]
            0 <= i < j < f.len() implies f[i].id < f[j].id by {
            if j < fp.len() {
                assert(fp[i] == f[i] && fp[j] == f[j]);
            } else {
                assert(f[j] == rows.last());
                assert(fp[i] == f[i]);
                assert(prefix.contains(fp[i]));
                let w = choose|k: int| 0 <= k < prefix.len() && prefix[k] == fp[i];
                assert(rows[w].id < rows[rows.len() - 1].id);
            }
        }
    }
}

impl Store {
    /// Deletes the inbox row with this id, if it is present and
    /// addressed to this app.
    #[verifier::loop_isolation(false)]
    #[verifier::rlimit(60)]
    pub fn delete_inbox_message(&mut self, to: i64, message_id: i64)
        requires
            old(self).wf(),
        ensures
            final(self).wf(),
            final(self).inbox@.len() <= old(self).inbox@.len(),
            forall|j: int|
                0 <= j < final(self).inbox@.len() ==> old(self).inbox@.contains(
                    #[trigger] final(self).inbox@[j],
                ),
            forall|j: int|
                0 <= j < final(self).inbox@.len() ==> !((#[trigger] final(self).inbox@[j]).id
                    == message_id && final(self).inbox@[j].to_app_id == to),
            forall|j: int|
                0 <= j < old(self).inbox@.len() && !((#[trigger] old(self).inbox@[j]).id
                    == message_id && old(self).inbox@[j].to_app_id == to)
                    ==> final(self).inbox@.contains(old(self).inbox@[j]),
            *final(self) == (Store { inbox: final(self).inbox, ..*old(self) }),
    {
        let mut i: usize = 0;
        while i < self.inbox.len()
            invariant
                i <= self.inbox@.len(),
                *self == *old(self),
                forall|j: int|
                    0 <= j < i ==> !((#[trigger] self.inbox@[j]).id == message_id
                        && self.inbox@[j].to_app_id == to),
            decreases self.inbox@.len() - i,
        {
            if self.inbox[i].id == message_id && self.inbox[i].to_app_id == to {
                self.inbox.remove(i);
                proof {
                    let pre = *old(self);
                    let post = *self;
                    let idx = i as int;
                    assert(forall|j: int| 0 <= j < idx ==> post.inbox@[j] == pre.inbox@[j]);
                    assert(forall|j: int|
                        idx <= j < post.inbox@.len() ==> post.inbox@[j] == pre.inbox@[j + 1]);
                    assert(counters_wf(post));
                    assert(peers_wf(post));
                    assert forall|k: int|
                        0 <= k < post.apps@.len() implies 1 <= (#[trigger] post.apps@[k]).id
                            < post.next_app_id && has_peer_row(post, post.apps@[k].peer_id) by {
                        assert(has_peer_row(pre, pre.apps@[k].peer_id));
                        let w = choose|q: int|
                            0 <= q < pre.peers@.len() && (#[trigger] pre.peers@[q]).id
                                == pre.apps@[k].peer_id;
                        assert(post.peers@[w].id == post.apps@[k].peer_id);
                    }
                    assert(apps_wf(post));
                    assert forall|k: int|
                        0 <= k < post.labels@.len() implies has_app_row(
                        post,
                        (#[trigger] post.labels@[k]).app_id,
                    ) by {
                        lemma_app_row_preserved(pre, post, pre.labels@[k].app_id);
                    }
                    assert(labels_wf(post));
                    assert(blobs_wf(post));
                    assert forall|k: int|
                        0 <= k < post.inbox@.len() implies 1 <= (#[trigger] post.inbox@[k]).id
                            < post.next_inbox_id && has_app_row(post, post.inbox@[k].from_app_id)
                        && has_app_row(post, post.inbox@[k].to_app_id) && has_blob_row(
                        post,
                        post.inbox@[k].message_id,
                    ) by {
                        let src: int = if k < idx {
                            k
                        } else {
                            k + 1
                        };
                        assert(post.inbox@[k] == pre.inbox@[src]);
                        lemma_app_row_preserved(pre, post, pre.inbox@[src].from_app_id);
                        lemma_app_row_preserved(pre, post, pre.inbox@[src].to_app_id);
                        lemma_blob_row_preserved(pre, post, pre.inbox@[src].message_id);
                    }
                    assert forall|a: int, b: int|
                        0 <= a < b < post.inbox@.len() implies (#[trigger] post.inbox@[a]).id < (
                    #[trigger] post.inbox@[b]).id by {
                        let sa: int = if a < idx {
                            a
                        } else {
                            a + 1
                        };
                        let sb: int = if b < idx {
                            b
                        } else {
                            b + 1
                        };
                        assert(post.inbox@[a] == pre.inbox@[sa]);
                        assert(post.inbox@[b] == pre.inbox@[sb]);
                        assert(pre.inbox@[sa].id < pre.inbox@[sb].id);
                    }
                    assert(inbox_wf(post));
                    assert forall|k: int|
                        0 <= k < post.outbox@.len() implies 1 <= (#[trigger] post.outbox@[k]).id
                            < post.next_outbox_id && has_app_row(
                        post,
                        post.outbox@[k].from_app_id,
                    ) && has_app_row(post, post.outbox@[k].to_app_id) && has_blob_row(
                        post,
                        post.outbox@[k].message_id,
                    ) by {
                        lemma_app_row_preserved(pre, post, pre.outbox@[k].from_app_id);
                        lemma_app_row_preserved(pre, post, pre.outbox@[k].to_app_id);
                        lemma_blob_row_preserved(pre, post, pre.outbox@[k].message_id);
                    }
                    assert(outbox_wf(post));
                    assert forall|k: int|
                        0 <= k < post.announcements@.len() implies has_app_row(
                        post,
                        (#[trigger] post.announcements@[k]).app_id,
                    ) by {
                        lemma_app_row_preserved(pre, post, pre.announcements@[k].app_id);
                    }
                    assert(announcements_wf(post));
                    assert forall|k: int|
                        0 <= k < post.ports@.len() implies has_app_row(
                        post,
                        (#[trigger] post.ports@[k]).app_id,
                    ) by {
                        lemma_app_row_preserved(pre, post, pre.ports@[k].app_id);
                    }
                    assert(ports_wf(post));
                    assert(post.wf());
                    assert forall|j: int|
                        0 <= j < post.inbox@.len() implies pre.inbox@.contains(
                        #[trigger] post.inbox@[j],
                    ) by {
                        if j < idx {
                            assert(post.inbox@[j] == pre.inbox@[j]);
                        } else {
                            assert(post.inbox@[j] == pre.inbox@[j + 1]);
                        }
                    }
                    assert forall|j: int|
                        0 <= j < post.inbox@.len() implies !((#[trigger] post.inbox@[j]).id
                            == message_id && post.inbox@[j].to_app_id == to) by {
                        if j >= idx {
                            assert(post.inbox@[j] == pre.inbox@[j + 1]);
                            assert(pre.inbox@[idx].id == message_id);
                            assert(pre.inbox@[idx].id < pre.inbox@[j + 1].id);
                        }
                    }
                    assert forall|j: int|
                        0 <= j < pre.inbox@.len() && !((#[trigger] pre.inbox@[j]).id == message_id
                            && pre.inbox@[j].to_app_id == to) implies post.inbox@.contains(
                        pre.inbox@[j],
                    ) by {
                        if j < idx {
                            assert(post.inbox@[j] == pre.inbox@[j]);
                        } else if j > idx {
                            assert(post.inbox@[j - 1] == pre.inbox@[j]);
                        }
                    }
                }
                return;
            }
            i += 1;
        }
    }

    /// Upserts this app's announcement: at most one row per app, last
    /// write wins.
    #[verifier::loop_isolation(false)]
    #[verifier::rlimit(100)]
    #[verifier::spinoff_prover]
    pub fn set_app_announcement(&mut self, app_id: i64, received: i64, data: &JsonValue)
        requires
            old(self).wf(),
            has_app_row(*old(self), app_id),
        ensures
            final(self).wf(),
            set_announcement_post(*old(self), *final(self), app_id, received, data@),
    {
        let mut i: usize = 0;
        while i < self.announcements.len()
            invariant
                i <= self.announcements@.len(),
                *self == *old(self),
                forall|j: int|
                    0 <= j < i ==> (#[trigger] self.announcements@[j]).app_id != app_id,
            decreases self.announcements@.len() - i,
        {
            if self.announcements[i].app_id == app_id {
                self.announcements[i] = AnnouncementRow {
                    app_id,
                    received,
                    data: data.duplicate(),
                };
                proof {
                    let pre = *old(self);
                    let post = *self;
                    let idx = i as int;
                    assert(counters_wf(post));
                    assert(peers_wf(post));
                    assert forall|k: int|
                        0 <= k < post.apps@.len() implies 1 <= (#[trigger] post.apps@[k]).id
                            < post.next_app_id && has_peer_row(post, post.apps@[k].peer_id) by {
                        assert(has_peer_row(pre, pre.apps@[k].peer_id));
                        let w = choose|q: int|
                            0 <= q < pre.peers@.len() && (#[trigger] pre.peers@[q]).id
                                == pre.apps@[k].peer_id;
                        assert(post.peers@[w].id == post.apps@[k].peer_id);
                    }
                    assert(apps_wf(post));
                    assert forall|k: int|
                        0 <= k < post.labels@.len() implies has_app_row(
                        post,
                        (#[trigger] post.labels@[k]).app_id,
                    ) by {
                        lemma_app_row_preserved(pre, post, pre.labels@[k].app_id);
                    }
                    assert(labels_wf(post));
                    assert(blobs_wf(post));
                    assert forall|k: int|
                        0 <= k < post.inbox@.len() implies 1 <= (#[trigger] post.inbox@[k]).id
                            < post.next_inbox_id && has_app_row(post, post.inbox@[k].from_app_id)
                        && has_app_row(post, post.inbox@[k].to_app_id) && has_blob_row(
                        post,
                        post.inbox@[k].message_id,
                    ) by {
                        lemma_app_row_preserved(pre, post, pre.inbox@[k].from_app_id);
                        lemma_app_row_preserved(pre, post, pre.inbox@[k].to_app_id);
                        lemma_blob_row_preserved(pre, post, pre.inbox@[k].message_id);
                    }
                    assert(inbox_wf(post));
                    assert forall|k: int|
                        0 <= k < post.outbox@.len() implies 1 <= (#[trigger] post.outbox@[k]).id
                            < post.next_outbox_id && has_app_row(
                        post,
                        post.outbox@[k].from_app_id,
                    ) && has_app_row(post, post.outbox@[k].to_app_id) && has_blob_row(
                        post,
                        post.outbox@[k].message_id,
                    ) by {
                        lemma_app_row_preserved(pre, post, pre.outbox@[k].from_app_id);
                        lemma_app_row_preserved(pre, post, pre.outbox@[k].to_app_id);
                        lemma_blob_row_preserved(pre, post, pre.outbox@[k].message_id);
                    }
                    assert(outbox_wf(post));
                    assert forall|k: int|
                        0 <= k < post.announcements@.len() implies has_app_row(
                        post,
                        (#[trigger] post.announcements@[k]).app_id,
                    ) by {
                        if k != idx {
                            assert(post.announcements@[k] == pre.announcements@[k]);
                            lemma_app_row_preserved(pre, post, pre.announcements@[k].app_id);
                        } else {
                            lemma_app_row_preserved(pre, post, app_id);
                        }
                    }
                    assert forall|a: int, b: int|
                        0 <= a < post.announcements@.len() && 0 <= b < post.announcements@.len()
                            && a != b implies (#[trigger] post.announcements@[a]).app_id != (
                    #[trigger] post.announcements@[b]).app_id by {
                        if a != idx && b != idx {
                            assert(post.announcements@[a] == pre.announcements@[a]);
                            assert(post.announcements@[b] == pre.announcements@[b]);
                        } else if a == idx {
                            assert(post.announcements@[b] == pre.announcements@[b]);
                            assert(pre.announcements@[b].app_id != pre.announcements@[idx].app_id);
                        } else {
                            assert(post.announcements@[a] == pre.announcements@[a]);
                            assert(pre.announcements@[a].app_id != pre.announcements@[idx].app_id);
                        }
                    }
                    assert(announcements_wf(post));
                    assert forall|k: int|
                        0 <= k < post.ports@.len() implies has_app_row(
                        post,
                        (#[trigger] post.ports@[k]).app_id,
                    ) by {
                        lemma_app_row_preserved(pre, post, pre.ports@[k].app_id);
                    }
                    assert(ports_wf(post));
                    assert(post.wf());
                    let w = choose|k: int|
                        0 <= k < pre.announcements@.len() && (
                        #[trigger] pre.announcements@[k]).app_id == app_id;
                    assert(w == idx);
                    assert(post.announcements@[idx].app_id == app_id);
                    let v = choose|k: int|
                        0 <= k < post.announcements@.len() && (
                        #[trigger] post.announcements@[k]).app_id == app_id;
                    assert(v == idx);
                }
                return;
            }
            i += 1;
        }
        self.announcements.push(AnnouncementRow { app_id, received, data: data.duplicate() });
        proof {
            let pre = *old(self);
            let post = *self;
            let n = pre.announcements@.len() as int;
            assert(post.announcements@[n].app_id == app_id);
            assert(counters_wf(post));
            assert(peers_wf(post));
            assert forall|k: int|
                0 <= k < post.apps@.len() implies 1 <= (#[trigger] post.apps@[k]).id
                    < post.next_app_id && has_peer_row(post, post.apps@[k].peer_id) by {
                assert(has_peer_row(pre, pre.apps@[k].peer_id));
                let w = choose|q: int|
                    0 <= q < pre.peers@.len() && (#[trigger] pre.peers@[q]).id
                        == pre.apps@[k].peer_id;
                assert(post.peers@[w].id == post.apps@[k].peer_id);
            }
            assert(apps_wf(post));
            assert forall|k: int|
                0 <= k < post.labels@.len() implies has_app_row(
                post,
                (#[trigger] post.labels@[k]).app_id,
            ) by {
                lemma_app_row_preserved(pre, post, pre.labels@[k].app_id);
            }
            assert(labels_wf(post));
            assert(blobs_wf(post));
            assert forall|k: int|
                0 <= k < post.inbox@.len() implies 1 <= (#[trigger] post.inbox@[k]).id
                    < post.next_inbox_id && has_app_row(post, post.inbox@[k].from_app_id)
                && has_app_row(post, post.inbox@[k].to_app_id) && has_blob_row(
                post,
                post.inbox@[k].message_id,
            ) by {
                lemma_app_row_preserved(pre, post, pre.inbox@[k].from_app_id);
                lemma_app_row_preserved(pre, post, pre.inbox@[k].to_app_id);
                lemma_blob_row_preserved(pre, post, pre.inbox@[k].message_id);
            }
            assert(inbox_wf(post));
            assert forall|k: int|
                0 <= k < post.outbox@.len() implies 1 <= (#[trigger] post.outbox@[k]).id
                    < post.next_outbox_id && has_app_row(post, post.outbox@[k].from_app_id)
                && has_app_row(post, post.outbox@[k].to_app_id) && has_blob_row(
                post,
                post.outbox@[k].message_id,
            ) by {
                lemma_app_row_preserved(pre, post, pre.outbox@[k].from_app_id);
                lemma_app_row_preserved(pre, post, pre.outbox@[k].to_app_id);
                lemma_blob_row_preserved(pre, post, pre.outbox@[k].message_id);
            }
            assert(outbox_wf(post));
            assert forall|k: int|
                0 <= k < post.announcements@.len() implies has_app_row(
                post,
                (#[trigger] post.announcements@[k]).app_id,
            ) by {
                if k < n {
                    assert(post.announcements@[k] == pre.announcements@[k]);
                    lemma_app_row_preserved(pre, post, pre.announcements@[k].app_id);
                } else {
                    lemma_app_row_preserved(pre, post, app_id);
                }
            }
            assert forall|a: int, b: int|
                0 <= a < post.announcements@.len() && 0 <= b < post.announcements@.len() && a
                    != b implies (#[trigger] post.announcements@[a]).app_id != (
            #[trigger] post.announcements@[b]).app_id by {
                if a < n && b < n {
                    assert(post.announcements@[a] == pre.announcements@[a]);
                    assert(post.announcements@[b] == pre.announcements@[b]);
                } else if a == n && b < n {
                    assert(post.announcements@[b] == pre.announcements@[b]);
                    assert(pre.announcements@[b].app_id != app_id);
                } else if b == n && a < n {
                    assert(post.announcements@[a] == pre.announcements@[a]);
                    assert(pre.announcements@[a].app_id != app_id);
                }
            }
            assert(announcements_wf(post));
            assert forall|k: int|
                0 <= k < post.ports@.len() implies has_app_row(
                post,
                (#[trigger] post.ports@[k]).app_id,
            ) by {
                lemma_app_row_preserved(pre, post, pre.ports@[k].app_id);
            }
            assert(ports_wf(post));
            assert(post.wf());
            let v = choose|k: int|
                0 <= k < post.announcements@.len() && (#[trigger] post.announcements@[k]).app_id
                    == app_id;
            assert(v == n);
        }
    }
}

impl Store {
    /// The peer id and uuid of the app row with this id.
    #[verifier::loop_isolation(false)]
    fn lookup_app(&self, app_id: i64) -> (r: (i64, String))
        requires
            self.wf(),
            has_app_row(*self, app_id),
        ensures
            r.0 == app_peer(*self, app_id),
            r.1@ == app_uuid(*self, app_id),
    {
        let mut i: usize = 0;
        while i < self.apps.len()
            invariant
                i <= self.apps@.len(),
                forall|j: int| 0 <= j < i ==> (#[trigger] self.apps@[j]).id != app_id,
            decreases self.apps@.len() - i,
        {
            if self.apps[i].id == app_id {
                proof {
                    let v = choose|k: int|
                        0 <= k < self.apps@.len() && (#[trigger] self.apps@[k]).id == app_id;
                    assert(self.apps@[v].id == self.apps@[i as int].id);
                    assert(v == i as int);
                }
                return (self.apps[i].peer_id, self.apps[i].uuid.clone());
            }
            i += 1;
        }
        proof {
            let v = choose|k: int|
                0 <= k < self.apps@.len() && (#[trigger] self.apps@[k]).id == app_id;
            assert(false);
        }
        vstd::pervasive::unreached()
    }

    /// The textual identifier of the peer row with this id.
    #[verifier::loop_isolation(false)]
    fn lookup_peer_text(&self, id: i64) -> (r: String)
        requires
            self.wf(),
            has_peer_row(*self, id),
        ensures
            r@ == peer_text(*self, id),
    {
        let mut i: usize = 0;
        while i < self.peers.len()
            invariant
                i <= self.peers@.len(),
                forall|j: int| 0 <= j < i ==> (#[trigger] self.peers@[j]).id != id,
            decreases self.peers@.len() - i,
        {
            if self.peers[i].id == id {
                proof {
                    let v = choose|k: int|
                        0 <= k < self.peers@.len() && (#[trigger] self.peers@[k]).id == id;
                    assert(self.peers@[v].id == self.peers@[i as int].id);
                    assert(v == i as int);
                }
                return self.peers[i].peer_id.clone();
            }
            i += 1;
        }
        proof {
            let v = choose|k: int|
                0 <= k < self.peers@.len() && (#[trigger] self.peers@[k]).id == id;
            assert(false);
        }
        vstd::pervasive::unreached()
    }

    /// The bytes of the blob row with this id.
    #[verifier::loop_isolation(false)]
    fn lookup_blob(&self, id: i64) -> (r: Vec<u8>)
        requires
            self.wf(),
            has_blob_row(*self, id),
        ensures
            r@ == blob_data(*self, id),
    {
        let mut i: usize = 0;
        while i < self.blobs.len()
            invariant
                i <= self.blobs@.len(),
                forall|j: int| 0 <= j < i ==> (#[trigger] self.blobs@[j]).id != id,
            decreases self.blobs@.len() - i,
        {
            if self.blobs[i].id == id {
                proof {
                    let v = choose|k: int|
                        0 <= k < self.blobs@.len() && (#[trigger] self.blobs@[k]).id == id;
                    assert(self.blobs@[v].id == self.blobs@[i as int].id);
                    assert(v == i as int);
                }
                return self.blobs[i].data.clone();
            }
            i += 1;
        }
        proof {
            let v = choose|k: int|
                0 <= k < self.blobs@.len() && (#[trigger] self.blobs@[k]).id == id;
            assert(false);
        }
        vstd::pervasive::unreached()
    }

    /// Lists every stored announcement with its peer and app uuid.
    #[verifier::loop_isolation(false)]
    pub fn list_app_announcements(&self) -> (r: Vec<crate::protocol::AppAnnouncement>)
        requires
            self.wf(),
        ensures
            r@.len() == self.announcements@.len(),
            forall|i: int|
                0 <= i < r@.len() ==> (#[trigger] r@[i])@ == announcement_of_row(
                    *self,
                    self.announcements@[i],
                ),
    {
        let mut out: Vec<crate::protocol::AppAnnouncement> = Vec::new();
        let mut i: usize = 0;
        while i < self.announcements.len()
            invariant
                i <= self.announcements@.len(),
                out@.len() == i,
                forall|j: int|
                    0 <= j < i ==> (#[trigger] out@[j])@ == announcement_of_row(
                        *self,
                        self.announcements@[j],
                    ),
            decreases self.announcements@.len() - i,
        {
            let app_id = self.announcements[i].app_id;
            let (peer_row_id, uuid) = self.lookup_app(app_id);
            let peer = self.lookup_peer_text(peer_row_id);
            out.push(crate::protocol::AppAnnouncement {
                peer,
                app_uuid: uuid,
                data: self.announcements[i].data.duplicate(),
            });
            i += 1;
        }
        out
    }

    /// Lists the inbox messages addressed to one app, ascending by
    /// inbox id, each joined with its sending app, that app's peer,
    /// and its blob.
    #[verifier::loop_isolation(false)]
    #[verifier::rlimit(100)]
    pub fn list_app_inbox_messages(&self, app_id: i64) -> (r: Vec<Message>)
        requires
            self.wf(),
        ensures
            r@.len() == inbox_rows_for(*self, app_id).len(),
            forall|i: int|
                0 <= i < r@.len() ==> (#[trigger] r@[i])@ == message_of_row(
                    *self,
                    inbox_rows_for(*self, app_id)[i],
                ),
            forall|i: int, j: int| 0 <= i < j < r@.len() ==> r@[i]@.id < r@[j]@.id,
    {
        proof {
            reveal_with_fuel(Seq::<InboxRow>::filter, 2);
        }
        let mut out: Vec<Message> = Vec::new();
        let mut i: usize = 0;
        while i < self.inbox.len()
            invariant
                i <= self.inbox@.len(),
                out@.len() == rows_for(self.inbox@.take(i as int), app_id).len(),
                forall|j: int|
                    0 <= j < out@.len() ==> (#[trigger] out@[j])@ == message_of_row(
                        *self,
                        rows_for(self.inbox@.take(i as int), app_id)[j],
                    ),
            decreases self.inbox@.len() - i,
        {
            proof {
                reveal_with_fuel(Seq::<InboxRow>::filter, 2);
                let t1 = self.inbox@.take(i as int + 1);
                assert(t1.drop_last() =~= self.inbox@.take(i as int));
                assert(t1.last() == self.inbox@[i as int]);
                assert(rows_for(t1, app_id) == if self.inbox@[i as int].to_app_id == app_id {
                    rows_for(self.inbox@.take(i as int), app_id).push(self.inbox@[i as int])
                } else {
                    rows_for(self.inbox@.take(i as int), app_id)
                });
            }
            if self.inbox[i].to_app_id == app_id {
                let row_id = self.inbox[i].id;
                let (peer_row_id, uuid) = self.lookup_app(self.inbox[i].from_app_id);
                let peer = self.lookup_peer_text(peer_row_id);
                let data = self.lookup_blob(self.inbox[i].message_id);
                out.push(Message { id: row_id as u64, peer, uuid, message: data });
            }
            i += 1;
        }
        proof {
            assert(self.inbox@.take(self.inbox@.len() as int) =~= self.inbox@);
            lemma_filtered_rows(self.inbox@, app_id);
            assert forall|i: int, j: int| 0 <= i < j < out@.len() implies out@[i]@.id
                < out@[j]@.id by {
                let f = inbox_rows_for(*self, app_id);
                assert(out@[i]@ == message_of_row(*self, f[i]));
                assert(out@[j]@ == message_of_row(*self, f[j]));
                assert(f[i].id < f[j].id);
                assert(self.inbox@.contains(f[i]));
                let w = choose|k: int| 0 <= k < self.inbox@.len() && self.inbox@[k] == f[i];
                assert(1 <= self.inbox@[w].id);
            }
        }
        out
    }

    /// The last port recorded for this app, if any.
    #[verifier::loop_isolation(false)]
    pub fn get_last_port(&self, app_id: i64) -> (r: Option<u16>)
        requires
            self.wf(),
        ensures
            match r {
                Option::Some(port) => has_port(*self, app_id) && exists|i: int|
                    0 <= i < self.ports@.len() && (#[trigger] self.ports@[i]).app_id == app_id
                        && self.ports@[i].port == port,
                Option::None => !has_port(*self, app_id),
            },
    {
        let mut i: usize = 0;
        while i < self.ports.len()
            invariant
                i <= self.ports@.len(),
                forall|j: int| 0 <= j < i ==> (#[trigger] self.ports@[j]).app_id != app_id,
            decreases self.ports@.len() - i,
        {
            if self.ports[i].app_id == app_id {
                return Option::Some(self.ports[i].port);
            }
            i += 1;
        }
        Option::None
    }

    /// Upserts the last port recorded for this app.
    #[verifier::loop_isolation(false)]
    #[verifier::rlimit(100)]
    #[verifier::spinoff_prover]
    pub fn set_last_port(&mut self, app_id: i64, port: u16)
        requires
            old(self).wf(),
            has_app_row(*old(self), app_id),
        ensures
            final(self).wf(),
            *final(self) == (Store { ports: final(self).ports, ..*old(self) }),
            has_port(*final(self), app_id),
            forall|i: int|
                0 <= i < final(self).ports@.len() && (#[trigger] final(self).ports@[i]).app_id
                    == app_id ==> final(self).ports@[i].port == port,
            forall|i: int|
                0 <= i < old(self).ports@.len() && (#[trigger] old(self).ports@[i]).app_id
                    != app_id ==> final(self).ports@.contains(old(self).ports@[i]),
            forall|i: int|
                0 <= i < final(self).ports@.len() && (#[trigger] final(self).ports@[i]).app_id
                    != app_id ==> old(self).ports@.contains(final(self).ports@[i]),
    {
        let mut i: usize = 0;
        while i < self.ports.len()
            invariant
                i <= self.ports@.len(),
                *self == *old(self),
                forall|j: int| 0 <= j < i ==> (#[trigger] self.ports@[j]).app_id != app_id,
            decreases self.ports@.len() - i,
        {
            if self.ports[i].app_id == app_id {
                self.ports[i] = PortRow { app_id, port };
                proof {
                    let pre = *old(self);
                    let post = *self;
                    let idx = i as int;
                    assert(counters_wf(post));
                    assert(peers_wf(post));
                    assert forall|k: int|
                        0 <= k < post.apps@.len() implies 1 <= (#[trigger] post.apps@[k]).id
                            < post.next_app_id && has_peer_row(post, post.apps@[k].peer_id) by {
                        assert(has_peer_row(pre, pre.apps@[k].peer_id));
                        let w = choose|q: int|
                            0 <= q < pre.peers@.len() && (#[trigger] pre.peers@[q]).id
                                == pre.apps@[k].peer_id;
                        assert(post.peers@[w].id == post.apps@[k].peer_id);
                    }
                    assert(apps_wf(post));
                    assert forall|k: int|
                        0 <= k < post.labels@.len() implies has_app_row(
                        post,
                        (#[trigger] post.labels@[k]).app_id,
                    ) by {
                        lemma_app_row_preserved(pre, post, pre.labels@[k].app_id);
                    }
                    assert(labels_wf(post));
                    assert(blobs_wf(post));
                    assert forall|k: int|
                        0 <= k < post.inbox@.len() implies 1 <= (#[trigger] post.inbox@[k]).id
                            < post.next_inbox_id && has_app_row(post, post.inbox@[k].from_app_id)
                        && has_app_row(post, post.inbox@[k].to_app_id) && has_blob_row(
                        post,
                        post.inbox@[k].message_id,
                    ) by {
                        lemma_app_row_preserved(pre, post, pre.inbox@[k].from_app_id);
                        lemma_app_row_preserved(pre, post, pre.inbox@[k].to_app_id);
                        lemma_blob_row_preserved(pre, post, pre.inbox@[k].message_id);
                    }
                    assert(inbox_wf(post));
                    assert forall|k: int|
                        0 <= k < post.outbox@.len() implies 1 <= (#[trigger] post.outbox@[k]).id
                            < post.next_outbox_id && has_app_row(
                        post,
                        post.outbox@[k].from_app_id,
                    ) && has_app_row(post, post.outbox@[k].to_app_id) && has_blob_row(
                        post,
                        post.outbox@[k].message_id,
                    ) by {
                        lemma_app_row_preserved(pre, post, pre.outbox@[k].from_app_id);
                        lemma_app_row_preserved(pre, post, pre.outbox@[k].to_app_id);
                        lemma_blob_row_preserved(pre, post, pre.outbox@[k].message_id);
                    }
                    assert(outbox_wf(post));
                    assert forall|k: int|
                        0 <= k < post.announcements@.len() implies has_app_row(
                        post,
                        (#[trigger] post.announcements@[k]).app_id,
                    ) by {
                        lemma_app_row_preserved(pre, post, pre.announcements@[k].app_id);
                    }
                    assert(announcements_wf(post));
                    assert forall|k: int|
                        0 <= k < post.ports@.len() implies has_app_row(
                        post,
                        (#[trigger] post.ports@[k]).app_id,
                    ) by {
                        if k != idx {
                            assert(post.ports@[k] == pre.ports@[k]);
                            lemma_app_row_preserved(pre, post, pre.ports@[k].app_id);
                        } else {
                            lemma_app_row_preserved(pre, post, app_id);
                        }
                    }
                    assert forall|a: int, b: int|
                        0 <= a < post.ports@.len() && 0 <= b < post.ports@.len() && a
                            != b implies (#[trigger] post.ports@[a]).app_id != (
                    #[trigger] post.ports@[b]).app_id by {
                        if a != idx && b != idx {
                            assert(post.ports@[a] == pre.ports@[a]);
                            assert(post.ports@[b] == pre.ports@[b]);
                        } else if a == idx {
                            assert(post.ports@[b] == pre.ports@[b]);
                            assert(pre.ports@[b].app_id != pre.ports@[idx].app_id);
                        } else {
                            assert(post.ports@[a] == pre.ports@[a]);
                            assert(pre.ports@[a].app_id != pre.ports@[idx].app_id);
                        }
                    }
                    assert(ports_wf(post));
                    assert(post.wf());
                    assert(post.ports@[idx].app_id == app_id);
                    assert forall|k: int|
                        0 <= k < pre.ports@.len() && (#[trigger] pre.ports@[k]).app_id
                            != app_id implies post.ports@.contains(pre.ports@[k]) by {
                        assert(post.ports@[k] == pre.ports@[k]);
                    }
                    assert forall|k: int|
                        0 <= k < post.ports@.len() && (#[trigger] post.ports@[k]).app_id
                            != app_id implies pre.ports@.contains(post.ports@[k]) by {
                        assert(post.ports@[k] == pre.ports@[k]);
                    }
                }
                return;
            }
            i += 1;
        }
        self.ports.push(PortRow { app_id, port });
        proof {
            let pre = *old(self);
            let post = *self;
            let n = pre.ports@.len() as int;
            assert(post.ports@[n].app_id == app_id);
            assert(counters_wf(post));
            assert(peers_wf(post));
            assert forall|k: int|
                0 <= k < post.apps@.len() implies 1 <= (#[trigger] post.apps@[k]).id
                    < post.next_app_id && has_peer_row(post, post.apps@[k].peer_id) by {
                assert(has_peer_row(pre, pre.apps@[k].peer_id));
                let w = choose|q: int|
                    0 <= q < pre.peers@.len() && (#[trigger] pre.peers@[q]).id
                        == pre.apps@[k].peer_id;
                assert(post.peers@[w].id == post.apps@[k].peer_id);
            }
            assert(apps_wf(post));
            assert forall|k: int|
                0 <= k < post.labels@.len() implies has_app_row(
                post,
                (#[trigger] post.labels@[k]).app_id,
            ) by {
                lemma_app_row_preserved(pre, post, pre.labels@[k].app_id);
            }
            assert(labels_wf(post));
            assert(blobs_wf(post));
            assert forall|k: int|
                0 <= k < post.inbox@.len() implies 1 <= (#[trigger] post.inbox@[k]).id
                    < post.next_inbox_id && has_app_row(post, post.inbox@[k].from_app_id)
                && has_app_row(post, post.inbox@[k].to_app_id) && has_blob_row(
                post,
                post.inbox@[k].message_id,
            ) by {
                lemma_app_row_preserved(pre, post, pre.inbox@[k].from_app_id);
                lemma_app_row_preserved(pre, post, pre.inbox@[k].to_app_id);
                lemma_blob_row_preserved(pre, post, pre.inbox@[k].message_id);
            }
            assert(inbox_wf(post));
            assert forall|k: int|
                0 <= k < post.outbox@.len() implies 1 <= (#[trigger] post.outbox@[k]).id
                    < post.next_outbox_id && has_app_row(post, post.outbox@[k].from_app_id)
                && has_app_row(post, post.outbox@[k].to_app_id) && has_blob_row(
                post,
                post.outbox@[k].message_id,
            ) by {
                lemma_app_row_preserved(pre, post, pre.outbox@[k].from_app_id);
                lemma_app_row_preserved(pre, post, pre.outbox@[k].to_app_id);
                lemma_blob_row_preserved(pre, post, pre.outbox@[k].message_id);
            }
            assert(outbox_wf(post));
            assert forall|k: int|
                0 <= k < post.announcements@.len() implies has_app_row(
                post,
                (#[trigger] post.announcements@[k]).app_id,
            ) by {
                lemma_app_row_preserved(pre, post, pre.announcements@[k].app_id);
            }
            assert(announcements_wf(post));
            assert forall|k: int|
                0 <= k < post.ports@.len() implies has_app_row(
                post,
                (#[trigger] post.ports@[k]).app_id,
            ) by {
                if k < n {
                    assert(post.ports@[k] == pre.ports@[k]);
                    lemma_app_row_preserved(pre, post, pre.ports@[k].app_id);
                } else {
                    lemma_app_row_preserved(pre, post, app_id);
                }
            }
            assert forall|a: int, b: int|
                0 <= a < post.ports@.len() && 0 <= b < post.ports@.len() && a != b implies (
            #[trigger] post.ports@[a]).app_id != (#[trigger] post.ports@[b]).app_id by {
                if a < n && b < n {
                    assert(post.ports@[a] == pre.ports@[a]);
                    assert(post.ports@[b] == pre.ports@[b]);
                } else if a == n && b < n {
                    assert(post.ports@[b] == pre.ports@[b]);
                    assert(pre.ports@[b].app_id != app_id);
                } else if b == n && a < n {
                    assert(post.ports@[a] == pre.ports@[a]);
                    assert(pre.ports@[a].app_id != app_id);
                }
            }
            assert(ports_wf(post));
            assert(post.wf());
            assert forall|k: int|
                0 <= k < pre.ports@.len() && (#[trigger] pre.ports@[k]).app_id
                    != app_id implies post.ports@.contains(pre.ports@[k]) by {
                assert(post.ports@[k] == pre.ports@[k]);
            }
            assert forall|k: int|
                0 <= k < post.ports@.len() && (#[trigger] post.ports@[k]).app_id
                    != app_id implies pre.ports@.contains(post.ports@[k]) by {
                assert(k < n);
                assert(post.ports@[k] == pre.ports@[k]);
            }
        }
    }
}

impl Store {
    /// Whether a peer row with this id is present.
    #[verifier::loop_isolation(false)]
    fn peer_row_exists(&self, id: i64) -> (r: bool)
        ensures
            r <==> has_peer_row(*self, id),
    {
        let mut i: usize = 0;
        while i < self.peers.len()
            invariant
                i <= self.peers@.len(),
                forall|j: int| 0 <= j < i ==> (#[trigger] self.peers@[j]).id != id,
            decreases self.peers@.len() - i,
        {
            if self.peers[i].id == id {
                return true;
            }
            i += 1;
        }
        false
    }

    /// Whether an app row with this id is present.
    #[verifier::loop_isolation(false)]
    fn app_row_exists(&self, id: i64) -> (r: bool)
        ensures
            r <==> has_app_row(*self, id),
    {
        let mut i: usize = 0;
        while i < self.apps.len()
            invariant
                i <= self.apps@.len(),
                forall|j: int| 0 <= j < i ==> (#[trigger] self.apps@[j]).id != id,
            decreases self.apps@.len() - i,
        {
            if self.apps[i].id == id {
                return true;
            }
            i += 1;
        }
        false
    }

    /// Whether a blob row with this id is present.
    #[verifier::loop_isolation(false)]
    fn blob_row_exists(&self, id: i64) -> (r: bool)
        ensures
            r <==> has_blob_row(*self, id),
    {
        let mut i: usize = 0;
        while i < self.blobs.len()
            invariant
                i <= self.blobs@.len(),
                forall|j: int| 0 <= j < i ==> (#[trigger] self.blobs@[j]).id != id,
            decreases self.blobs@.len() - i,
        {
            if self.blobs[i].id == id {
                return true;
            }
            i += 1;
        }
        false
    }

    /// Checks the store's well-formedness invariant on data of
    /// unknown provenance, such as rows read back from disk: it holds
    /// exactly when this returns true.
    #[verifier::loop_isolation(false)]
    #[verifier::rlimit(100)]
    #[verifier::spinoff_prover]
    pub fn check_wf(&self) -> (r: bool)
        ensures
            r <==> self.wf(),
    {
        if !(1 <= self.next_peer_id && 1 <= self.next_app_id && 1 <= self.next_blob_id
            && 1 <= self.next_inbox_id && 1 <= self.next_outbox_id) {
            proof {
                assert(!counters_wf(*self));
            }
            return false;
        }
        let mut i: usize = 0;
        while i < self.peers.len()
            invariant
                i <= self.peers@.len(),
                forall|a: int|
                    0 <= a < i ==> 1 <= (#[trigger] self.peers@[a]).id < self.next_peer_id,
                forall|a: int, b: int|
                    0 <= a < i && a < b < self.peers@.len() ==> (#[trigger] self.peers@[a]).id
                        != (#[trigger] self.peers@[b]).id && self.peers@[a].peer_id@
                        != self.peers@[b].peer_id@,
            decreases self.peers@.len() - i,
        {
            if !(1 <= self.peers[i].id && self.peers[i].id < self.next_peer_id) {
                proof {
                    assert(!(1 <= self.peers@[i as int].id < self.next_peer_id));
                    assert(!peers_wf(*self));
                }
                return false;
            }
            let mut j: usize = i + 1;
            while j < self.peers.len()
                invariant
                    i < j <= self.peers@.len(),
                    forall|b: int|
                        i < b < j ==> (#[trigger] self.peers@[b]).id != self.peers@[i as int].id
                            && self.peers@[b].peer_id@ != self.peers@[i as int].peer_id@,
                decreases self.peers@.len() - j,
            {
                if self.peers[i].id == self.peers[j].id
                    || str_eq(self.peers[i].peer_id.as_str(), self.peers[j].peer_id.as_str()) {
                    proof {
                        assert(0 <= i < self.peers@.len() && 0 <= (j as int) < self.peers@.len()
                            && i != j);
                        assert(!peers_wf(*self));
                    }
                    return false;
                }
                j += 1;
            }
            i += 1;
        }
        proof {
            assert(peers_wf(*self)) by {
                assert forall|a: int, b: int|
                    0 <= a < self.peers@.len() && 0 <= b < self.peers@.len() && a
                        != b implies (#[trigger] self.peers@[a]).id != (
                #[trigger] self.peers@[b]).id && self.peers@[a].peer_id@
                    != self.peers@[b].peer_id@ by {
                    if b < a {
                        assert(self.peers@[b].id != self.peers@[a].id);
                    }
                }
            }
        }
        let mut i: usize = 0;
        while i < self.apps.len()
            invariant
                i <= self.apps@.len(),
                forall|a: int|
                    0 <= a < i ==> 1 <= (#[trigger] self.apps@[a]).id < self.next_app_id
                        && has_peer_row(*self, self.apps@[a].peer_id),
                forall|a: int, b: int|
                    0 <= a < i && a < b < self.apps@.len() ==> (#[trigger] self.apps@[a]).id != (
                    #[trigger] self.apps@[b]).id && !(self.apps@[a].peer_id
                        == self.apps@[b].peer_id && self.apps@[a].uuid@ == self.apps@[b].uuid@),
            decreases self.apps@.len() - i,
        {
            if !(1 <= self.apps[i].id && self.apps[i].id < self.next_app_id) {
                proof {
                    assert(!(1 <= self.apps@[i as int].id < self.next_app_id));
                    assert(!apps_wf(*self));
                }
                return false;
            }
            if !self.peer_row_exists(self.apps[i].peer_id) {
                proof {
                    assert(!has_peer_row(*self, self.apps@[i as int].peer_id));
                    assert(!apps_wf(*self));
                }
                return false;
            }
            let mut j: usize = i + 1;
            while j < self.apps.len()
                invariant
                    i < j <= self.apps@.len(),
                    forall|b: int|
                        i < b < j ==> (#[trigger] self.apps@[b]).id != self.apps@[i as int].id
                            && !(self.apps@[b].peer_id == self.apps@[i as int].peer_id
                            && self.apps@[b].uuid@ == self.apps@[i as int].uuid@),
                decreases self.apps@.len() - j,
            {
                if self.apps[i].id == self.apps[j].id
                    || (self.apps[i].peer_id == self.apps[j].peer_id && str_eq(
                    self.apps[i].uuid.as_str(),
                    self.apps[j].uuid.as_str(),
                )) {
                    proof {
                        assert(0 <= i < self.apps@.len() && 0 <= (j as int) < self.apps@.len()
                            && i != j);
                        assert(!apps_wf(*self));
                    }
                    return false;
                }
                j += 1;
            }
            i += 1;
        }
        proof {
            assert(apps_wf(*self)) by {
                assert forall|a: int, b: int|
                    0 <= a < self.apps@.len() && 0 <= b < self.apps@.len() && a != b implies (
                #[trigger] self.apps@[a]).id != (#[trigger] self.apps@[b]).id && !(
                self.apps@[a].peer_id == self.apps@[b].peer_id && self.apps@[a].uuid@
                    == self.apps@[b].uuid@) by {
                    if b < a {
                        assert(self.apps@[b].id != self.apps@[a].id);
                        assert(!(self.apps@[b].peer_id == self.apps@[a].peer_id
                            && self.apps@[b].uuid@ == self.apps@[a].uuid@));
                    }
                }
            }
        }
        let mut i: usize = 0;
        while i < self.labels.len()
            invariant
                i <= self.labels@.len(),
                forall|a: int|
                    0 <= a < i ==> has_app_row(*self, (#[trigger] self.labels@[a]).app_id),
                forall|a: int, b: int|
                    0 <= a < i && a < b < self.labels@.len() ==> (
                    #[trigger] self.labels@[a]).app_id != (#[trigger] self.labels@[b]).app_id
                        && self.labels@[a].label@ != self.labels@[b].label@,
            decreases self.labels@.len() - i,
        {
            if !self.app_row_exists(self.labels[i].app_id) {
                proof {
                    assert(!has_app_row(*self, self.labels@[i as int].app_id));
                    assert(!labels_wf(*self));
                }
                return false;
            }
            let mut j: usize = i + 1;
            while j < self.labels.len()
                invariant
                    i < j <= self.labels@.len(),
                    forall|b: int|
                        i < b < j ==> (#[trigger] self.labels@[b]).app_id
                            != self.labels@[i as int].app_id && self.labels@[b].label@
                            != self.labels@[i as int].label@,
                decreases self.labels@.len() - j,
            {
                if self.labels[i].app_id == self.labels[j].app_id
                    || str_eq(self.labels[i].label.as_str(), self.labels[j].label.as_str()) {
                    proof {
                        assert(0 <= i < self.labels@.len() && 0 <= (j as int)
                            < self.labels@.len() && i != j);
                        assert(!labels_wf(*self));
                    }
                    return false;
                }
                j += 1;
            }
            i += 1;
        }
        proof {
            assert(labels_wf(*self)) by {
                assert forall|a: int, b: int|
                    0 <= a < self.labels@.len() && 0 <= b < self.labels@.len() && a
                        != b implies (#[trigger] self.labels@[a]).app_id != (
                #[trigger] self.labels@[b]).app_id && self.labels@[a].label@
                    != self.labels@[b].label@ by {
                    if b < a {
                        assert(self.labels@[b].app_id != self.labels@[a].app_id);
                    }
                }
            }
        }
        let mut i: usize = 0;
        while i < self.blobs.len()
            invariant
                i <= self.blobs@.len(),
                forall|a: int|
                    0 <= a < i ==> 1 <= (#[trigger] self.blobs@[a]).id < self.next_blob_id,
                forall|a: int, b: int|
                    0 <= a < i && a < b < self.blobs@.len() ==> (#[trigger] self.blobs@[a]).id
                        != (#[trigger] self.blobs@[b]).id && self.blobs@[a].data@
                        != self.blobs@[b].data@,
            decreases self.blobs@.len() - i,
        {
            if !(1 <= self.blobs[i].id && self.blobs[i].id < self.next_blob_id) {
                proof {
                    assert(!(1 <= self.blobs@[i as int].id < self.next_blob_id));
                    assert(!blobs_wf(*self));
                }
                return false;
            }
            let mut j: usize = i + 1;
            while j < self.blobs.len()
                invariant
                    i < j <= self.blobs@.len(),
                    forall|b: int|
                        i < b < j ==> (#[trigger] self.blobs@[b]).id != self.blobs@[i as int].id
                            && self.blobs@[b].data@ != self.blobs@[i as int].data@,
                decreases self.blobs@.len() - j,
            {
                if self.blobs[i].id == self.blobs[j].id
                    || bytes_eq(&self.blobs[i].data, &self.blobs[j].data) {
                    proof {
                        assert(0 <= i < self.blobs@.len() && 0 <= (j as int) < self.blobs@.len()
                            && i != j);
                        assert(!blobs_wf(*self));
                    }
                    return false;
                }
                j += 1;
            }
            i += 1;
        }
        proof {
            assert(blobs_wf(*self)) by {
                assert forall|a: int, b: int|
                    0 <= a < self.blobs@.len() && 0 <= b < self.blobs@.len() && a != b implies (
                #[trigger] self.blobs@[a]).id != (#[trigger] self.blobs@[b]).id
                    && self.blobs@[a].data@ != self.blobs@[b].data@ by {
                    if b < a {
                        assert(self.blobs@[b].id != self.blobs@[a].id);
                    }
                }
            }
        }
        let mut i: usize = 0;
        while i < self.inbox.len()
            invariant
                i <= self.inbox@.len(),
                forall|a: int|
                    0 <= a < i ==> 1 <= (#[trigger] self.inbox@[a]).id < self.next_inbox_id
                        && has_app_row(*self, self.inbox@[a].from_app_id) && has_app_row(
                        *self,
                        self.inbox@[a].to_app_id,
                    ) && has_blob_row(*self, self.inbox@[a].message_id),
                forall|a: int, b: int|
                    0 <= a < i && a < b < self.inbox@.len() ==> (#[trigger] self.inbox@[a]).id
                        < (#[trigger] self.inbox@[b]).id,
            decreases self.inbox@.len() - i,
        {
            if !(1 <= self.inbox[i].id && self.inbox[i].id < self.next_inbox_id) {
                proof {
                    assert(!(1 <= self.inbox@[i as int].id < self.next_inbox_id));
                    assert(!inbox_wf(*self));
                }
                return false;
            }
            if !self.app_row_exists(self.inbox[i].from_app_id)
                || !self.app_row_exists(self.inbox[i].to_app_id)
                || !self.blob_row_exists(self.inbox[i].message_id) {
                proof {
                    assert(!(has_app_row(*self, self.inbox@[i as int].from_app_id) && has_app_row(
                        *self,
                        self.inbox@[i as int].to_app_id,
                    ) && has_blob_row(*self, self.inbox@[i as int].message_id)));
                    assert(!inbox_wf(*self));
                }
                return false;
            }
            let mut j: usize = i + 1;
            while j < self.inbox.len()
                invariant
                    i < j <= self.inbox@.len(),
                    forall|b: int|
                        i < b < j ==> self.inbox@[i as int].id < (#[trigger] self.inbox@[b]).id,
                decreases self.inbox@.len() - j,
            {
                if self.inbox[i].id >= self.inbox[j].id {
                    proof {
                        assert(0 <= i < (j as int) < self.inbox@.len());
                        assert(!inbox_wf(*self));
                    }
                    return false;
                }
                j += 1;
            }
            i += 1;
        }
        proof {
            assert(inbox_wf(*self));
        }
        let mut i: usize = 0;
        while i < self.outbox.len()
            invariant
                i <= self.outbox@.len(),
                forall|a: int|
                    0 <= a < i ==> 1 <= (#[trigger] self.outbox@[a]).id < self.next_outbox_id
                        && has_app_row(*self, self.outbox@[a].from_app_id) && has_app_row(
                        *self,
                        self.outbox@[a].to_app_id,
                    ) && has_blob_row(*self, self.outbox@[a].message_id),
                forall|a: int, b: int|
                    0 <= a < i && a < b < self.outbox@.len() ==> (#[trigger] self.outbox@[a]).id
                        < (#[trigger] self.outbox@[b]).id,
            decreases self.outbox@.len() - i,
        {
            if !(1 <= self.outbox[i].id && self.outbox[i].id < self.next_outbox_id) {
                proof {
                    assert(!(1 <= self.outbox@[i as int].id < self.next_outbox_id));
                    assert(!outbox_wf(*self));
                }
                return false;
            }
            if !self.app_row_exists(self.outbox[i].from_app_id)
                || !self.app_row_exists(self.outbox[i].to_app_id)
                || !self.blob_row_exists(self.outbox[i].message_id) {
                proof {
                    assert(!(has_app_row(*self, self.outbox@[i as int].from_app_id)
                        && has_app_row(*self, self.outbox@[i as int].to_app_id) && has_blob_row(
                        *self,
                        self.outbox@[i as int].message_id,
                    )));
                    assert(!outbox_wf(*self));
                }
                return false;
            }
            let mut j: usize = i + 1;
            while j < self.outbox.len()
                invariant
                    i < j <= self.outbox@.len(),
                    forall|b: int|
                        i < b < j ==> self.outbox@[i as int].id < (
                        #[trigger] self.outbox@[b]).id,
                decreases self.outbox@.len() - j,
            {
                if self.outbox[i].id >= self.outbox[j].id {
                    proof {
                        assert(0 <= i < (j as int) < self.outbox@.len());
                        assert(!outbox_wf(*self));
                    }
                    return false;
                }
                j += 1;
            }
            i += 1;
        }
        proof {
            assert(outbox_wf(*self));
        }
        let mut i: usize = 0;
        while i < self.announcements.len()
            invariant
                i <= self.announcements@.len(),
                forall|a: int|
                    0 <= a < i ==> has_app_row(*self, (#[trigger] self.announcements@[a]).app_id),
                forall|a: int, b: int|
                    0 <= a < i && a < b < self.announcements@.len() ==> (
                    #[trigger] self.announcements@[a]).app_id != (
                    #[trigger] self.announcements@[b]).app_id,
            decreases self.announcements@.len() - i,
        {
            if !self.app_row_exists(self.announcements[i].app_id) {
                proof {
                    assert(!has_app_row(*self, self.announcements@[i as int].app_id));
                    assert(!announcements_wf(*self));
                }
                return false;
            }
            let mut j: usize = i + 1;
            while j < self.announcements.len()
                invariant
                    i < j <= self.announcements@.len(),
                    forall|b: int|
                        i < b < j ==> (#[trigger] self.announcements@[b]).app_id
                            != self.announcements@[i as int].app_id,
                decreases self.announcements@.len() - j,
            {
                if self.announcements[i].app_id == self.announcements[j].app_id {
                    proof {
                        assert(0 <= i < self.announcements@.len() && 0 <= (j as int)
                            < self.announcements@.len() && i != j);
                        assert(!announcements_wf(*self));
                    }
                    return false;
                }
                j += 1;
            }
            i += 1;
        }
        proof {
            assert(announcements_wf(*self)) by {
                assert forall|a: int, b: int|
                    0 <= a < self.announcements@.len() && 0 <= b < self.announcements@.len() && a
                        != b implies (#[trigger] self.announcements@[a]).app_id != (
                #[trigger] self.announcements@[b]).app_id by {
                    if b < a {
                        assert(self.announcements@[b].app_id != self.announcements@[a].app_id);
                    }
                }
            }
        }
        let mut i: usize = 0;
        while i < self.ports.len()
            invariant
                i <= self.ports@.len(),
                forall|a: int|
                    0 <= a < i ==> has_app_row(*self, (#[trigger] self.ports@[a]).app_id),
                forall|a: int, b: int|
                    0 <= a < i && a < b < self.ports@.len() ==> (
                    #[trigger] self.ports@[a]).app_id != (#[trigger] self.ports@[b]).app_id,
            decreases self.ports@.len() - i,
        {
            if !self.app_row_exists(self.ports[i].app_id) {
                proof {
                    assert(!has_app_row(*self, self.ports@[i as int].app_id));
                    assert(!ports_wf(*self));
                }
                return false;
            }
            let mut j: usize = i + 1;
            while j < self.ports.len()
                invariant
                    i < j <= self.ports@.len(),
                    forall|b: int|
                        i < b < j ==> (#[trigger] self.ports@[b]).app_id
                            != self.ports@[i as int].app_id,
                decreases self.ports@.len() - j,
            {
                if self.ports[i].app_id == self.ports[j].app_id {
                    proof {
                        assert(0 <= i < self.ports@.len() && 0 <= (j as int)
                            < self.ports@.len() && i != j);
                        assert(!ports_wf(*self));
                    }
                    return false;
                }
                j += 1;
            }
            i += 1;
        }
        proof {
            assert(ports_wf(*self)) by {
                assert forall|a: int, b: int|
                    0 <= a < self.ports@.len() && 0 <= b < self.ports@.len() && a != b implies (
                #[trigger] self.ports@[a]).app_id != (#[trigger] self.ports@[b]).app_id by {
                    if b < a {
                        assert(self.ports@[b].app_id != self.ports@[a].app_id);
                    }
                }
            }
        }
        true
    }
}

} // verus!
