use mutinyd::daemon::{Action, Daemon, SwarmEvent};
use mutinyd::json::JsonValue;
use mutinyd::protocol::{RequestBody, ResponseBody};
use mutinyd::store::Store;
use mutinyd::swarm;

fn fresh_daemon(local: &str) -> Daemon {
    let mut store = Store::new();
    store.migrate();
    assert_eq!(store.schema_version(), 3);
    Daemon::start(local.to_string(), store)
}

fn hello_payload() -> JsonValue {
    JsonValue::Object(vec![("hello".to_string(), JsonValue::Num("1".to_string()))])
}

/// A daemon holding peer `peerABC` answers a single `LocalPeerId`
/// request with id 7 by `{request_id: 7, LocalPeerId{peerABC}}`.
#[test]
fn single_local_peer_id_request() {
    let mut d = fresh_daemon("peerABC");
    let acts = d.client_request(7, RequestBody::LocalPeerId, 100);
    assert_eq!(acts.len(), 1);
    match &acts[0] {
        Action::Respond { request_id, body } => {
            assert_eq!(*request_id, 7);
            match body {
                ResponseBody::LocalPeerId { peer_id } => assert_eq!(peer_id, "peerABC"),
                other => panic!("wrong body: {:?}", other),
            }
        },
        other => panic!("wrong action: {:?}", other),
    }
}

/// Two pipelined requests each get their own answer under their own id.
#[test]
fn two_requests_one_session() {
    let mut d = fresh_daemon("peerABC");
    let acts1 = d.client_request(1, RequestBody::LocalPeerId, 100);
    let acts2 = d.client_request(2, RequestBody::Peers, 100);
    match &acts1[0] {
        Action::Respond { request_id, body } => {
            assert_eq!(*request_id, 1);
            assert!(matches!(body, ResponseBody::LocalPeerId { .. }));
        },
        other => panic!("wrong action: {:?}", other),
    }
    match &acts2[0] {
        Action::Respond { request_id, body } => {
            assert_eq!(*request_id, 2);
            match body {
                ResponseBody::Peers { peers } => assert!(peers.is_empty()),
                other => panic!("wrong body: {:?}", other),
            }
        },
        other => panic!("wrong action: {:?}", other),
    }
}

/// Creating an app binds the label to a fresh uuid; looking it up
/// returns the same uuid; a second create with the same label fails.
#[test]
fn create_lookup_and_reject_duplicate_label() {
    let mut d = fresh_daemon("peerABC");
    let u1 = match d.handle_request(1, RequestBody::CreateAppInstance { label: "chat".to_string() }, 100) {
        Ok(acts) => match &acts[0] {
            Action::Respond { request_id: 1, body: ResponseBody::CreateAppInstance { uuid } } => {
                uuid.clone()
            },
            other => panic!("wrong action: {:?}", other),
        },
        Err(e) => panic!("create failed: {:?}", e),
    };
    assert_eq!(u1.len(), 36);
    let b = u1.as_bytes();
    for (i, c) in b.iter().enumerate() {
        match i {
            8 | 13 | 18 | 23 => assert_eq!(*c, b'-'),
            _ => assert!(c.is_ascii_hexdigit() && !c.is_ascii_uppercase()),
        }
    }
    assert_eq!(b[14], b'4');
    assert!(matches!(b[19], b'8' | b'9' | b'a' | b'b'));
    let acts = d.client_request(2, RequestBody::AppInstanceUuid { label: "chat".to_string() }, 100);
    match &acts[0] {
        Action::Respond { request_id: 2, body: ResponseBody::AppInstanceUuid { uuid } } => {
            assert_eq!(uuid.as_deref(), Some(u1.as_str()));
        },
        other => panic!("wrong action: {:?}", other),
    }
    let acts = d.client_request(3, RequestBody::CreateAppInstance { label: "chat".to_string() }, 100);
    match &acts[0] {
        Action::Respond { request_id: 3, body: ResponseBody::Error { message } } => {
            assert_eq!(message, "label is already bound to an app instance");
        },
        other => panic!("expected an error: {:?}", other),
    }
}

/// A lookup of an unbound label answers with no uuid.
#[test]
fn unknown_label_has_no_uuid() {
    let mut d = fresh_daemon("peerABC");
    let acts = d.client_request(1, RequestBody::AppInstanceUuid { label: "nope".to_string() }, 100);
    match &acts[0] {
        Action::Respond { request_id: 1, body: ResponseBody::AppInstanceUuid { uuid } } => {
            assert!(uuid.is_none());
        },
        other => panic!("wrong action: {:?}", other),
    }
}

/// An inbox subscriber receives a pushed `Message` event for a
/// delivered overlay message, and the inbox row exists.  The sending
/// peer and app are created by this first reference.
#[test]
fn inbound_message_reaches_subscriber_and_inbox() {
    let mut d = fresh_daemon("peerLocal");
    // Destination app U under the local peer, with a subscription under id 10.
    let _ = d.handle_request(10, RequestBody::SubscribeInboxEvents { app_uuid: "U".to_string() }, 50)
        .expect("subscribe");
    // Peer P and its app V are unknown; the message itself creates them.
    let acts = d.swarm_request(
        "peerP",
        swarm::Request::Message {
            from_app_uuid: "V".to_string(),
            to_app_uuid: "U".to_string(),
            message: vec![0x01, 0x02],
        },
        70,
    ).expect("message accepted");
    assert_eq!(acts.len(), 2);
    let event_id = match &acts[0] {
        Action::Publish { request_id, body } => {
            assert_eq!(*request_id, 10);
            match body {
                ResponseBody::Message(m) => {
                    assert_eq!(m.peer, "peerP");
                    assert_eq!(m.uuid, "V");
                    assert_eq!(m.message, vec![0x01, 0x02]);
                    m.id
                },
                other => panic!("wrong body: {:?}", other),
            }
        },
        other => panic!("wrong action: {:?}", other),
    };
    assert!(matches!(acts[1], Action::Acknowledge));
    // The snapshot shows the same row.
    let acts = d.client_request(11, RequestBody::InboxMessages { app_uuid: "U".to_string() }, 80);
    match &acts[0] {
        Action::Respond { request_id: 11, body: ResponseBody::InboxMessages { messages } } => {
            assert_eq!(messages.len(), 1);
            assert_eq!(messages[0].id, event_id);
            assert_eq!(messages[0].peer, "peerP");
            assert_eq!(messages[0].uuid, "V");
            assert_eq!(messages[0].message, vec![0x01, 0x02]);
        },
        other => panic!("wrong action: {:?}", other),
    }
}

/// A message from a never-seen peer creates the peer and both apps
/// on first reference and is stored.
#[test]
fn inbound_message_creates_apps_on_first_reference() {
    let mut d = fresh_daemon("peerLocal");
    let acts = d.swarm_request(
        "peerP",
        swarm::Request::Message {
            from_app_uuid: "V".to_string(),
            to_app_uuid: "U".to_string(),
            message: vec![1],
        },
        70,
    ).expect("accepted");
    // Nobody subscribed: the only action is the acknowledgement.
    assert_eq!(acts.len(), 1);
    assert!(matches!(acts[0], Action::Acknowledge));
    assert_eq!(d.store.inbox.len(), 1);
    assert!(d.store.peers.iter().any(|p| p.peer_id == "peerP"));
    assert!(d.store.peers.iter().any(|p| p.peer_id == "peerLocal"));
    assert!(d.store.apps.iter().any(|a| a.uuid == "V"));
    assert!(d.store.apps.iter().any(|a| a.uuid == "U"));
    // The stored row joins back to the sender.
    let acts = d.client_request(2, RequestBody::InboxMessages { app_uuid: "U".to_string() }, 80);
    match &acts[0] {
        Action::Respond { request_id: 2, body: ResponseBody::InboxMessages { messages } } => {
            assert_eq!(messages.len(), 1);
            assert_eq!(messages[0].peer, "peerP");
            assert_eq!(messages[0].uuid, "V");
            assert_eq!(messages[0].message, vec![1]);
        },
        other => panic!("wrong action: {:?}", other),
    }
}

/// A queued send leaves one outbox row bound to one delivery attempt;
/// the matching acknowledgement clears both.
#[test]
fn outbox_row_and_attempt_cleared_by_ack() {
    let mut d = fresh_daemon("peerLocal");
    let from_uuid = match d.handle_request(1, RequestBody::CreateAppInstance { label: "chat".to_string() }, 10) {
        Ok(acts) => match &acts[0] {
            Action::Respond { body: ResponseBody::CreateAppInstance { uuid }, .. } => uuid.clone(),
            other => panic!("wrong action: {:?}", other),
        },
        Err(e) => panic!("create failed: {:?}", e),
    };
    let remote = libp2p::PeerId::random().to_base58();
    // The remote app U becomes known through its announcement.
    d.swarm_request(
        remote.as_str(),
        swarm::Request::Announce { app_uuid: "U".to_string(), data: JsonValue::Null },
        20,
    ).expect("announce");
    let acts = d.handle_request(2, RequestBody::SendMessage {
        peer: remote.clone(),
        app_uuid: "U".to_string(),
        from_app_uuid: from_uuid,
        message: vec![0x03],
    }, 30).expect("send accepted");
    assert_eq!(acts.len(), 2);
    let outbox_id = match &acts[0] {
        Action::SwarmSendTracked { peer, request, outbox_id } => {
            assert_eq!(peer, &remote);
            match request {
                swarm::Request::Message { to_app_uuid, message, .. } => {
                    assert_eq!(to_app_uuid, "U");
                    assert_eq!(message, &vec![0x03]);
                },
                other => panic!("wrong overlay request: {:?}", other),
            }
            *outbox_id
        },
        other => panic!("wrong action: {:?}", other),
    };
    assert!(matches!(&acts[1], Action::Respond { request_id: 2, body: ResponseBody::Success }));
    d.register_delivery_attempt(42, outbox_id);
    assert_eq!(d.store.outbox.len(), 1);
    assert_eq!(d.delivery_attempts.len(), 1);
    d.swarm_response(42, swarm::Response::Acknowledge);
    assert_eq!(d.store.outbox.len(), 0);
    assert_eq!(d.delivery_attempts.len(), 0);
}

/// Sending the identical bytes twice interns one blob under two
/// outbox rows.
#[test]
fn identical_bytes_intern_one_blob() {
    let mut d = fresh_daemon("peerLocal");
    let from_uuid = match d.handle_request(1, RequestBody::CreateAppInstance { label: "chat".to_string() }, 10) {
        Ok(acts) => match &acts[0] {
            Action::Respond { body: ResponseBody::CreateAppInstance { uuid }, .. } => uuid.clone(),
            other => panic!("wrong action: {:?}", other),
        },
        Err(e) => panic!("create failed: {:?}", e),
    };
    let remote = libp2p::PeerId::random().to_base58();
    d.swarm_request(
        remote.as_str(),
        swarm::Request::Announce { app_uuid: "U".to_string(), data: JsonValue::Null },
        20,
    ).expect("announce");
    for id in [2u64, 3u64] {
        d.handle_request(id, RequestBody::SendMessage {
            peer: remote.clone(),
            app_uuid: "U".to_string(),
            from_app_uuid: from_uuid.clone(),
            message: vec![0xaa, 0xbb],
        }, 30).expect("send accepted");
    }
    assert_eq!(d.store.outbox.len(), 2);
    assert_eq!(d.store.blobs.len(), 1);
    assert_eq!(d.store.outbox[0].message_id, d.store.outbox[1].message_id);
}

/// A self-announce updates the store, reaches announcement
/// subscribers, and sends nothing on the overlay; repeating it keeps
/// one row with the later timestamp.
#[test]
fn self_announce_publishes_and_stays_single() {
    let mut d = fresh_daemon("peerLocal");
    d.handle_request(5, RequestBody::SubscribeAnnounceEvents, 10).expect("subscribe");
    for (id, now) in [(6u64, 100i64), (7u64, 200i64)] {
        let acts = d.handle_request(id, RequestBody::Announce {
            peer: "peerLocal".to_string(),
            app_uuid: "U".to_string(),
            data: hello_payload(),
        }, now).expect("announce accepted");
        assert_eq!(acts.len(), 2);
        match &acts[0] {
            Action::Publish { request_id: 5, body: ResponseBody::AppAnnouncement { peer, app_uuid, data } } => {
                assert_eq!(peer, "peerLocal");
                assert_eq!(app_uuid, "U");
                assert!(data.same_as(&hello_payload()));
            },
            other => panic!("wrong action: {:?}", other),
        }
        match &acts[1] {
            Action::Respond { request_id, body: ResponseBody::Success } => assert_eq!(*request_id, id),
            other => panic!("wrong action: {:?}", other),
        }
        for a in &acts {
            assert!(!matches!(a, Action::SwarmSend { .. } | Action::SwarmSendTracked { .. }));
        }
    }
    assert_eq!(d.store.announcements.len(), 1);
    assert_eq!(d.store.announcements[0].received, 200);
    // The snapshot shows the single announcement.
    let acts = d.client_request(8, RequestBody::AppAnnouncements, 300);
    match &acts[0] {
        Action::Respond { request_id: 8, body: ResponseBody::AppAnnouncements { announcements } } => {
            assert_eq!(announcements.len(), 1);
            assert_eq!(announcements[0].peer, "peerLocal");
            assert_eq!(announcements[0].app_uuid, "U");
            assert!(announcements[0].data.same_as(&hello_payload()));
        },
        other => panic!("wrong action: {:?}", other),
    }
}

/// An announce addressed to a remote peer goes out on the overlay.
#[test]
fn remote_announce_sends_on_overlay() {
    let mut d = fresh_daemon("peerLocal");
    let remote = libp2p::PeerId::random().to_base58();
    let acts = d.handle_request(1, RequestBody::Announce {
        peer: remote.clone(),
        app_uuid: "U".to_string(),
        data: JsonValue::Null,
    }, 10).expect("accepted");
    assert_eq!(acts.len(), 2);
    match &acts[0] {
        Action::SwarmSend { peer, request } => {
            assert_eq!(peer, &remote);
            assert!(matches!(request, swarm::Request::Announce { .. }));
        },
        other => panic!("wrong action: {:?}", other),
    }
    assert_eq!(d.store.announcements.len(), 0);
}

/// A peer id that does not parse is refused with a diagnostic.
#[test]
fn bogus_peer_id_is_refused() {
    let mut d = fresh_daemon("peerLocal");
    let acts = d.client_request(1, RequestBody::Announce {
        peer: "!!not-base58!!".to_string(),
        app_uuid: "U".to_string(),
        data: JsonValue::Null,
    }, 10);
    match &acts[0] {
        Action::Respond { request_id: 1, body: ResponseBody::Error { message } } => {
            assert_eq!(message, "cannot parse peer id");
        },
        other => panic!("expected an error: {:?}", other),
    }
}

/// A dial request is validated: a well-formed address is dialled, a
/// malformed one refused.
#[test]
fn dial_address_validation() {
    let mut d = fresh_daemon("peerLocal");
    let acts = d.handle_request(1, RequestBody::DialAddress {
        address: "/ip4/127.0.0.1/tcp/1".to_string(),
    }, 10).expect("valid address");
    assert_eq!(acts.len(), 2);
    assert!(matches!(&acts[0], Action::Dial { .. }));
    assert!(matches!(&acts[1], Action::Respond { request_id: 1, body: ResponseBody::Success }));
    let acts = d.client_request(2, RequestBody::DialAddress {
        address: "not an address".to_string(),
    }, 10);
    match &acts[0] {
        Action::Respond { request_id: 2, body: ResponseBody::Error { message } } => {
            assert_eq!(message, "cannot parse address");
        },
        other => panic!("expected an error: {:?}", other),
    }
}

/// Peer discovery publishes to peer subscribers, fills the presence
/// table, and expiry of the last address empties it again.
#[test]
fn presence_events_and_peers_snapshot() {
    let mut d = fresh_daemon("peerLocal");
    d.handle_request(9, RequestBody::SubscribePeerEvents, 10).expect("subscribe");
    let acts = d.swarm_event(SwarmEvent::PeerDiscovered {
        peer_id: "peerP".to_string(),
        address: "/ip4/10.0.0.1/tcp/4".to_string(),
    }, 20).expect("handled");
    assert_eq!(acts.len(), 1);
    match &acts[0] {
        Action::Publish { request_id: 9, body: ResponseBody::PeerDiscovered { peer_id } } => {
            assert_eq!(peer_id, "peerP");
        },
        other => panic!("wrong action: {:?}", other),
    }
    let acts = d.client_request(1, RequestBody::Peers, 30);
    match &acts[0] {
        Action::Respond { request_id: 1, body: ResponseBody::Peers { peers } } => {
            assert_eq!(peers, &vec!["peerP".to_string()]);
        },
        other => panic!("wrong action: {:?}", other),
    }
    let acts = d.swarm_event(SwarmEvent::PeerExpired {
        peer_id: "peerP".to_string(),
        address: "/ip4/10.0.0.1/tcp/4".to_string(),
    }, 40).expect("handled");
    assert_eq!(acts.len(), 1);
    match &acts[0] {
        Action::Publish { request_id: 9, body: ResponseBody::PeerExpired { peer_id } } => {
            assert_eq!(peer_id, "peerP");
        },
        other => panic!("wrong action: {:?}", other),
    }
    let acts = d.client_request(2, RequestBody::Peers, 50);
    match &acts[0] {
        Action::Respond { request_id: 2, body: ResponseBody::Peers { peers } } => {
            assert!(peers.is_empty());
        },
        other => panic!("wrong action: {:?}", other),
    }
}

/// A removed subscriber gets no further pushes.
#[test]
fn dead_subscriber_is_dropped() {
    let mut d = fresh_daemon("peerLocal");
    d.handle_request(9, RequestBody::SubscribePeerEvents, 10).expect("subscribe");
    d.remove_peer_subscribers(&vec![9]);
    let acts = d.swarm_event(SwarmEvent::PeerDiscovered {
        peer_id: "peerP".to_string(),
        address: "/ip4/10.0.0.1/tcp/4".to_string(),
    }, 20).expect("handled");
    assert!(acts.is_empty());
}

/// Inbox snapshots come back ascending by id, and deleting one row
/// leaves the others.
#[test]
fn inbox_ordering_and_delete() {
    let mut d = fresh_daemon("peerLocal");
    d.handle_request(1, RequestBody::SubscribeInboxEvents { app_uuid: "U".to_string() }, 10)
        .expect("subscribe");
    let mut pushed = Vec::new();
    for b in [vec![1u8], vec![2u8], vec![3u8]] {
        let acts = d.swarm_request(
            "peerP",
            swarm::Request::Message {
                from_app_uuid: "V".to_string(),
                to_app_uuid: "U".to_string(),
                message: b,
            },
            30,
        ).expect("message accepted");
        match &acts[0] {
            Action::Publish { body: ResponseBody::Message(m), .. } => pushed.push(m.id),
            other => panic!("wrong action: {:?}", other),
        }
    }
    assert!(pushed[0] < pushed[1] && pushed[1] < pushed[2]);
    let list_ids = |d: &mut Daemon, rid: u64| -> Vec<u64> {
        let acts = d.client_request(rid, RequestBody::InboxMessages { app_uuid: "U".to_string() }, 40);
        match &acts[0] {
            Action::Respond { body: ResponseBody::InboxMessages { messages }, .. } => {
                messages.iter().map(|m| m.id).collect()
            },
            other => panic!("wrong action: {:?}", other),
        }
    };
    let ids = list_ids(&mut d, 2);
    assert_eq!(ids, pushed);
    let acts = d.client_request(3, RequestBody::DeleteInboxMessage {
        app_uuid: "U".to_string(),
        message_id: pushed[0],
    }, 50);
    assert!(matches!(&acts[0], Action::Respond { request_id: 3, body: ResponseBody::Success }));
    let ids = list_ids(&mut d, 4);
    assert_eq!(ids, vec![pushed[1], pushed[2]]);
}

/// The last-port scalar starts absent, then reads back what was set.
#[test]
fn last_port_round_trip() {
    let mut d = fresh_daemon("peerLocal");
    let acts = d.client_request(1, RequestBody::GetLastPort { app_uuid: "U".to_string() }, 10);
    match &acts[0] {
        Action::Respond { request_id: 1, body: ResponseBody::GetLastPort { port } } => {
            assert!(port.is_none());
        },
        other => panic!("wrong action: {:?}", other),
    }
    let acts = d.client_request(2, RequestBody::SetLastPort { app_uuid: "U".to_string(), port: 8080 }, 20);
    assert!(matches!(&acts[0], Action::Respond { request_id: 2, body: ResponseBody::Success }));
    let acts = d.client_request(3, RequestBody::GetLastPort { app_uuid: "U".to_string() }, 30);
    match &acts[0] {
        Action::Respond { request_id: 3, body: ResponseBody::GetLastPort { port } } => {
            assert_eq!(*port, Some(8080));
        },
        other => panic!("wrong action: {:?}", other),
    }
}

/// The daemon's private directories live under a `mutiny` folder of
/// the per-user base directories.
#[test]
fn app_directories_join_base_paths() {
    assert_eq!(mutinyd::dirs::open_app_data_dir("/home/u/.local/share"), "/home/u/.local/share/mutiny");
    assert_eq!(mutinyd::dirs::open_app_runtime_dir("/run/user/1000"), "/run/user/1000/mutiny");
}

/// The invariant check accepts every state the coordinator produces
/// and rejects rows that break the invariant.
#[test]
fn invariant_check_accepts_live_state_and_rejects_bad_rows() {
    let mut d = fresh_daemon("peerLocal");
    assert!(d.store.check_wf());
    d.handle_request(1, RequestBody::CreateAppInstance { label: "chat".to_string() }, 10)
        .expect("create");
    d.swarm_request(
        "peerP",
        swarm::Request::Announce { app_uuid: "V".to_string(), data: hello_payload() },
        20,
    ).expect("announce");
    assert!(d.store.check_wf());
    let mut broken = mutinyd::store::Store::new();
    broken.peers.push(mutinyd::store::PeerRow { id: 7, peer_id: "p".to_string() });
    assert!(!broken.check_wf());
}
