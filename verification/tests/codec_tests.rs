use mutinyd::codec::{encode_request, decode_request, encode_response, decode_response,
    encode_frame, decode_frame_len};
use mutinyd::json::JsonValue;
use mutinyd::protocol::{Request, RequestBody, Response, ResponseBody, Message, AppAnnouncement};

fn sample_json() -> JsonValue {
    JsonValue::Object(vec![
        ("hello".to_string(), JsonValue::Num("1".to_string())),
        ("flag".to_string(), JsonValue::Bool(true)),
        ("name".to_string(), JsonValue::Text("chat".to_string())),
        ("items".to_string(), JsonValue::Array(vec![
            JsonValue::Null,
            JsonValue::Num("-42.5".to_string()),
            JsonValue::Text("x".to_string()),
        ])),
    ])
}

#[test]
fn request_round_trip_simple() {
    let r = Request { id: 7, body: RequestBody::LocalPeerId };
    let encoded = encode_request(&r);
    let decoded = decode_request(&encoded).expect("decodes");
    assert_eq!(decoded.id, 7);
    assert!(matches!(decoded.body, RequestBody::LocalPeerId));
}

#[test]
fn request_round_trip_send_message() {
    let r = Request {
        id: 99,
        body: RequestBody::SendMessage {
            peer: "peerXYZ".to_string(),
            app_uuid: "to-app".to_string(),
            from_app_uuid: "from-app".to_string(),
            message: vec![0x01, 0x02, 0xff, 0x00],
        },
    };
    let encoded = encode_request(&r);
    let decoded = decode_request(&encoded).expect("decodes");
    assert_eq!(decoded.id, 99);
    match decoded.body {
        RequestBody::SendMessage { peer, app_uuid, from_app_uuid, message } => {
            assert_eq!(peer, "peerXYZ");
            assert_eq!(app_uuid, "to-app");
            assert_eq!(from_app_uuid, "from-app");
            assert_eq!(message, vec![0x01, 0x02, 0xff, 0x00]);
        },
        other => panic!("wrong variant: {:?}", other),
    }
}

#[test]
fn request_round_trip_announce_payload() {
    let r = Request {
        id: 3,
        body: RequestBody::Announce {
            peer: "peerABC".to_string(),
            app_uuid: "uuid-1".to_string(),
            data: sample_json(),
        },
    };
    let encoded = encode_request(&r);
    let decoded = decode_request(&encoded).expect("decodes");
    match decoded.body {
        RequestBody::Announce { peer, app_uuid, data } => {
            assert_eq!(peer, "peerABC");
            assert_eq!(app_uuid, "uuid-1");
            assert!(data.same_as(&sample_json()));
        },
        other => panic!("wrong variant: {:?}", other),
    }
}

#[test]
fn request_round_trip_every_variant() {
    let bodies = vec![
        RequestBody::CreateAppInstance { label: "chat".to_string() },
        RequestBody::AppInstanceUuid { label: "chat".to_string() },
        RequestBody::LocalPeerId,
        RequestBody::Peers,
        RequestBody::Announce {
            peer: "p".to_string(),
            app_uuid: "u".to_string(),
            data: JsonValue::Null,
        },
        RequestBody::SendMessage {
            peer: "p".to_string(),
            app_uuid: "u".to_string(),
            from_app_uuid: "v".to_string(),
            message: vec![3],
        },
        RequestBody::InboxMessages { app_uuid: "u".to_string() },
        RequestBody::DeleteInboxMessage { app_uuid: "u".to_string(), message_id: 12 },
        RequestBody::AppAnnouncements,
        RequestBody::SubscribePeerEvents,
        RequestBody::SubscribeAnnounceEvents,
        RequestBody::SubscribeInboxEvents { app_uuid: "u".to_string() },
        RequestBody::DialAddress { address: "/ip4/127.0.0.1/tcp/1".to_string() },
        RequestBody::GetLastPort { app_uuid: "u".to_string() },
        RequestBody::SetLastPort { app_uuid: "u".to_string(), port: 8080 },
    ];
    for (i, body) in bodies.into_iter().enumerate() {
        let r = Request { id: i as u64, body };
        let encoded = encode_request(&r);
        let decoded = decode_request(&encoded).expect("decodes");
        assert_eq!(decoded.id, i as u64);
        let again = encode_request(&decoded);
        assert_eq!(again, encoded);
    }
}

#[test]
fn response_round_trip_every_variant() {
    let msg = Message {
        id: 4,
        peer: "peerP".to_string(),
        uuid: "uuid-v".to_string(),
        message: vec![1, 2],
    };
    let ann = AppAnnouncement {
        peer: "peerP".to_string(),
        app_uuid: "uuid-u".to_string(),
        data: sample_json(),
    };
    let bodies = vec![
        ResponseBody::Success,
        ResponseBody::Error { message: "boom".to_string() },
        ResponseBody::PeerDiscovered { peer_id: "p1".to_string() },
        ResponseBody::PeerExpired { peer_id: "p1".to_string() },
        ResponseBody::CreateAppInstance { uuid: "u".to_string() },
        ResponseBody::AppInstanceUuid { uuid: Some("u".to_string()) },
        ResponseBody::AppInstanceUuid { uuid: None },
        ResponseBody::LocalPeerId { peer_id: "peerABC".to_string() },
        ResponseBody::Peers { peers: vec!["a".to_string(), "b".to_string()] },
        ResponseBody::Message(msg),
        ResponseBody::InboxMessages {
            messages: vec![
                Message {
                    id: 1,
                    peer: "x".to_string(),
                    uuid: "y".to_string(),
                    message: vec![9],
                },
            ],
        },
        ResponseBody::AppAnnouncements { announcements: vec![ann] },
        ResponseBody::AppAnnouncement {
            peer: "p".to_string(),
            app_uuid: "u".to_string(),
            data: JsonValue::Num("-1".to_string()),
        },
        ResponseBody::GetLastPort { port: Some(8080) },
        ResponseBody::GetLastPort { port: None },
    ];
    for (i, body) in bodies.into_iter().enumerate() {
        let r = Response { request_id: 1000 + i as u64, body };
        let encoded = encode_response(&r);
        let decoded = decode_response(&encoded).expect("decodes");
        assert_eq!(decoded.request_id, 1000 + i as u64);
        let again = encode_response(&decoded);
        assert_eq!(again, encoded);
    }
}

#[test]
fn response_round_trip_s1_shape() {
    let r = Response {
        request_id: 7,
        body: ResponseBody::LocalPeerId { peer_id: "peerABC".to_string() },
    };
    let encoded = encode_response(&r);
    let decoded = decode_response(&encoded).expect("decodes");
    assert_eq!(decoded.request_id, 7);
    match decoded.body {
        ResponseBody::LocalPeerId { peer_id } => assert_eq!(peer_id, "peerABC"),
        other => panic!("wrong variant: {:?}", other),
    }
}

#[test]
fn frame_round_trip() {
    let r = Request { id: 1, body: RequestBody::Peers };
    let payload = encode_request(&r);
    let framed = encode_frame(payload.clone()).expect("fits in a frame");
    assert_eq!(framed.len(), payload.len() + 4);
    let header: Vec<u8> = framed[..4].to_vec();
    let n = decode_frame_len(&header) as usize;
    assert_eq!(n, payload.len());
    let body: Vec<u8> = framed[4..].to_vec();
    assert_eq!(body, payload);
    let decoded = decode_request(&body).expect("decodes");
    assert_eq!(decoded.id, 1);
}

#[test]
fn decode_rejects_trailing_bytes() {
    let r = Request { id: 1, body: RequestBody::LocalPeerId };
    let mut encoded = encode_request(&r);
    encoded.push(0);
    assert!(decode_request(&encoded).is_none());
}

#[test]
fn decode_rejects_bad_tag() {
    let mut bytes = vec![0u8; 8];
    bytes.push(200);
    assert!(decode_request(&bytes).is_none());
}

#[test]
fn decode_rejects_short_input() {
    assert!(decode_request(&vec![1, 2, 3]).is_none());
    assert!(decode_response(&vec![]).is_none());
}

#[test]
fn decode_rejects_overdeep_payload() {
    let mut v = JsonValue::Null;
    for _ in 0..70 {
        v = JsonValue::Array(vec![v]);
    }
    let r = Request {
        id: 1,
        body: RequestBody::Announce {
            peer: "p".to_string(),
            app_uuid: "u".to_string(),
            data: v,
        },
    };
    let encoded = encode_request(&r);
    assert!(decode_request(&encoded).is_none());
}

#[test]
fn json_same_as_and_duplicate() {
    let a = sample_json();
    let b = a.duplicate();
    assert!(a.same_as(&b));
    assert!(b.same_as(&a));
    let c = JsonValue::Object(vec![("hello".to_string(), JsonValue::Num("2".to_string()))]);
    assert!(!a.same_as(&c));
    assert!(!JsonValue::Null.same_as(&JsonValue::Bool(false)));
}
