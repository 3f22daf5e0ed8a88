use waku_oxidized::filter::{self, FilterSubscribeRequest, FilterSubscribeResponse};
use waku_oxidized::framing::{frame_body, unframe_body, CodecError};
use waku_oxidized::light_push::{self, PushRequest, PushResponse, PushRpc};
use waku_oxidized::message::WakuMessage;
use waku_oxidized::metadata::{self, WakuMetadataRequest, WakuMetadataResponse};
use waku_oxidized::peer_exchange::{self, PeerExchangeQuery, PeerExchangeResponse, PeerExchangeRpc, PeerInfo};
use waku_oxidized::varint::{put_varint, read_varint};
use waku_oxidized::wire::utf8_string;

fn sample_push() -> PushRpc {
    PushRpc {
        request_id: "req-1".to_string(),
        request: Some(PushRequest {
            pubsub_topic: "/waku/2/default-waku/proto".to_string(),
            message: Some(WakuMessage {
                payload: vec![1, 2, 3, 0, 255],
                content_topic: "/app/1/chat/proto".to_string(),
                timestamp: Some(-42),
                ephemeral: Some(true),
            }),
        }),
        response: Some(PushResponse { is_success: true, info: Some("ok ✓".to_string()) }),
    }
}

#[test]
fn varint_encodes_canonically() {
    let mut buf = Vec::new();
    put_varint(300, &mut buf);
    assert_eq!(buf, vec![0xAC, 0x02]);
    let mut one = Vec::new();
    put_varint(1, &mut one);
    assert_eq!(one, vec![0x01]);
    let mut max = Vec::new();
    put_varint(u64::MAX, &mut max);
    assert_eq!(max.len(), 10);
    assert_eq!(read_varint(&max), Some((u64::MAX, 0)));
}

#[test]
fn varint_reads_and_reports_rest() {
    assert_eq!(read_varint(&[0xAC, 0x02, 0x07]), Some((300, 1)));
    assert_eq!(read_varint(&[0x80]), None);
    assert_eq!(read_varint(&[]), None);
    let eleven = [0xFFu8; 11];
    assert_eq!(read_varint(&eleven), None);
    // a tenth byte past the 64th bit
    let mut over = vec![0xFFu8; 9];
    over.push(0x02);
    assert_eq!(read_varint(&over), None);
}

#[test]
fn utf8_is_checked() {
    assert_eq!(utf8_string(vec![0x68, 0x69]), Some("hi".to_string()));
    assert_eq!(utf8_string(vec![0xFF, 0xFE]), None);
}

#[test]
fn waku_message_encoding_is_exact() {
    let m = WakuMessage {
        payload: vec![7],
        content_topic: "t".to_string(),
        timestamp: Some(1),
        ephemeral: Some(false),
    };
    // payload (1), content topic (2), timestamp (10, zigzag 1 -> 2), ephemeral (31)
    assert_eq!(m.encode(), vec![0x0A, 1, 7, 0x12, 1, b't', 0x50, 2, 0xF8, 0x01, 0]);
    assert_eq!(WakuMessage::decode(&m.encode()), Some(m));
}

#[test]
fn empty_message_encodes_to_nothing() {
    let m = WakuMessage::empty();
    assert!(m.encode().is_empty());
    assert_eq!(WakuMessage::decode(&[]), Some(m));
}

#[test]
fn unknown_fields_are_skipped() {
    // field 5 as varint, field 6 as 64-bit, field 7 as 32-bit, then payload
    let bytes = vec![0x28, 0x01, 0x31, 0, 0, 0, 0, 0, 0, 0, 0, 0x3D, 0, 0, 0, 0, 0x0A, 1, 9];
    let m = WakuMessage::decode(&bytes).unwrap();
    assert_eq!(m.payload, vec![9]);
}

#[test]
fn wrong_wire_type_is_refused() {
    // payload (1) sent as a varint
    assert_eq!(WakuMessage::decode(&[0x08, 0x01]), None);
    // field number zero
    assert_eq!(WakuMessage::decode(&[0x00, 0x01]), None);
    // invalid UTF-8 in the content topic
    assert_eq!(WakuMessage::decode(&[0x12, 1, 0xFF]), None);
}

#[test]
fn light_push_round_trip() {
    let codec = light_push::Codec {};
    let m = sample_push();
    let bytes = codec.write_request(&m).unwrap();
    assert_eq!(codec.read_request(&bytes), Ok(m.clone()));
    let bytes = codec.write_response(&m).unwrap();
    assert_eq!(codec.read_response(&bytes), Ok(m));
}

#[test]
fn light_push_ignores_bytes_after_frame() {
    let codec = light_push::Codec {};
    let m = sample_push();
    let mut bytes = codec.write_request(&m).unwrap();
    bytes.extend_from_slice(&[1, 2, 3]);
    assert_eq!(codec.read_request(&bytes), Ok(m));
}

#[test]
fn truncated_push_is_an_error() {
    let codec = light_push::Codec {};
    let bytes = codec.write_request(&sample_push()).unwrap();
    for k in 0..bytes.len() {
        assert!(codec.read_request(&bytes[..k]).is_err(), "prefix of {} bytes", k);
    }
}

#[test]
fn garbage_is_a_decode_error() {
    let codec = light_push::Codec {};
    assert_eq!(codec.read_request(&[0x02, 0xFF, 0xFF]), Err(CodecError::Decode));
    assert_eq!(codec.read_request(&[]), Err(CodecError::Decode));
}

#[test]
fn filter_round_trip() {
    let codec = filter::Codec {};
    let q = FilterSubscribeRequest {
        request_id: "abc".to_string(),
        filter_subscribe_type: 2,
        pubsub_topic: Some("/waku/2/default-waku/proto".to_string()),
        content_topics: vec!["a".to_string(), "".to_string(), "ç".to_string()],
    };
    let bytes = codec.write_request(&q).unwrap();
    assert_eq!(codec.read_request(&bytes), Ok(q));
    let p = FilterSubscribeResponse {
        request_id: "abc".to_string(),
        status_code: 200,
        status_desc: Some("OK".to_string()),
    };
    let bytes = codec.write_response(&p).unwrap();
    assert_eq!(codec.read_response(&bytes), Ok(p));
}

#[test]
fn filter_negative_kind_round_trip() {
    let codec = filter::Codec {};
    let q = FilterSubscribeRequest {
        request_id: String::new(),
        filter_subscribe_type: -1,
        pubsub_topic: None,
        content_topics: vec![],
    };
    let bytes = codec.write_request(&q).unwrap();
    // key, ten bytes of two's complement, behind a one-byte length
    assert_eq!(bytes.len(), 1 + 1 + 10);
    assert_eq!(codec.read_request(&bytes), Ok(q));
}

#[test]
fn peer_exchange_round_trip() {
    let codec = peer_exchange::Codec {};
    let m = PeerExchangeRpc {
        query: Some(PeerExchangeQuery { num_peers: 5 }),
        response: Some(PeerExchangeResponse {
            peer_infos: vec![PeerInfo { enr: vec![1, 2, 3] }, PeerInfo { enr: vec![] }],
        }),
    };
    let bytes = codec.write_request(&m).unwrap();
    assert_eq!(codec.read_request(&bytes), Ok(m.clone()));
    let bytes = codec.write_response(&m).unwrap();
    assert_eq!(codec.read_response(&bytes), Ok(m));
}

#[test]
fn peer_exchange_query_bytes() {
    let m = PeerExchangeRpc { query: Some(PeerExchangeQuery { num_peers: 5 }), response: None };
    assert_eq!(m.encode(), vec![0x0A, 2, 0x08, 5]);
    let codec = peer_exchange::Codec {};
    assert_eq!(codec.write_request(&m).unwrap(), vec![4, 0x0A, 2, 0x08, 5]);
}

#[test]
fn metadata_round_trip() {
    let codec = metadata::Codec {};
    let q = WakuMetadataRequest { cluster_id: Some(1), shards: vec![0, 300, 7] };
    let bytes = codec.write_request(&q).unwrap();
    // no length prefix: cluster (1) then the packed shards (2)
    assert_eq!(bytes, vec![0x08, 1, 0x12, 4, 0, 0xAC, 0x02, 7]);
    assert_eq!(codec.read_request(&bytes), Ok(q));
    let p = WakuMetadataResponse { cluster_id: None, shards: vec![] };
    let bytes = codec.write_response(&p).unwrap();
    assert!(bytes.is_empty());
    assert_eq!(codec.read_response(&bytes), Ok(p));
}

#[test]
fn metadata_accepts_unpacked_shards() {
    let codec = metadata::Codec {};
    let r = codec.read_response(&[0x10, 3, 0x10, 4, 0x12, 1, 5]).unwrap();
    assert_eq!(r.shards, vec![3, 4, 5]);
}

#[test]
fn metadata_oversized_is_size_limit() {
    let codec = metadata::Codec {};
    let big = vec![0u8; metadata::REQUEST_SIZE_MAXIMUM + 1];
    assert_eq!(codec.read_request(&big), Err(CodecError::SizeLimit));
}

#[test]
fn filter_oversized_read_is_size_limit() {
    let codec = filter::Codec {};
    let big = vec![0u8; filter::REQUEST_SIZE_MAXIMUM + 1];
    assert_eq!(codec.read_request(&big), Err(CodecError::SizeLimit));
}

#[test]
fn filter_oversized_write_is_refused() {
    let codec = filter::Codec {};
    let q = FilterSubscribeRequest {
        request_id: "0".to_string(),
        filter_subscribe_type: 1,
        pubsub_topic: None,
        content_topics: vec!["x".repeat(filter::REQUEST_SIZE_MAXIMUM)],
    };
    assert_eq!(codec.write_request(&q), Err(CodecError::SizeLimit));
}

#[test]
fn frame_prefixes_length() {
    let f = frame_body(vec![9; 200]);
    assert_eq!(&f[..2], &[0xC8, 0x01]);
    assert_eq!(f.len(), 202);
    assert_eq!(unframe_body(&f, 202), Ok(&f[2..]));
    assert_eq!(unframe_body(&f, 201), Err(CodecError::SizeLimit));
    assert_eq!(unframe_body(&f[..100], 1000), Err(CodecError::Decode));
}
