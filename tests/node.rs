use std::time::{SystemTime, UNIX_EPOCH};
use waku_oxidized::filter::{self, FilterSubscribeResponse};
use waku_oxidized::framing::CodecError;
use waku_oxidized::light_push;
use waku_oxidized::node::{
    dial_failures, filter_subscribe_request, filter_unsubscribe_request, light_push_request,
    peer_exchange_request, response_outcome, Error, Event, OutboundFailure, WakuLightNodeEvent,
    DEFAULT_PUBSUB_TOPIC,
};
use waku_oxidized::protocol::{read_response, write_request, write_response, Protocol, Request, Response};

#[test]
fn push_request_fills_defaults() {
    let now = SystemTime::now().duration_since(UNIX_EPOCH).unwrap().as_secs();
    let rpc = light_push_request("/app/1/t/proto".to_string(), vec![1, 2], now).unwrap();
    let after = SystemTime::now().duration_since(UNIX_EPOCH).unwrap().as_secs();
    assert_eq!(rpc.request_id, "0");
    assert!(rpc.response.is_none());
    let req = rpc.request.unwrap();
    assert_eq!(req.pubsub_topic, DEFAULT_PUBSUB_TOPIC);
    let msg = req.message.unwrap();
    assert_eq!(msg.ephemeral, Some(false));
    let ts = msg.timestamp.unwrap();
    assert!(ts as u64 + 5 >= after && ts as u64 <= now + 5);
    assert_eq!(msg.payload, vec![1, 2]);
    assert_eq!(msg.content_topic, "/app/1/t/proto");
}

#[test]
fn push_request_timestamp_overflow() {
    assert_eq!(
        light_push_request("t".to_string(), vec![], u64::MAX),
        Err(Error::IntConversion)
    );
    let ok = light_push_request("t".to_string(), vec![], i64::MAX as u64).unwrap();
    assert_eq!(ok.request.unwrap().message.unwrap().timestamp, Some(i64::MAX));
}

#[test]
fn peer_exchange_asks_for_five() {
    let q = peer_exchange_request();
    assert_eq!(q.query.unwrap().num_peers, 5);
    assert!(q.response.is_none());
}

#[test]
fn filter_requests_name_kind_and_topics() {
    let s = filter_subscribe_request(vec!["topicA".to_string()]);
    assert_eq!(s.filter_subscribe_type, 1);
    assert_eq!(s.request_id, "0");
    assert_eq!(s.pubsub_topic.as_deref(), Some(DEFAULT_PUBSUB_TOPIC));
    assert_eq!(s.content_topics, vec!["topicA".to_string()]);
    let u = filter_unsubscribe_request(vec!["topicA".to_string()]);
    assert_eq!(u.filter_subscribe_type, 2);
}

#[test]
fn protocol_names() {
    assert_eq!(Protocol::LightPush.name(), "/vac/waku/lightpush/2.0.0-beta1");
    assert_eq!(Protocol::Metadata.name(), "/vac/waku/metadata/1.0.0");
    assert_eq!(Protocol::PeerExchange.name(), "/vac/waku/peer-exchange/2.0.0-alpha1");
    assert_eq!(Protocol::Filter.name(), "/vac/waku/filter-subscribe/2.0.0-beta1");
}

#[test]
fn filter_subscribe_round_trip_scenario() {
    let req = Request::Filter(filter_subscribe_request(vec!["topicA".to_string()]));
    assert_eq!(req.protocol(), Protocol::Filter);
    let sent = write_request(&req).unwrap();
    assert!(!sent.is_empty());
    let answer = Response::Filter(FilterSubscribeResponse {
        request_id: "0".to_string(),
        status_code: 200,
        status_desc: None,
    });
    let bytes = write_response(&answer).unwrap();
    let ev = response_outcome(Protocol::Filter, "peer", 7u32, &bytes);
    assert_eq!(ev.protocol(), Protocol::Filter);
    match ev {
        WakuLightNodeEvent::Filter(Event::Response { peer, request_id, response }) => {
            assert_eq!(peer, "peer");
            assert_eq!(request_id, 7);
            assert_eq!(response.request_id, "0");
            assert_eq!(response.status_code, 200);
        }
        other => panic!("unexpected event {:?}", other),
    }
}

#[test]
fn response_is_read_under_its_own_protocol() {
    // bytes that a push codec wrote, arriving on a filter stream
    let push = light_push_request("t".to_string(), vec![1], 10).unwrap();
    let bytes = light_push::Codec {}.write_response(&push).unwrap();
    match read_response(Protocol::Filter, &bytes) {
        Ok(r) => assert_eq!(r.protocol(), Protocol::Filter),
        Err(e) => assert_eq!(e, CodecError::Decode),
    }
    let r = read_response(Protocol::LightPush, &bytes).unwrap();
    assert_eq!(r, Response::LightPush(push));
}

#[test]
fn events_keep_their_protocol() {
    let protocols = [Protocol::PeerExchange, Protocol::Metadata, Protocol::LightPush, Protocol::Filter];
    let garbage = [0xFFu8, 0xFF];
    for (i, p) in protocols.iter().enumerate() {
        let ev = response_outcome(*p, 1u8, i, &garbage);
        assert_eq!(ev.protocol(), *p);
    }
    let ev = response_outcome(Protocol::Metadata, (), 0u8, &[0xFF]);
    assert_eq!(
        ev,
        WakuLightNodeEvent::Metadata(Event::OutboundFailure {
            peer: (),
            request_id: 0,
            error: OutboundFailure::Io
        })
    );
}

#[test]
fn oversized_filter_request_is_refused_before_sending() {
    let big = "y".repeat(filter::REQUEST_SIZE_MAXIMUM);
    let req = Request::Filter(filter_subscribe_request(vec![big]));
    assert_eq!(write_request(&req), Err(CodecError::SizeLimit));
}

#[test]
fn one_failed_dial_is_reported_not_fatal() {
    assert_eq!(dial_failures(&vec![true, false]), vec![1]);
    assert_eq!(dial_failures(&vec![false, true, false]), vec![0, 2]);
    assert!(dial_failures(&vec![true, true]).is_empty());
    assert!(dial_failures(&vec![]).is_empty());
}
