//! What a light node decides on its own: the requests it sends, the events
//! it reports, and how it takes failed dials.
use crate::filter::{FilterSubscribeRequest, FilterSubscribeRequestModel, FilterSubscribeType};
use crate::framing::CodecError;
use crate::light_push::{PushRequest, PushRequestModel, PushRpc, PushRpcModel};
use crate::message::{WakuMessage, WakuMessageModel};
use crate::peer_exchange::{PeerExchangeQuery, PeerExchangeRpc, PeerExchangeRpcModel};
use crate::filter::FilterSubscribeResponse;
use crate::metadata::{WakuMetadataRequest, WakuMetadataResponse};
use crate::protocol::{read_response, response_read_as, Protocol, Response};
use vstd::prelude::*;

verus! {

/// The pubsub topic that requests name.
pub const DEFAULT_PUBSUB_TOPIC: &'static str = "/waku/2/default-waku/proto";

/// How many peer records a peer exchange query asks for.
pub const PEER_EXCHANGE_QUERY_SIZE: u64 = 5;

/// The request id that pushes and filter requests carry. The dispatch layer
/// matches responses to requests by its own handles, so this id is advisory.
pub const PLACEHOLDER_REQUEST_ID: &'static str = "0";

/// Why a request could not be built.
#[derive(Clone, Copy, Debug, PartialEq, Eq, Structural)]
pub enum Error {
    /// The time is past what a message timestamp can hold.
    IntConversion,
}

/// The query that asks a peer for peer records.
pub fn peer_exchange_request() -> (r: PeerExchangeRpc)
    ensures
        r@ == (PeerExchangeRpcModel { query: Some(PEER_EXCHANGE_QUERY_SIZE), response: None }),
{
    PeerExchangeRpc {
        query: Some(PeerExchangeQuery { num_peers: PEER_EXCHANGE_QUERY_SIZE }),
        response: None,
    }
}

/// The push of `payload` under `content_topic`, stamped `now_secs` seconds
/// after the epoch and not ephemeral.
pub open spec fn push_for(content_topic: Seq<char>, payload: Seq<u8>, now_secs: u64) -> PushRpcModel {
    PushRpcModel {
        request_id: PLACEHOLDER_REQUEST_ID@,
        request: Some(
            PushRequestModel {
                pubsub_topic: DEFAULT_PUBSUB_TOPIC@,
                message: Some(
                    WakuMessageModel {
                        payload,
                        content_topic,
                        timestamp: Some(now_secs as i64),
                        ephemeral: Some(false),
                    },
                ),
            },
        ),
        response: None,
    }
}

/// The push request for a message; fails where the time does not fit a
/// signed 64-bit timestamp.
pub fn light_push_request(content_topic: String, payload: Vec<u8>, now_secs: u64) -> (r: Result<
    PushRpc,
    Error,
>)
    ensures
        now_secs > i64::MAX as u64 ==> r == Err::<PushRpc, Error>(Error::IntConversion),
        now_secs <= i64::MAX as u64 ==> (r matches Ok(x) && x@ == push_for(
            content_topic@,
            payload@,
            now_secs,
        )),
{
    if now_secs > i64::MAX as u64 {
        return Err(Error::IntConversion);
    }
    let message = WakuMessage {
        payload,
        content_topic,
        timestamp: Some(now_secs as i64),
        ephemeral: Some(false),
    };
    Ok(
        PushRpc {
            request_id: PLACEHOLDER_REQUEST_ID.to_owned(),
            response: None,
            request: Some(
                PushRequest { pubsub_topic: DEFAULT_PUBSUB_TOPIC.to_owned(), message: Some(message) },
            ),
        },
    )
}

/// The filter request of kind `kind` for `content_topics`.
pub open spec fn filter_request_for(kind: FilterSubscribeType, content_topics: Seq<Seq<char>>) -> FilterSubscribeRequestModel {
    FilterSubscribeRequestModel {
        request_id: PLACEHOLDER_REQUEST_ID@,
        filter_subscribe_type: kind.spec_code(),
        pubsub_topic: Some(DEFAULT_PUBSUB_TOPIC@),
        content_topics,
    }
}

fn filter_request(kind: FilterSubscribeType, content_topics: Vec<String>) -> (r: FilterSubscribeRequest)
    ensures
        r@ == filter_request_for(kind, r@.content_topics),
        r.content_topics == content_topics,
{
    FilterSubscribeRequest {
        pubsub_topic: Some(DEFAULT_PUBSUB_TOPIC.to_owned()),
        content_topics,
        request_id: PLACEHOLDER_REQUEST_ID.to_owned(),
        filter_subscribe_type: kind.code(),
    }
}

/// The request to subscribe to `content_topics`.
pub fn filter_subscribe_request(content_topics: Vec<String>) -> (r: FilterSubscribeRequest)
    ensures
        r@ == filter_request_for(FilterSubscribeType::Subscribe, r@.content_topics),
        r.content_topics == content_topics,
{
    filter_request(FilterSubscribeType::Subscribe, content_topics)
}

/// The request to unsubscribe from `content_topics`.
pub fn filter_unsubscribe_request(content_topics: Vec<String>) -> (r: FilterSubscribeRequest)
    ensures
        r@ == filter_request_for(FilterSubscribeType::Unsubscribe, r@.content_topics),
        r.content_topics == content_topics,
{
    filter_request(FilterSubscribeType::Unsubscribe, content_topics)
}

/// The positions of the dials that failed, in order. A failed dial is
/// reported and the node runs on with the peers it reached.
pub fn dial_failures(succeeded: &Vec<bool>) -> (r: Vec<usize>)
    ensures
        forall|i: int| 0 <= i < r@.len() ==> r@[i] < succeeded@.len() && !succeeded@[r@[i] as int],
        forall|i: int, j: int| 0 <= i < j < r@.len() ==> r@[i] < r@[j],
        forall|k: int| 0 <= k < succeeded@.len() && !succeeded@[k] ==> r@.contains(k as usize),
{
    let mut r: Vec<usize> = Vec::new();
    let mut i: usize = 0;
    while i < succeeded.len()
        invariant
            i <= succeeded@.len(),
            forall|a: int| 0 <= a < r@.len() ==> r@[a] < i && !succeeded@[r@[a] as int],
            forall|a: int, b: int| 0 <= a < b < r@.len() ==> r@[a] < r@[b],
            forall|k: int| 0 <= k < i && !succeeded@[k] ==> r@.contains(k as usize),
        decreases succeeded@.len() - i,
    {
        let ghost before = r@;
        if !succeeded[i] {
            r.push(i);
            assert(r@[r@.len() - 1] == i);
        }
        assert forall|k: int| 0 <= k < i + 1 && !succeeded@[k] implies r@.contains(k as usize) by {
            if k < i {
                let j = choose|j: int| 0 <= j < before.len() && before[j] == k as usize;
                assert(r@[j] == k as usize);
            } else {
                assert(r@[r@.len() - 1] == i);
            }
        }
        i = i + 1;
    }
    r
}

/// Why an outbound request failed.
#[derive(Clone, Copy, Debug, PartialEq, Eq, Structural)]
pub enum OutboundFailure {
    DialFailure,
    Timeout,
    ConnectionClosed,
    UnsupportedProtocols,
    Io,
}

/// Why an inbound request failed.
#[derive(Clone, Copy, Debug, PartialEq, Eq, Structural)]
pub enum InboundFailure {
    Timeout,
    ConnectionClosed,
    UnsupportedProtocols,
    ResponseOmission,
    Io,
}

/// An outcome of one protocol, about the peer `P` and the request that the
/// handle `H` names.
#[derive(Clone, Debug, PartialEq, Eq)]
#[allow(inconsistent_fields)]
pub enum Event<Req, Resp, P, H> {
    /// A peer sent a request.
    Request { peer: P, request_id: H, request: Req },
    /// A peer answered a request of ours.
    Response { peer: P, request_id: H, response: Resp },
    OutboundFailure { peer: P, request_id: H, error: OutboundFailure },
    InboundFailure { peer: P, request_id: H, error: InboundFailure },
    /// Our answer to a peer's request went out.
    ResponseSent { peer: P, request_id: H },
}

/// An outcome of any of the protocols, tagged with its protocol.
#[derive(Clone, Debug, PartialEq, Eq)]
pub enum WakuLightNodeEvent<P, H> {
    PeerExchange(Event<PeerExchangeRpc, PeerExchangeRpc, P, H>),
    Metadata(Event<WakuMetadataRequest, WakuMetadataResponse, P, H>),
    LightPush(Event<PushRpc, PushRpc, P, H>),
    Filter(Event<FilterSubscribeRequest, FilterSubscribeResponse, P, H>),
}

impl<P, H> WakuLightNodeEvent<P, H> {
    pub open spec fn spec_protocol(&self) -> Protocol {
        match self {
            WakuLightNodeEvent::PeerExchange(_) => Protocol::PeerExchange,
            WakuLightNodeEvent::Metadata(_) => Protocol::Metadata,
            WakuLightNodeEvent::LightPush(_) => Protocol::LightPush,
            WakuLightNodeEvent::Filter(_) => Protocol::Filter,
        }
    }

    /// The protocol that the event came from.
    #[verifier::when_used_as_spec(spec_protocol)]
    pub fn protocol(&self) -> (r: Protocol)
        ensures
            r == self.spec_protocol(),
    {
        match self {
            WakuLightNodeEvent::PeerExchange(_) => Protocol::PeerExchange,
            WakuLightNodeEvent::Metadata(_) => Protocol::Metadata,
            WakuLightNodeEvent::LightPush(_) => Protocol::LightPush,
            WakuLightNodeEvent::Filter(_) => Protocol::Filter,
        }
    }
}

/// The event that reports `response` to the request `request_id` of `peer`.
pub open spec fn response_event<P, H>(peer: P, request_id: H, response: Response) -> WakuLightNodeEvent<P, H> {
    match response {
        Response::PeerExchange(x) => WakuLightNodeEvent::PeerExchange(
            Event::Response { peer, request_id, response: x },
        ),
        Response::Metadata(x) => WakuLightNodeEvent::Metadata(
            Event::Response { peer, request_id, response: x },
        ),
        Response::LightPush(x) => WakuLightNodeEvent::LightPush(
            Event::Response { peer, request_id, response: x },
        ),
        Response::Filter(x) => WakuLightNodeEvent::Filter(
            Event::Response { peer, request_id, response: x },
        ),
    }
}

/// The event that reports an outbound failure of `protocol`.
pub open spec fn failure_event<P, H>(protocol: Protocol, peer: P, request_id: H, error: OutboundFailure) -> WakuLightNodeEvent<P, H> {
    match protocol {
        Protocol::PeerExchange => WakuLightNodeEvent::PeerExchange(
            Event::OutboundFailure { peer, request_id, error },
        ),
        Protocol::Metadata => WakuLightNodeEvent::Metadata(
            Event::OutboundFailure { peer, request_id, error },
        ),
        Protocol::LightPush => WakuLightNodeEvent::LightPush(
            Event::OutboundFailure { peer, request_id, error },
        ),
        Protocol::Filter => WakuLightNodeEvent::Filter(
            Event::OutboundFailure { peer, request_id, error },
        ),
    }
}

/// Reads the answer that arrived on a stream of `protocol` for the request
/// `request_id` of `peer`, and reports it under that protocol: as the
/// response, or as an outbound failure where the bytes do not read.
pub fn response_outcome<P, H>(protocol: Protocol, peer: P, request_id: H, bytes: &[u8]) -> (r: WakuLightNodeEvent<P, H>)
    ensures
        r.protocol() == protocol,
        exists|x: Result<Response, CodecError>| #[trigger] response_read_as(protocol, bytes@, x)
            && match x {
            Ok(resp) => r == response_event(peer, request_id, resp),
            Err(_) => r == failure_event(protocol, peer, request_id, OutboundFailure::Io),
        },
{
    let read = read_response(protocol, bytes);
    match read {
        Ok(resp) => match resp {
            Response::PeerExchange(x) => WakuLightNodeEvent::PeerExchange(
                Event::Response { peer, request_id, response: x },
            ),
            Response::Metadata(x) => WakuLightNodeEvent::Metadata(
                Event::Response { peer, request_id, response: x },
            ),
            Response::LightPush(x) => WakuLightNodeEvent::LightPush(
                Event::Response { peer, request_id, response: x },
            ),
            Response::Filter(x) => WakuLightNodeEvent::Filter(
                Event::Response { peer, request_id, response: x },
            ),
        },
        Err(_) => match protocol {
            Protocol::PeerExchange => WakuLightNodeEvent::PeerExchange(
                Event::OutboundFailure { peer, request_id, error: OutboundFailure::Io },
            ),
            Protocol::Metadata => WakuLightNodeEvent::Metadata(
                Event::OutboundFailure { peer, request_id, error: OutboundFailure::Io },
            ),
            Protocol::LightPush => WakuLightNodeEvent::LightPush(
                Event::OutboundFailure { peer, request_id, error: OutboundFailure::Io },
            ),
            Protocol::Filter => WakuLightNodeEvent::Filter(
                Event::OutboundFailure { peer, request_id, error: OutboundFailure::Io },
            ),
        },
    }
}

/// Every outcome is reported under the protocol its request went out on,
/// whatever the bytes that came back: a response read under one protocol is
/// never read with another protocol's schema.
pub proof fn lemma_event_attribution<P, H>(
    protocol: Protocol,
    peer: P,
    request_id: H,
    bytes: Seq<u8>,
    read: Result<Response, CodecError>,
    error: OutboundFailure,
)
    requires
        response_read_as(protocol, bytes, read),
    ensures
        read matches Ok(resp) ==> resp.protocol() == protocol && response_event(
            peer,
            request_id,
            resp,
        ).protocol() == protocol,
        failure_event(protocol, peer, request_id, error).protocol() == protocol,
{
}

} // verus!
