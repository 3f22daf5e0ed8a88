//! The protocols that a light node runs side by side: each request and each
//! outcome carries the protocol it belongs to, known from where it was
//! registered and never guessed from its bytes.
use crate::filter::{
    read_filter_request, read_filter_response, write_filter_request, write_filter_response,
    FilterSubscribeRequest, FilterSubscribeResponse,
};
use crate::framing::CodecError;
use crate::light_push::{read_push_rpc, write_push_rpc, PushRpc};
use crate::metadata::{read_metadata, write_metadata, WakuMetadataRequest, WakuMetadataResponse};
use crate::peer_exchange::{read_peer_exchange, write_peer_exchange, PeerExchangeRpc};
use crate::{filter, light_push, metadata, peer_exchange};
use vstd::prelude::*;

verus! {

/// One of the sub-protocols.
#[derive(Clone, Copy, Debug, PartialEq, Eq, Structural)]
pub enum Protocol {
    PeerExchange,
    Metadata,
    LightPush,
    Filter,
}

impl Protocol {
    pub open spec fn spec_name(self) -> Seq<char> {
        match self {
            Protocol::PeerExchange => peer_exchange::PROTOCOL_NAME@,
            Protocol::Metadata => metadata::PROTOCOL_NAME@,
            Protocol::LightPush => light_push::PROTOCOL_NAME@,
            Protocol::Filter => filter::PROTOCOL_NAME@,
        }
    }

    /// The identifier that the protocol is negotiated under.
    pub fn name(self) -> (r: &'static str)
        ensures
            r@ == self.spec_name(),
    {
        match self {
            Protocol::PeerExchange => peer_exchange::PROTOCOL_NAME,
            Protocol::Metadata => metadata::PROTOCOL_NAME,
            Protocol::LightPush => light_push::PROTOCOL_NAME,
            Protocol::Filter => filter::PROTOCOL_NAME,
        }
    }
}

/// A request of one of the protocols.
#[derive(Clone, Debug, PartialEq, Eq)]
pub enum Request {
    PeerExchange(PeerExchangeRpc),
    Metadata(WakuMetadataRequest),
    LightPush(PushRpc),
    Filter(FilterSubscribeRequest),
}

/// A response of one of the protocols.
#[derive(Clone, Debug, PartialEq, Eq)]
pub enum Response {
    PeerExchange(PeerExchangeRpc),
    Metadata(WakuMetadataResponse),
    LightPush(PushRpc),
    Filter(FilterSubscribeResponse),
}

impl Request {
    pub open spec fn spec_protocol(&self) -> Protocol {
        match self {
            Request::PeerExchange(_) => Protocol::PeerExchange,
            Request::Metadata(_) => Protocol::Metadata,
            Request::LightPush(_) => Protocol::LightPush,
            Request::Filter(_) => Protocol::Filter,
        }
    }

    /// The protocol that the request belongs to.
    #[verifier::when_used_as_spec(spec_protocol)]
    pub fn protocol(&self) -> (r: Protocol)
        ensures
            r == self.spec_protocol(),
    {
        match self {
            Request::PeerExchange(_) => Protocol::PeerExchange,
            Request::Metadata(_) => Protocol::Metadata,
            Request::LightPush(_) => Protocol::LightPush,
            Request::Filter(_) => Protocol::Filter,
        }
    }
}

impl Response {
    pub open spec fn spec_protocol(&self) -> Protocol {
        match self {
            Response::PeerExchange(_) => Protocol::PeerExchange,
            Response::Metadata(_) => Protocol::Metadata,
            Response::LightPush(_) => Protocol::LightPush,
            Response::Filter(_) => Protocol::Filter,
        }
    }

    /// The protocol that the response belongs to.
    #[verifier::when_used_as_spec(spec_protocol)]
    pub fn protocol(&self) -> (r: Protocol)
        ensures
            r == self.spec_protocol(),
    {
        match self {
            Response::PeerExchange(_) => Protocol::PeerExchange,
            Response::Metadata(_) => Protocol::Metadata,
            Response::LightPush(_) => Protocol::LightPush,
            Response::Filter(_) => Protocol::Filter,
        }
    }
}

/// Reading a response under protocol `p` is what that protocol's codec
/// reads, and nothing else.
pub open spec fn response_read_as(p: Protocol, s: Seq<u8>, r: Result<Response, CodecError>) -> bool {
    match p {
        Protocol::PeerExchange => match read_peer_exchange(s, peer_exchange::RESPONSE_SIZE_MAXIMUM as nat) {
            Ok(m) => r matches Ok(Response::PeerExchange(x)) && x@ == m,
            Err(e) => r == Err::<Response, CodecError>(e),
        },
        Protocol::Metadata => match read_metadata(s, metadata::RESPONSE_SIZE_MAXIMUM as nat) {
            Ok(m) => r matches Ok(Response::Metadata(x)) && x@ == m,
            Err(e) => r == Err::<Response, CodecError>(e),
        },
        Protocol::LightPush => match read_push_rpc(s) {
            Ok(m) => r matches Ok(Response::LightPush(x)) && x@ == m,
            Err(e) => r == Err::<Response, CodecError>(e),
        },
        Protocol::Filter => match read_filter_response(s) {
            Ok(m) => r matches Ok(Response::Filter(x)) && x@ == m,
            Err(e) => r == Err::<Response, CodecError>(e),
        },
    }
}

/// Reading a request under protocol `p` is what that protocol's codec reads.
pub open spec fn request_read_as(p: Protocol, s: Seq<u8>, r: Result<Request, CodecError>) -> bool {
    match p {
        Protocol::PeerExchange => match read_peer_exchange(s, peer_exchange::REQUEST_SIZE_MAXIMUM as nat) {
            Ok(m) => r matches Ok(Request::PeerExchange(x)) && x@ == m,
            Err(e) => r == Err::<Request, CodecError>(e),
        },
        Protocol::Metadata => match read_metadata(s, metadata::REQUEST_SIZE_MAXIMUM as nat) {
            Ok(m) => r matches Ok(Request::Metadata(x)) && x@ == m,
            Err(e) => r == Err::<Request, CodecError>(e),
        },
        Protocol::LightPush => match read_push_rpc(s) {
            Ok(m) => r matches Ok(Request::LightPush(x)) && x@ == m,
            Err(e) => r == Err::<Request, CodecError>(e),
        },
        Protocol::Filter => match read_filter_request(s) {
            Ok(m) => r matches Ok(Request::Filter(x)) && x@ == m,
            Err(e) => r == Err::<Request, CodecError>(e),
        },
    }
}

/// The bytes that the request's own codec writes for it.
pub open spec fn request_written(q: Request) -> Result<Seq<u8>, CodecError> {
    match q {
        Request::PeerExchange(x) => write_peer_exchange(x@, peer_exchange::REQUEST_SIZE_MAXIMUM as nat),
        Request::Metadata(x) => write_metadata(x@, metadata::REQUEST_SIZE_MAXIMUM as nat),
        Request::LightPush(x) => write_push_rpc(x@),
        Request::Filter(x) => write_filter_request(x@),
    }
}

/// The bytes that the response's own codec writes for it.
pub open spec fn response_written(p: Response) -> Result<Seq<u8>, CodecError> {
    match p {
        Response::PeerExchange(x) => write_peer_exchange(x@, peer_exchange::RESPONSE_SIZE_MAXIMUM as nat),
        Response::Metadata(x) => write_metadata(x@, metadata::RESPONSE_SIZE_MAXIMUM as nat),
        Response::LightPush(x) => write_push_rpc(x@),
        Response::Filter(x) => write_filter_response(x@),
    }
}

/// Writes a request with the codec of its protocol.
pub fn write_request(q: &Request) -> (r: Result<Vec<u8>, CodecError>)
    ensures
        match request_written(*q) {
            Ok(b) => r matches Ok(x) && x@ == b,
            Err(e) => r matches Err(x) && x == e,
        },
{
    match q {
        Request::PeerExchange(x) => (peer_exchange::Codec {}).write_request(x),
        Request::Metadata(x) => (metadata::Codec {}).write_request(x),
        Request::LightPush(x) => (light_push::Codec {}).write_request(x),
        Request::Filter(x) => (filter::Codec {}).write_request(x),
    }
}

/// Writes a response with the codec of its protocol.
pub fn write_response(p: &Response) -> (r: Result<Vec<u8>, CodecError>)
    ensures
        match response_written(*p) {
            Ok(b) => r matches Ok(x) && x@ == b,
            Err(e) => r matches Err(x) && x == e,
        },
{
    match p {
        Response::PeerExchange(x) => (peer_exchange::Codec {}).write_response(x),
        Response::Metadata(x) => (metadata::Codec {}).write_response(x),
        Response::LightPush(x) => (light_push::Codec {}).write_response(x),
        Response::Filter(x) => (filter::Codec {}).write_response(x),
    }
}

/// Reads a request that arrived on a stream of protocol `p`, with that
/// protocol's codec alone.
pub fn read_request(p: Protocol, bytes: &[u8]) -> (r: Result<Request, CodecError>)
    ensures
        request_read_as(p, bytes@, r),
        r matches Ok(q) ==> q.protocol() == p,
{
    match p {
        Protocol::PeerExchange => match (peer_exchange::Codec {}).read_request(bytes) {
            Ok(x) => Ok(Request::PeerExchange(x)),
            Err(e) => Err(e),
        },
        Protocol::Metadata => match (metadata::Codec {}).read_request(bytes) {
            Ok(x) => Ok(Request::Metadata(x)),
            Err(e) => Err(e),
        },
        Protocol::LightPush => match (light_push::Codec {}).read_request(bytes) {
            Ok(x) => Ok(Request::LightPush(x)),
            Err(e) => Err(e),
        },
        Protocol::Filter => match (filter::Codec {}).read_request(bytes) {
            Ok(x) => Ok(Request::Filter(x)),
            Err(e) => Err(e),
        },
    }
}

/// Reads a response that arrived on a stream of protocol `p`, with that
/// protocol's codec alone.
pub fn read_response(p: Protocol, bytes: &[u8]) -> (r: Result<Response, CodecError>)
    ensures
        response_read_as(p, bytes@, r),
        r matches Ok(x) ==> x.protocol() == p,
{
    match p {
        Protocol::PeerExchange => match (peer_exchange::Codec {}).read_response(bytes) {
            Ok(x) => Ok(Response::PeerExchange(x)),
            Err(e) => Err(e),
        },
        Protocol::Metadata => match (metadata::Codec {}).read_response(bytes) {
            Ok(x) => Ok(Response::Metadata(x)),
            Err(e) => Err(e),
        },
        Protocol::LightPush => match (light_push::Codec {}).read_response(bytes) {
            Ok(x) => Ok(Response::LightPush(x)),
            Err(e) => Err(e),
        },
        Protocol::Filter => match (filter::Codec {}).read_response(bytes) {
            Ok(x) => Ok(Response::Filter(x)),
            Err(e) => Err(e),
        },
    }
}

} // verus!
