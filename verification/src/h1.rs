//! HTTP/1.1 requests as the codec of asupersync reads them, with bodies of a given length or
//! in chunks.

use vstd::prelude::*;

use crate::pairs::Pairs;

verus! {

/// A request.
#[derive(Debug)]
pub struct H1Request {
    pub method: String,
    /// The target, with its query.
    pub uri: String,
    pub headers: Vec<(String, String)>,
    pub body: Vec<u8>,
}

#[verifier::ext_equal]
pub struct H1View {
    pub method: Seq<char>,
    pub uri: Seq<char>,
    pub headers: Pairs,
    pub body: Seq<u8>,
}

impl View for H1Request {
    type V = H1View;

    open spec fn view(&self) -> H1View {
        H1View {
            method: self.method@,
            uri: self.uri@,
            headers: self.headers.deep_view(),
            body: self.body@,
        }
    }
}

/// What a new codec makes of the bytes that came on a connection.
pub uninterp spec fn codec_request(input: Seq<u8>) -> Result<Option<H1View>, ()>;

pub open spec fn request_view(r: Result<Option<H1Request>, ()>) -> Result<Option<H1View>, ()> {
    match r {
        Ok(Some(q)) => Ok(Some(q@)),
        Ok(None) => Ok(None),
        Err(_) => Err(()),
    }
}

/// `Http1Codec::decode` by a new codec: the request at the beginning of the bytes with its
/// body; nothing where it is not complete; an error where the bytes are no request that the
/// codec takes. Trailers and the bytes behind the request are left out.
#[verifier::external_body]
pub(crate) fn decode_request(input: &[u8]) -> (r: Result<Option<H1Request>, ()>)
    ensures
        request_view(r) == codec_request(input@),
{
    let mut buf = asupersync::bytes::BytesMut::from(input);
    let mut codec = asupersync::http::h1::Http1Codec::new();
    match asupersync::codec::Decoder::decode(&mut codec, &mut buf) {
        Ok(Some(q)) => {
            let method = q.method.as_str().to_owned();
            Ok(Some(H1Request { method, uri: q.uri, headers: q.headers, body: q.body }))
        },
        Ok(None) => Ok(None),
        Err(_) => Err(()),
    }
}

} // verus!
