//! The envelope: a type tag paired with opaque payload bytes, and its wire
//! format.
//!
//! On the wire an envelope is a JSON object with a string member
//! `message_type` and a member `payload` of any JSON shape. The payload is
//! never interpreted here: it is kept as the compact JSON text of that member.

use vstd::prelude::*;
use crate::json::{json_parsed, json_text, member_of, string_of, Json};
use crate::json::{member, parse, print, string_content, string_value};

verus! {

/// Why bytes could not be turned into a value.
#[derive(Debug, Clone, Copy, PartialEq, Eq, Structural)]
pub enum DecodeError {
    /// The bytes are not a valid serialized envelope, or not a valid payload.
    Malformed,
    /// No payload type is registered for the tag.
    UnknownTag,
}

/// What an envelope is: its tag and its payload.
pub struct EnvelopeView {
    pub message_type: Seq<char>,
    pub payload: Seq<u8>,
}

/// A type tag and the payload that travels under it. The tag is never empty.
#[derive(Debug, PartialEq, Eq)]
pub struct Envelope {
    message_type: String,
    payload: Vec<u8>,
}

impl View for Envelope {
    type V = EnvelopeView;

    closed spec fn view(&self) -> EnvelopeView {
        EnvelopeView { message_type: self.message_type@, payload: self.payload@ }
    }
}

impl Clone for Envelope {
    fn clone(&self) -> (r: Self)
        ensures
            r@ == self@,
    {
        proof {
            use_type_invariant(self);
        }
        let payload = self.payload.clone();
        assert(payload@ == self.payload@);
        Envelope { message_type: self.message_type.clone(), payload }
    }
}

impl Envelope {
    #[verifier::type_invariant]
    spec fn tagged(&self) -> bool {
        self.message_type@.len() > 0
    }

    /// Pairs a tag with a payload; `None` for the empty tag.
    pub fn new(message_type: &str, payload: Vec<u8>) -> (r: Option<Envelope>)
        ensures
            message_type@.len() == 0 ==> r is None,
            message_type@.len() > 0 ==> r is Some && r->0@ == (EnvelopeView {
                message_type: message_type@,
                payload: payload@,
            }),
    {
        if message_type.is_empty() {
            None
        } else {
            Some(Envelope { message_type: message_type.to_owned(), payload })
        }
    }

    /// The tag.
    pub fn message_type(&self) -> (r: &str)
        ensures
            r@ == self@.message_type,
            r@.len() > 0,
    {
        proof {
            use_type_invariant(self);
        }
        self.message_type.as_str()
    }

    /// The payload bytes.
    pub fn payload(&self) -> (r: &[u8])
        ensures
            r@ == self@.payload,
    {
        self.payload.as_slice()
    }

    /// Gives up the envelope for its payload bytes.
    pub fn into_payload(self) -> (r: Vec<u8>)
        ensures
            r@ == self@.payload,
    {
        self.payload
    }
}

/// The bytes of a text that holds ASCII characters only.
pub open spec fn ascii_bytes(text: Seq<char>) -> Seq<u8> {
    Seq::new(text.len(), |i: int| text[i] as u8)
}

/// A frame: the JSON object whose `message_type` member is the given JSON
/// string, already quoted, and whose `payload` member is the payload as it
/// stands.
pub open spec fn framed(quoted_tag: Seq<u8>, payload: Seq<u8>) -> Seq<u8> {
    ascii_bytes("{\"message_type\":"@) + quoted_tag + ascii_bytes(",\"payload\":"@) + payload
        + ascii_bytes("}"@)
}

/// The wire form of a tag and a payload: the frame around the tag as the JSON
/// printer quotes it. Should the printer refuse the tag, the wire form is
/// empty.
pub open spec fn wire_encode(message_type: Seq<char>, payload: Seq<u8>) -> Seq<u8> {
    match json_text(Json::String(message_type)) {
        Some(quoted_tag) => framed(quoted_tag, payload),
        None => Seq::empty(),
    }
}

/// The envelope that a tag member and a payload member make: both must be
/// there and the tag must not be empty.
pub open spec fn envelope_of_fields(
    message_type: Option<Seq<char>>,
    payload: Option<Seq<u8>>,
) -> Result<EnvelopeView, DecodeError> {
    if message_type is Some && payload is Some && message_type->0.len() > 0 {
        Ok(EnvelopeView { message_type: message_type->0, payload: payload->0 })
    } else {
        Err(DecodeError::Malformed)
    }
}

/// The tag member of a document: its `message_type`, where that is a JSON
/// string.
pub open spec fn tag_field(document: Json) -> Option<Seq<char>> {
    match member_of(document, "message_type"@) {
        Some(found) => string_of(found),
        None => None,
    }
}

/// The payload member of a document: the compact text of its `payload`.
pub open spec fn payload_field(document: Json) -> Option<Seq<u8>> {
    match member_of(document, "payload"@) {
        Some(found) => json_text(found),
        None => None,
    }
}

/// What a byte sequence decodes to: the envelope made of the two members of
/// the JSON document it holds, or `Malformed`.
pub open spec fn wire_decode(bytes: Seq<u8>) -> Result<EnvelopeView, DecodeError> {
    match json_parsed(bytes) {
        Some(document) => envelope_of_fields(tag_field(document), payload_field(document)),
        None => Err(DecodeError::Malformed),
    }
}

/// A decoding outcome with the envelope taken by its view.
pub open spec fn decoded_view(r: Result<Envelope, DecodeError>) -> Result<
    EnvelopeView,
    DecodeError,
> {
    match r {
        Ok(envelope) => Ok(envelope@),
        Err(e) => Err(e),
    }
}

fn push_ascii(out: &mut Vec<u8>, text: &str)
    requires
        text.is_ascii(),
    ensures
        final(out)@ == old(out)@ + ascii_bytes(text@),
{
    broadcast use vstd::string::is_ascii_spec_bytes;

    out.extend_from_slice(text.as_bytes());
}

/// Builds the frame around a quoted tag and a payload.
pub fn frame(quoted_tag: &[u8], payload: &[u8]) -> (wire: Vec<u8>)
    ensures
        wire@ == framed(quoted_tag@, payload@),
{
    proof {
        reveal_strlit("{\"message_type\":");
        reveal_strlit(",\"payload\":");
        reveal_strlit("}");
    }
    let mut wire: Vec<u8> = Vec::new();
    push_ascii(&mut wire, "{\"message_type\":");
    wire.extend_from_slice(quoted_tag);
    push_ascii(&mut wire, ",\"payload\":");
    wire.extend_from_slice(payload);
    push_ascii(&mut wire, "}");
    wire
}

/// Serializes a tag and a payload into one self-describing byte sequence.
/// The payload is placed in the frame as it stands, so it has to be JSON text
/// for the result to decode.
pub fn encode(message_type: &str, payload: &[u8]) -> (wire: Vec<u8>)
    ensures
        wire@ == wire_encode(message_type@, payload@),
{
    let tag = string_value(message_type);
    match print(&tag) {
        Ok(quoted_tag) => frame(quoted_tag.as_slice(), payload),
        Err(_) => Vec::new(),
    }
}

/// Makes the envelope of the two members read from a document.
pub fn envelope_from_fields(message_type: Option<&str>, payload: Option<Vec<u8>>) -> (r: Result<
    Envelope,
    DecodeError,
>)
    ensures
        decoded_view(r) == envelope_of_fields(
            match message_type {
                Some(tag) => Some(tag@),
                None => None,
            },
            match payload {
                Some(bytes) => Some(bytes@),
                None => None,
            },
        ),
{
    match (message_type, payload) {
        (Some(tag), Some(bytes)) => match Envelope::new(tag, bytes) {
            Some(envelope) => Ok(envelope),
            None => Err(DecodeError::Malformed),
        },
        _ => Err(DecodeError::Malformed),
    }
}

/// Parses a byte sequence back into an envelope. The tag is read and checked;
/// the payload is carried along as text, whatever its shape.
pub fn decode(bytes: &[u8]) -> (r: Result<Envelope, DecodeError>)
    ensures
        decoded_view(r) == wire_decode(bytes@),
{
    match parse(bytes) {
        Err(_) => Err(DecodeError::Malformed),
        Ok(document) => {
            let message_type = match member(&document, "message_type") {
                Some(found) => string_content(found),
                None => None,
            };
            let payload = match member(&document, "payload") {
                Some(found) => match print(found) {
                    Ok(text) => Some(text),
                    Err(_) => None,
                },
                None => None,
            };
            envelope_from_fields(message_type, payload)
        },
    }
}

} // verus!
