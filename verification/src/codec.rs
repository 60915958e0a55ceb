//! Wire format shared by the router and the per-connection tasks.
//!
//! A *payload* is the body of an inbound event: a big-endian two-byte name
//! length, the channel name in UTF-8, then opaque stream data. [`parse`]
//! recovers the channel name from a payload.
//!
//! A *wire buffer* is what subscribers receive: one tag byte followed by the
//! payload, verbatim. [`encode`] builds it; [`decode`] takes it back apart.

use vstd::prelude::*;
use vstd::string::StringSliceAdditionalSpecFns;
use vstd::utf8::{decode_utf8, encode_utf8, valid_utf8};
use vstd::utf8::{encode_utf8_decode_utf8, encode_utf8_valid_utf8};

verus! {

/// Semantic role of a payload: the four recognized tags, and a fallback for
/// every other code, which mutates no router state and is forwarded verbatim.
#[derive(Clone, Copy, Debug, PartialEq, Eq, Structural)]
pub enum Tag {
    /// The sender declares itself the channel's publisher.
    Publish,
    /// A full frame: cached per channel to fast-forward late subscribers.
    Frame,
    /// A subscription request; never itself forwarded to peers.
    Pull,
    /// An internal metric; suppressed from every broadcast.
    Avg,
    /// Any unrecognized tag code, passed through unchanged.
    Other(u8),
}

/// The byte that stands for a tag on the wire.
pub open spec fn tag_code(t: Tag) -> u8 {
    match t {
        Tag::Publish => 1,
        Tag::Frame => 2,
        Tag::Pull => 3,
        Tag::Avg => 4,
        Tag::Other(b) => b,
    }
}

/// The tag a wire byte stands for.
pub open spec fn tag_of_code(b: u8) -> Tag {
    if b == 1 {
        Tag::Publish
    } else if b == 2 {
        Tag::Frame
    } else if b == 3 {
        Tag::Pull
    } else if b == 4 {
        Tag::Avg
    } else {
        Tag::Other(b)
    }
}

/// A tag is canonical when a fallback code does not collide with a
/// recognized one; [`decode`] only ever produces canonical tags.
pub open spec fn wf_tag(t: Tag) -> bool {
    match t {
        Tag::Other(b) => !(1 <= b && b <= 4),
        _ => true,
    }
}

/// Writes a tag as its wire byte.
pub fn tag_to_byte(t: Tag) -> (b: u8)
    ensures
        b == tag_code(t),
{
    match t {
        Tag::Publish => 1,
        Tag::Frame => 2,
        Tag::Pull => 3,
        Tag::Avg => 4,
        Tag::Other(b) => b,
    }
}

/// Reads a tag back from its wire byte; the result is always canonical.
pub fn tag_from_byte(b: u8) -> (t: Tag)
    ensures
        t == tag_of_code(b),
        wf_tag(t),
{
    if b == 1 {
        Tag::Publish
    } else if b == 2 {
        Tag::Frame
    } else if b == 3 {
        Tag::Pull
    } else if b == 4 {
        Tag::Avg
    } else {
        Tag::Other(b)
    }
}

/// Why a buffer was rejected.
#[derive(Clone, Copy, Debug, PartialEq, Eq, Structural)]
pub enum ParseError {
    /// The buffer ends before the announced channel name does.
    Truncated,
    /// The channel name bytes are not valid UTF-8.
    InvalidName,
}

/// The structured view of a payload: today only the channel it addresses.
pub struct Payload {
    /// Name of the channel the payload addresses.
    pub name: String,
}

/// Announced length of the channel name in a payload.
pub open spec fn payload_name_len(data: Seq<u8>) -> int {
    data[0] as int * 256 + data[1] as int
}

/// The payload is long enough to hold its announced channel name.
pub open spec fn payload_complete(data: Seq<u8>) -> bool {
    data.len() >= 2 && data.len() >= 2 + payload_name_len(data)
}

/// The bytes of the channel name inside a payload.
pub open spec fn payload_name_bytes(data: Seq<u8>) -> Seq<u8> {
    data.subrange(2, 2 + payload_name_len(data))
}

/// The payload carries a complete, well-encoded channel name.
pub open spec fn parse_ok(data: Seq<u8>) -> bool {
    payload_complete(data) && valid_utf8(payload_name_bytes(data))
}

/// The channel a parseable payload addresses.
pub open spec fn channel_of(data: Seq<u8>) -> Seq<char> {
    decode_utf8(payload_name_bytes(data))
}

/// Relies on core::str::from_utf8: it returns Ok exactly on valid UTF-8
/// input, and the returned string is the UTF-8 decoding of that input.
#[verifier::external_body]
fn utf8_to_string(v: &Vec<u8>) -> (r: Option<String>)
    ensures
        match r {
            Some(s) => valid_utf8(v@) && s@ == decode_utf8(v@),
            None => !valid_utf8(v@),
        },
{
    match core::str::from_utf8(v.as_slice()) {
        Ok(s) => Some(s.to_string()),
        Err(_) => None,
    }
}

/// Recovers the channel name from a payload. Returns `Ok` exactly on
/// payloads that carry a complete, well-encoded name; malformed payloads are
/// rejected with the reason, and the caller drops them silently.
pub fn parse(data: &Vec<u8>) -> (r: Result<Payload, ParseError>)
    ensures
        match r {
            Ok(p) => parse_ok(data@) && p.name@ == channel_of(data@),
            Err(e) => !parse_ok(data@) && ((e == ParseError::Truncated) <==> !payload_complete(
                data@,
            )),
        },
{
    if data.len() < 2 {
        return Err(ParseError::Truncated);
    }
    let n: usize = (data[0] as usize) * 256 + (data[1] as usize);
    if data.len() < 2 + n {
        return Err(ParseError::Truncated);
    }
    let mut name_bytes: Vec<u8> = Vec::new();
    let mut i: usize = 0;
    while i < n
        invariant
            i <= n,
            data@.len() >= 2 + n,
            n == payload_name_len(data@),
            name_bytes@ == data@.subrange(2, 2 + i),
        decreases n - i,
    {
        name_bytes.push(data[2 + i]);
        proof {
            assert(data@.subrange(2, 2 + i as int).push(data@[2 + i]) =~= data@.subrange(
                2,
                2 + (i + 1),
            ));
        }
        i = i + 1;
    }
    match utf8_to_string(&name_bytes) {
        Some(name) => Ok(Payload { name }),
        None => Err(ParseError::InvalidName),
    }
}

/// The wire buffer that carries a payload under a tag.
pub open spec fn wire_of(t: Tag, body: Seq<u8>) -> Seq<u8> {
    seq![tag_code(t)] + body
}

/// A wire buffer holds at least its tag byte.
pub open spec fn wire_ok(wire: Seq<u8>) -> bool {
    wire.len() >= 1
}

/// The tag a wire buffer carries.
pub open spec fn wire_tag(wire: Seq<u8>) -> Tag {
    tag_of_code(wire[0])
}

/// The payload a wire buffer carries.
pub open spec fn wire_body(wire: Seq<u8>) -> Seq<u8> {
    wire.subrange(1, wire.len() as int)
}

/// Frames a payload under a tag: one tag byte, then the payload verbatim.
/// Deterministic and pure; the router calls it once per fanout, however many
/// subscribers share the resulting buffer.
pub fn encode(tag: Tag, data: &Vec<u8>) -> (wire: Vec<u8>)
    ensures
        wire@ == wire_of(tag, data@),
{
    let mut wire: Vec<u8> = Vec::new();
    wire.push(tag_to_byte(tag));
    let mut i: usize = 0;
    while i < data.len()
        invariant
            i <= data@.len(),
            wire@ == wire_of(tag, data@.subrange(0, i as int)),
        decreases data@.len() - i,
    {
        wire.push(data[i]);
        proof {
            assert(wire_of(tag, data@.subrange(0, i as int)).push(data@[i as int]) =~= wire_of(
                tag,
                data@.subrange(0, i + 1),
            ));
        }
        i = i + 1;
    }
    proof {
        assert(data@.subrange(0, data@.len() as int) =~= data@);
    }
    wire
}

/// Takes a wire buffer back apart into its tag and payload. Succeeds on
/// every non-empty buffer; only an empty one is rejected.
pub fn decode(wire: &Vec<u8>) -> (r: Result<(Tag, Vec<u8>), ParseError>)
    ensures
        match r {
            Ok(p) => wire_ok(wire@) && p.0 == wire_tag(wire@) && wf_tag(p.0) && p.1@ == wire_body(
                wire@,
            ),
            Err(e) => !wire_ok(wire@) && e == ParseError::Truncated,
        },
{
    if wire.len() < 1 {
        return Err(ParseError::Truncated);
    }
    let tag = tag_from_byte(wire[0]);
    let mut body: Vec<u8> = Vec::new();
    let mut i: usize = 1;
    while i < wire.len()
        invariant
            1 <= i <= wire@.len(),
            body@ == wire@.subrange(1, i as int),
        decreases wire@.len() - i,
    {
        body.push(wire[i]);
        proof {
            assert(wire@.subrange(1, i as int).push(wire@[i as int]) =~= wire@.subrange(
                1,
                i + 1,
            ));
        }
        i = i + 1;
    }
    Ok((tag, body))
}

/// The payload that addresses `name` and carries `body`.
pub open spec fn payload_of(name: Seq<char>, body: Seq<u8>) -> Seq<u8> {
    let nb = encode_utf8(name);
    seq![(nb.len() / 256) as u8, (nb.len() % 256) as u8] + nb + body
}

/// Builds the payload that addresses `name` and carries `body`; what
/// [`parse`] accepts and maps back to `name`. Fails exactly when the name's
/// encoding does not fit the two-byte length field.
pub fn make_payload(name: &str, body: &Vec<u8>) -> (r: Option<Vec<u8>>)
    ensures
        match r {
            Some(p) => name.spec_bytes().len() <= 0xFFFF && p@ == payload_of(name@, body@),
            None => name.spec_bytes().len() > 0xFFFF,
        },
{
    let nb: &[u8] = name.as_bytes();
    if nb.len() > 0xFFFF {
        return None;
    }
    let n = nb.len();
    let mut p: Vec<u8> = Vec::new();
    p.push((n / 256) as u8);
    p.push((n % 256) as u8);
    let mut i: usize = 0;
    while i < n
        invariant
            i <= n,
            n == nb@.len() <= 0xFFFF,
            nb@ == name.spec_bytes(),
            p@ == seq![(n / 256) as u8, (n % 256) as u8] + nb@.subrange(0, i as int),
        decreases n - i,
    {
        let b: u8 = nb[i];
        p.push(b);
        proof {
            assert((seq![(n / 256) as u8, (n % 256) as u8] + nb@.subrange(0, i as int)).push(
                nb@[i as int],
            ) =~= seq![(n / 256) as u8, (n % 256) as u8] + nb@.subrange(0, i + 1));
        }
        i = i + 1;
    }
    let mut j: usize = 0;
    while j < body.len()
        invariant
            j <= body@.len(),
            n == nb@.len() <= 0xFFFF,
            nb@ == name.spec_bytes(),
            p@ == seq![(n / 256) as u8, (n % 256) as u8] + nb@ + body@.subrange(0, j as int),
        decreases body@.len() - j,
    {
        p.push(body[j]);
        proof {
            assert((seq![(n / 256) as u8, (n % 256) as u8] + nb@ + body@.subrange(
                0,
                j as int,
            )).push(body@[j as int]) =~= seq![(n / 256) as u8, (n % 256) as u8] + nb@
                + body@.subrange(0, j + 1));
        }
        j = j + 1;
    }
    proof {
        assert(nb@.subrange(0, nb@.len() as int) =~= nb@);
        assert(body@.subrange(0, body@.len() as int) =~= body@);
        assert(p@ =~= payload_of(name@, body@));
    }
    Some(p)
}

/// Law: framing round-trips. Decoding the wire buffer that [`encode`] builds
/// for a canonical tag gives back exactly that tag and payload.
pub proof fn lemma_wire_round_trip(t: Tag, body: Seq<u8>)
    requires
        wf_tag(t),
    ensures
        wire_ok(wire_of(t, body)),
        wire_tag(wire_of(t, body)) == t,
        wire_body(wire_of(t, body)) == body,
{
    assert(wire_body(wire_of(t, body)) =~= body);
}

/// Law: payload construction round-trips. The payload built for a channel
/// name parses, and parsing recovers exactly that name.
pub proof fn lemma_payload_round_trip(name: Seq<char>, body: Seq<u8>)
    requires
        encode_utf8(name).len() <= 0xFFFF,
    ensures
        parse_ok(payload_of(name, body)),
        channel_of(payload_of(name, body)) == name,
{
    broadcast use encode_utf8_valid_utf8, encode_utf8_decode_utf8;

    let nb = encode_utf8(name);
    let p = payload_of(name, body);
    let l = nb.len() as int;
    assert(p[0] == (l / 256) as u8 && p[1] == (l % 256) as u8);
    assert(payload_name_len(p) == l) by {
        assert(0 <= l / 256 <= 255 && 0 <= l % 256 <= 255);
        assert((l / 256) as u8 as int * 256 + (l % 256) as u8 as int == (l / 256) * 256 + l % 256);
        assert((l / 256) * 256 + l % 256 == l) by (nonlinear_arith)
            requires
                0 <= l,
        ;
    }
    assert(payload_name_bytes(p) =~= nb);
}

} // verus!
