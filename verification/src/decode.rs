//! The payload decoder: a pure function from the raw bytes of an inbound
//! publish event to their displayable text, never blocking.
//!
//! Policy, as [`decode_spec`] states it: a payload that is not valid UTF-8
//! decodes to nothing (the failure is silent and non-fatal); a valid UTF-8
//! payload that parses as a structured document decodes to the document's
//! canonical rendering; any other valid UTF-8 payload decodes to its plain
//! text.

use crate::structured::{
    lemma_parse_doc_ascii, lemma_parse_doc_wf, lemma_parse_render_roundtrip,
    lemma_render_doc_ascii, parse_doc, parse_document, render_doc, render_document,
};
use vstd::prelude::*;
use vstd::utf8::{decode_utf8, valid_utf8};

verus! {

/// What [`decode_payload`] returns, stated over the payload bytes alone.
pub open spec fn decode_spec(p: Seq<u8>) -> Option<Seq<char>> {
    if !valid_utf8(p) {
        None
    } else if parse_doc(p) is Some {
        Some(decode_utf8(render_doc(parse_doc(p).unwrap())))
    } else {
        Some(decode_utf8(p))
    }
}

/// ASCII bytes are valid UTF-8 on their own.
pub proof fn lemma_ascii_valid_utf8(s: Seq<u8>)
    requires
        forall|i: int| 0 <= i < s.len() ==> #[trigger] s[i] < 0x80,
    ensures
        valid_utf8(s),
    decreases s.len(),
{
    if s.len() > 0 {
        let b = s[0];
        assert(vstd::utf8::is_leading_byte_width_1(b));
        assert(vstd::utf8::length_of_first_scalar(s) == 1);
        assert(vstd::utf8::decode_first_scalar(s) == vstd::utf8::leading_bits_width_1(b));
        assert((b & 0x7F) < 0x80) by (bit_vector);
        let rest = vstd::utf8::pop_first_scalar(s);
        assert(rest =~= s.skip(1));
        assert(forall|i: int| 0 <= i < rest.len() ==> #[trigger] rest[i] < 0x80);
        lemma_ascii_valid_utf8(rest);
    }
}

/// Relies on `String::from_utf8` of std: it returns `Ok` exactly when the
/// bytes are a valid UTF-8 encoding, and the returned string is their
/// decoding.
#[verifier::external_body]
fn string_from_utf8(v: Vec<u8>) -> (r: Option<String>)
    ensures
        r is Some <==> valid_utf8(v@),
        r is Some ==> r.unwrap()@ == decode_utf8(v@),
{
    String::from_utf8(v).ok()
}

/// Decodes one payload to its displayable text: `None` exactly on invalid
/// UTF-8, the canonical rendering when the payload is a structured document,
/// the plain text otherwise.
pub fn decode_payload(p: Vec<u8>) -> (r: Option<String>)
    ensures
        match r {
            Some(t) => decode_spec(p@) == Some(t@),
            None => decode_spec(p@) is None,
        },
{
    match parse_document(&p) {
        Some(es) => {
            let bytes = render_document(&es);
            proof {
                lemma_parse_doc_ascii(p@, es.deep_view());
                lemma_ascii_valid_utf8(p@);
                lemma_parse_doc_wf(p@, es.deep_view());
                lemma_render_doc_ascii(es.deep_view());
                lemma_ascii_valid_utf8(bytes@);
            }
            match string_from_utf8(bytes) {
                Some(t) => Some(t),
                None => {
                    proof {
                        assert(false);
                    }
                    None
                },
            }
        },
        None => string_from_utf8(p),
    }
}

/// Canonical decoding is idempotent: when a payload parses as a structured
/// document, the canonical text it decodes to decodes to itself again —
/// rendering, re-parsing and re-rendering changes nothing. Equal payloads
/// decode equally by construction, since [`decode_spec`] is a function of
/// the payload bytes alone.
pub proof fn lemma_decode_canonical_idempotent(p: Seq<u8>, es: Seq<(Seq<u8>, nat)>)
    requires
        valid_utf8(p),
        parse_doc(p) == Some(es),
    ensures
        decode_spec(p) == Some(decode_utf8(render_doc(es))),
        decode_spec(render_doc(es)) == decode_spec(p),
{
    lemma_parse_doc_wf(p, es);
    lemma_render_doc_ascii(es);
    lemma_ascii_valid_utf8(render_doc(es));
    lemma_parse_render_roundtrip(es);
}

} // verus!
