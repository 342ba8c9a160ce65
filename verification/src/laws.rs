use vstd::prelude::*;
use vstd::bytes::lemma_auto_spec_u32_to_from_le_bytes;
use crate::dec::{parse_file, parse_progress, parse_str, parse_tracked};
use crate::enc::{enc_file, enc_str};
use crate::error::CodecError;
use crate::model::{FileV, wf_file, wf_string};
use crate::ops::{lemma_delete_idempotent, spec_delete_file};
use crate::progress::{ProgressV, lemma_default_payload_len};
use crate::roundtrip::{lemma_parse_enc_file, lemma_parse_enc_str};
use crate::tags::{kind_of_tag, lemma_tag_table, reserved_tag};

verus! {

/// Bytestring boundary: a string of any encodable length occupies one extra
/// byte below 255 and five extra bytes from 255 on, and decodes back to
/// exactly its own bytes.
pub proof fn lemma_str_boundary(s: Seq<u8>)
    requires
        wf_string(s),
    ensures
        enc_str(s).len() == if s.len() < 255 {
            s.len() + 1
        } else {
            s.len() + 5
        },
        parse_str(enc_str(s), 0) == Ok::<(Seq<u8>, int), CodecError>(
            (s, enc_str(s).len() as int),
        ),
{
    lemma_auto_spec_u32_to_from_le_bytes();
    assert(enc_str(s).len() == if s.len() < 255 {
        s.len() + 1
    } else {
        s.len() + 5
    }) by {
        if s.len() >= 255 {
            assert(vstd::bytes::spec_u32_to_le_bytes(s.len() as u32).len() == 4);
        }
    }
    assert(enc_str(s).subrange(0, enc_str(s).len() as int) =~= enc_str(s));
    lemma_parse_enc_str(enc_str(s), 0, s);
}

/// Unknown-tag rejection: a content whose tag is outside the variant table
/// and not reserved never decodes, whatever the payload bytes hold.
pub proof fn lemma_unknown_tag_rejected(b: Seq<u8>, i: int, tag: Seq<u8>)
    requires
        kind_of_tag(tag) is None,
        !reserved_tag(tag),
    ensures
        parse_progress(b, i, tag) == Err::<(ProgressV, int), CodecError>(
            CodecError::UnknownTag,
        ),
{
}

/// Reserved-layout rejection: a content naming a reserved tag never decodes,
/// whatever the payload bytes hold.
pub proof fn lemma_reserved_tag_rejected(b: Seq<u8>, i: int, tag: Seq<u8>)
    requires
        reserved_tag(tag),
    ensures
        parse_progress(b, i, tag) == Err::<(ProgressV, int), CodecError>(
            CodecError::UnknownPayloadLayout,
        ),
{
    assert(kind_of_tag(tag) is None) by {
        if kind_of_tag(tag) is Some {
            lemma_tag_table(kind_of_tag(tag)->Some_0);
        }
    }
}

/// Trailing parity: an odd number of bytes left after the contents table
/// never decodes as tracked values.
pub proof fn lemma_trailing_parity(b: Seq<u8>, i: int)
    requires
        0 <= i <= b.len(),
        (b.len() - i) % 2 == 1,
    ensures
        parse_tracked(b, i) == Err::<(Seq<i16>, int), CodecError>(CodecError::TrailingGarbage),
    decreases b.len() - i,
{
    if i + 2 <= b.len() {
        lemma_trailing_parity(b, i + 2);
    }
}

/// Deleting preserves well-formedness: the tree that comes back still
/// encodes.
pub proof fn lemma_delete_wf(f: FileV, x: Seq<u8>)
    requires
        wf_file(f),
    ensures
        wf_file(spec_delete_file(f, x)),
{
    let d = spec_delete_file(f, x);
    assert forall|i: int| 0 <= i < d.contents.len() implies crate::model::wf_content(
        #[trigger] d.contents[i],
    ) by {
        lemma_default_payload_len(f.contents[i].progress.kind);
    }
}

/// Delete idempotence, down to the bytes: deleting an id, encoding, decoding
/// and deleting the same id again changes nothing — the second pass encodes
/// to exactly the bytes of the first.
pub proof fn lemma_delete_idempotent_bytes(f: FileV, x: Seq<u8>)
    requires
        wf_file(f),
    ensures
        wf_file(spec_delete_file(f, x)),
        parse_file(enc_file(spec_delete_file(f, x))) == Ok::<FileV, CodecError>(
            spec_delete_file(f, x),
        ),
        spec_delete_file(spec_delete_file(f, x), x) == spec_delete_file(f, x),
{
    lemma_delete_wf(f, x);
    lemma_parse_enc_file(spec_delete_file(f, x));
    lemma_delete_idempotent(f, x);
}

} // verus!
