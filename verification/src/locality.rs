use vstd::prelude::*;
use vstd::bytes::lemma_auto_spec_u16_to_from_le_bytes;
use crate::enc::{
    enc_content, enc_contents, enc_file, enc_headers, enc_i16, enc_i16s, enc_str, enc_u16, enc_u32,
};
use crate::model::{ContentV, FileV, wf_file};
use crate::laws::lemma_delete_wf;
use crate::ops::spec_delete_file;
use crate::progress::{default_payload, lemma_default_payload_len};
use crate::roundtrip::lemma_peel;
use crate::tags::payload_len;

verus! {

// ---------------------------------------------------------------------------
// Where each part of a tree sits in its encoding, and the proof that
// `delete` touches nothing but the payloads of matching contents, each at
// its original offset.
// ---------------------------------------------------------------------------

/// The offset of the contents region in the encoded file: the version quad,
/// the reserved byte, both counts and the headers come first.
pub open spec fn contents_offset(f: FileV) -> int {
    15 + enc_headers(f.headers).len() as int
}

/// The offset of element `i` within an encoded row of contents.
pub open spec fn contents_row_offset(cs: Seq<ContentV>, i: int) -> int
    decreases i,
{
    if i <= 0 {
        0
    } else {
        contents_row_offset(cs, i - 1) + enc_content(cs[i - 1]).len() as int
    }
}

/// The offset of content `i` in the encoded file.
pub open spec fn content_offset(f: FileV, i: int) -> int {
    contents_offset(f) + contents_row_offset(f.contents, i)
}

/// The offset of content `i`'s progress payload in the encoded file: the
/// content's tag and id come first.
pub open spec fn payload_offset(f: FileV, i: int) -> int {
    content_offset(f, i) + enc_str(f.contents[i].tag).len() + enc_str(f.contents[i].id).len()
}

/// The bytes before the contents region.
pub open spec fn file_prefix(f: FileV) -> Seq<u8> {
    enc_i16s(f.version) + seq![f.unused] + enc_u16(f.headers.len() as u16) + enc_headers(f.headers)
        + enc_u32(f.contents.len() as u32)
}

/// A row of 16-bit values encodes to two bytes each.
proof fn lemma_i16s_len(ts: Seq<i16>)
    ensures
        enc_i16s(ts).len() == 2 * ts.len(),
    decreases ts.len(),
{
    lemma_auto_spec_u16_to_from_le_bytes();
    if ts.len() > 0 {
        lemma_i16s_len(ts.drop_first());
        assert(enc_i16(ts[0]).len() == 2);
    }
}

/// Row offsets step over the head element.
proof fn lemma_row_offset_shift(cs: Seq<ContentV>, i: int)
    requires
        1 <= i <= cs.len(),
    ensures
        contents_row_offset(cs, i) == enc_content(cs[0]).len() + contents_row_offset(
            cs.drop_first(),
            i - 1,
        ),
    decreases i,
{
    if i == 1 {
        assert(contents_row_offset(cs, 0) == 0);
        assert(contents_row_offset(cs.drop_first(), 0) == 0);
    } else {
        lemma_row_offset_shift(cs, i - 1);
        assert(cs.drop_first()[i - 2] == cs[i - 1]);
        assert(contents_row_offset(cs.drop_first(), i - 1) == contents_row_offset(
            cs.drop_first(),
            i - 2,
        ) + enc_content(cs.drop_first()[i - 2]).len() as int);
    }
}

/// The offset just past the last element is the whole row's length.
proof fn lemma_row_total(cs: Seq<ContentV>)
    ensures
        contents_row_offset(cs, cs.len() as int) == enc_contents(cs).len(),
    decreases cs.len(),
{
    if cs.len() > 0 {
        lemma_row_total(cs.drop_first());
        lemma_row_offset_shift(cs, cs.len() as int);
    }
}

/// Row offsets never shrink and stay within the row.
proof fn lemma_row_offset_bounds(cs: Seq<ContentV>, i: int)
    requires
        0 <= i <= cs.len(),
    ensures
        0 <= contents_row_offset(cs, i) <= enc_contents(cs).len(),
        i < cs.len() ==> contents_row_offset(cs, i) + enc_content(cs[i]).len() <= enc_contents(
            cs,
        ).len(),
    decreases i,
{
    lemma_row_total(cs);
    if i > 0 {
        lemma_row_offset_bounds(cs, i - 1);
    }
    lemma_row_monotone(cs, i, cs.len() as int);
}

/// Row offsets grow with the index.
proof fn lemma_row_monotone(cs: Seq<ContentV>, i: int, j: int)
    requires
        0 <= i <= j <= cs.len(),
    ensures
        contents_row_offset(cs, i) <= contents_row_offset(cs, j),
        i < j ==> contents_row_offset(cs, i) + enc_content(cs[i]).len() <= contents_row_offset(
            cs,
            j,
        ),
    decreases j - i,
{
    if i < j {
        lemma_row_monotone(cs, i + 1, j);
    }
}

/// The slice of an encoded row at an element's offset is that element's
/// encoding.
proof fn lemma_row_slice(b: Seq<u8>, base: int, cs: Seq<ContentV>, i: int)
    requires
        0 <= base,
        base + enc_contents(cs).len() <= b.len(),
        b.subrange(base, base + enc_contents(cs).len() as int) == enc_contents(cs),
        0 <= i < cs.len(),
    ensures
        b.subrange(
            base + contents_row_offset(cs, i),
            base + contents_row_offset(cs, i) + enc_content(cs[i]).len() as int,
        ) == enc_content(cs[i]),
    decreases i,
{
    let e0 = enc_content(cs[0]);
    let rest = enc_contents(cs.drop_first());
    assert(enc_contents(cs) == e0 + rest);
    lemma_peel(b, base, e0, rest);
    if i == 0 {
    } else {
        lemma_row_slice(b, base + e0.len(), cs.drop_first(), i - 1);
        lemma_row_offset_shift(cs, i);
        assert(cs.drop_first()[i - 1] == cs[i]);
    }
}

/// The encoded file splits at the contents region: the prefix, the encoded
/// contents row, and the tracked bytes.
proof fn lemma_file_slices(f: FileV)
    requires
        wf_file(f),
    ensures
        file_prefix(f).len() == contents_offset(f),
        enc_file(f).len() == contents_offset(f) + enc_contents(f.contents).len() + enc_i16s(
            f.tracked_entries,
        ).len(),
        enc_file(f).subrange(0, contents_offset(f)) == file_prefix(f),
        enc_file(f).subrange(
            contents_offset(f),
            contents_offset(f) + enc_contents(f.contents).len() as int,
        ) == enc_contents(f.contents),
        enc_file(f).subrange(
            contents_offset(f) + enc_contents(f.contents).len(),
            enc_file(f).len() as int,
        ) == enc_i16s(f.tracked_entries),
{
    let b = enc_file(f);
    let pre = file_prefix(f);
    let crow = enc_contents(f.contents);
    let tail = enc_i16s(f.tracked_entries);
    lemma_i16s_len(f.version);
    assert(enc_u16(f.headers.len() as u16).len() == 2 && enc_u32(f.contents.len() as u32).len()
        == 4) by {
        lemma_auto_spec_u16_to_from_le_bytes();
        vstd::bytes::lemma_auto_spec_u32_to_from_le_bytes();
    }
    assert(pre.len() == contents_offset(f));
    assert(b =~= pre + (crow + tail));
    assert(b.subrange(0, b.len() as int) =~= b);
    lemma_peel(b, 0, pre, crow + tail);
    lemma_peel(b, pre.len() as int, crow, tail);
}

/// For one content, `delete` keeps the tag and id bytes in place, keeps a
/// non-matching content's bytes entirely, and writes the variant's default
/// payload over a matching content's payload.
proof fn lemma_delete_content_region(f: FileV, x: Seq<u8>, i: int)
    requires
        wf_file(f),
        0 <= i < f.contents.len(),
    ensures
        ({
            let d = spec_delete_file(f, x);
            let a = enc_file(f);
            let b = enc_file(d);
            &&& content_offset(d, i) == content_offset(f, i)
            &&& payload_offset(d, i) == payload_offset(f, i)
            &&& b.subrange(content_offset(f, i), payload_offset(f, i)) == a.subrange(
                content_offset(f, i),
                payload_offset(f, i),
            )
            &&& (f.contents[i].id != x ==> b.subrange(
                content_offset(f, i),
                content_offset(f, i + 1),
            ) == a.subrange(content_offset(f, i), content_offset(f, i + 1)))
            &&& (f.contents[i].id == x ==> b.subrange(
                payload_offset(f, i),
                payload_offset(f, i) + payload_len(f.contents[i].progress.kind) as int,
            ) == default_payload(f.contents[i].progress.kind))
        }),
{
    let d = spec_delete_file(f, x);
    let a = enc_file(f);
    let b = enc_file(d);
    lemma_delete_wf(f, x);
    lemma_file_slices(f);
    lemma_file_slices(d);
    lemma_delete_same_lengths(f, x);
    lemma_row_offset_eq(f.contents, d.contents, i);
    lemma_row_offset_eq(f.contents, d.contents, i + 1);
    lemma_row_total(f.contents);
    lemma_row_total(d.contents);
    lemma_row_offset_bounds(f.contents, i);
    lemma_row_offset_bounds(d.contents, i);
    lemma_row_slice(a, contents_offset(f), f.contents, i);
    lemma_row_slice(b, contents_offset(f), d.contents, i);
    let fc = f.contents[i];
    let dc = d.contents[i];
    let tid = enc_str(fc.tag) + enc_str(fc.id);
    let coff = content_offset(f, i);
    assert(enc_content(fc) == tid + fc.progress.payload);
    assert(enc_content(dc) == tid + dc.progress.payload);
    lemma_default_payload_len(fc.progress.kind);
    lemma_peel(a, coff, tid, fc.progress.payload);
    lemma_peel(b, coff, tid, dc.progress.payload);
    assert(contents_row_offset(f.contents, i + 1) == contents_row_offset(f.contents, i)
        + enc_content(fc).len() as int);
    if fc.id != x {
        assert(dc == fc);
    }
}

/// After `delete`, every content still encodes to its old length, with its
/// old tag and id.
proof fn lemma_delete_same_lengths(f: FileV, x: Seq<u8>)
    requires
        wf_file(f),
    ensures
        ({
            let d = spec_delete_file(f, x);
            &&& forall|j: int|
                0 <= j < f.contents.len() ==> #[trigger] enc_content(d.contents[j]).len()
                    == enc_content(f.contents[j]).len()
            &&& forall|j: int|
                0 <= j < f.contents.len() ==> #[trigger] d.contents[j].tag == f.contents[j].tag
                    && d.contents[j].id == f.contents[j].id
            &&& enc_contents(d.contents).len() == enc_contents(f.contents).len()
            &&& contents_offset(d) == contents_offset(f)
            &&& file_prefix(d) == file_prefix(f)
            &&& enc_file(d).len() == enc_file(f).len()
        }),
{
    let d = spec_delete_file(f, x);
    assert forall|j: int| 0 <= j < f.contents.len() implies #[trigger] enc_content(
        d.contents[j],
    ).len() == enc_content(f.contents[j]).len() by {
        lemma_default_payload_len(f.contents[j].progress.kind);
    }
    lemma_row_total(f.contents);
    lemma_row_total(d.contents);
    lemma_row_offset_eq(f.contents, d.contents, f.contents.len() as int);
    lemma_delete_wf(f, x);
    lemma_file_slices(f);
    lemma_file_slices(d);
}

/// Delete locality: `delete` changes nothing in the encoded file but the
/// progress payloads of the contents whose id matches, and each such payload
/// is replaced in place by the variant's default. Every other byte — the
/// version quad, the reserved byte, the headers, both counts, every tag and
/// id, every non-matching content and the tracked values — is preserved at
/// its original offset.
pub proof fn lemma_delete_locality(f: FileV, x: Seq<u8>)
    requires
        wf_file(f),
    ensures
        ({
            let d = spec_delete_file(f, x);
            let a = enc_file(f);
            let b = enc_file(d);
            &&& b.len() == a.len()
            &&& forall|i: int|
                0 <= i <= f.contents.len() ==> #[trigger] content_offset(d, i) == content_offset(
                    f,
                    i,
                )
            &&& b.subrange(0, contents_offset(f)) == a.subrange(0, contents_offset(f))
            &&& forall|i: int|
                0 <= i < f.contents.len() ==> #[trigger] b.subrange(
                    content_offset(f, i),
                    payload_offset(f, i),
                ) == a.subrange(content_offset(f, i), payload_offset(f, i))
            &&& forall|i: int|
                0 <= i < f.contents.len() && f.contents[i].id != x ==> #[trigger] b.subrange(
                    content_offset(f, i),
                    content_offset(f, i + 1),
                ) == a.subrange(content_offset(f, i), content_offset(f, i + 1))
            &&& forall|i: int|
                0 <= i < f.contents.len() && f.contents[i].id == x ==> #[trigger] b.subrange(
                    payload_offset(f, i),
                    payload_offset(f, i) + payload_len(f.contents[i].progress.kind) as int,
                ) == default_payload(f.contents[i].progress.kind)
            &&& b.subrange(content_offset(f, f.contents.len() as int), b.len() as int)
                == a.subrange(content_offset(f, f.contents.len() as int), a.len() as int)
        }),
{
    let d = spec_delete_file(f, x);
    let a = enc_file(f);
    let b = enc_file(d);
    lemma_delete_wf(f, x);
    lemma_delete_same_lengths(f, x);
    lemma_file_slices(f);
    lemma_file_slices(d);
    lemma_row_total(f.contents);
    lemma_row_total(d.contents);
    assert forall|i: int| 0 <= i <= f.contents.len() implies #[trigger] content_offset(d, i)
        == content_offset(f, i) by {
        lemma_row_offset_eq(f.contents, d.contents, i);
    }
    assert forall|i: int| 0 <= i < f.contents.len() implies #[trigger] b.subrange(
        content_offset(f, i),
        payload_offset(f, i),
    ) == a.subrange(content_offset(f, i), payload_offset(f, i)) by {
        lemma_delete_content_region(f, x, i);
    }
    assert forall|i: int| 0 <= i < f.contents.len() && f.contents[i].id != x implies #[trigger] b.subrange(
        content_offset(f, i),
        content_offset(f, i + 1),
    ) == a.subrange(content_offset(f, i), content_offset(f, i + 1)) by {
        lemma_delete_content_region(f, x, i);
    }
    assert forall|i: int| 0 <= i < f.contents.len() && f.contents[i].id == x implies #[trigger] b.subrange(
        payload_offset(f, i),
        payload_offset(f, i) + payload_len(f.contents[i].progress.kind) as int,
    ) == default_payload(f.contents[i].progress.kind) by {
        lemma_delete_content_region(f, x, i);
    }
}

/// Two rows whose elements encode to the same lengths share their offsets.
proof fn lemma_row_offset_eq(cs: Seq<ContentV>, ds: Seq<ContentV>, i: int)
    requires
        cs.len() == ds.len(),
        0 <= i <= cs.len(),
        forall|j: int| 0 <= j < cs.len() ==> #[trigger] enc_content(ds[j]).len() == enc_content(
            cs[j],
        ).len(),
    ensures
        contents_row_offset(ds, i) == contents_row_offset(cs, i),
    decreases i,
{
    if i > 0 {
        lemma_row_offset_eq(cs, ds, i - 1);
    }
}

} // verus!
