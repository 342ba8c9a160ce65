use vstd::prelude::*;
use vstd::bytes::{
    lemma_auto_spec_u16_to_from_le_bytes, lemma_auto_spec_u32_to_from_le_bytes,
    lemma_auto_spec_u64_to_from_le_bytes,
};
use crate::dec::{
    parse_bytes, parse_content, parse_contents, parse_file, parse_header, parse_headers, parse_i16,
    parse_progress, parse_str, parse_subobject, parse_subobjects, parse_tracked, parse_u16,
    parse_u32, parse_u8,
};
use crate::enc::{
    enc_content, enc_contents, enc_file, enc_header, enc_headers, enc_i16, enc_i16s, enc_str,
    enc_subobject, enc_subobjects, enc_u16, enc_u32,
};
use crate::error::CodecError;
use crate::model::{
    ContentV, FileV, HeaderV, SubobjectV, wf_content, wf_file, wf_header, wf_progress, wf_string,
    wf_subobject,
};
use crate::tags::{lemma_tag_table, payload_len};

verus! {

/// Parsing a 16-bit value off its own encoding.
proof fn lemma_parse_enc_u16(b: Seq<u8>, i: int, x: u16)
    requires
        0 <= i,
        i + 2 <= b.len(),
        b.subrange(i, i + 2) == enc_u16(x),
    ensures
        parse_u16(b, i) == Ok::<(u16, int), CodecError>((x, i + 2)),
{
    lemma_auto_spec_u16_to_from_le_bytes();
    assert(vstd::bytes::spec_u16_to_le_bytes(x).len() == 2);
    assert(vstd::bytes::spec_u16_from_le_bytes(vstd::bytes::spec_u16_to_le_bytes(x)) == x);
}

/// Parsing a 16-bit signed value off its own encoding.
proof fn lemma_parse_enc_i16(b: Seq<u8>, i: int, x: i16)
    requires
        0 <= i,
        i + 2 <= b.len(),
        b.subrange(i, i + 2) == enc_i16(x),
    ensures
        parse_i16(b, i) == Ok::<(i16, int), CodecError>((x, i + 2)),
{
    lemma_parse_enc_u16(b, i, x as u16);
    assert((x as u16) as i16 == x) by (bit_vector);
}

/// Parsing a 32-bit value off its own encoding.
proof fn lemma_parse_enc_u32(b: Seq<u8>, i: int, x: u32)
    requires
        0 <= i,
        i + 4 <= b.len(),
        b.subrange(i, i + 4) == enc_u32(x),
    ensures
        parse_u32(b, i) == Ok::<(u32, int), CodecError>((x, i + 4)),
{
    lemma_auto_spec_u32_to_from_le_bytes();
    assert(vstd::bytes::spec_u32_to_le_bytes(x).len() == 4);
    assert(vstd::bytes::spec_u32_from_le_bytes(vstd::bytes::spec_u32_to_le_bytes(x)) == x);
}

/// Parsing a byte string off its own encoding.
#[verifier::spinoff_prover]
#[verifier::rlimit(100)]
pub proof fn lemma_parse_enc_str(b: Seq<u8>, i: int, s: Seq<u8>)
    requires
        wf_string(s),
        0 <= i,
        i + enc_str(s).len() <= b.len(),
        b.subrange(i, i + enc_str(s).len() as int) == enc_str(s),
    ensures
        parse_str(b, i) == Ok::<(Seq<u8>, int), CodecError>((s, i + enc_str(s).len())),
{
    let e = enc_str(s);
    let n = s.len() as int;
    assert(b.subrange(i, i + e.len() as int)[0] == b[i]);
    if s.len() < 255 {
        assert(e.len() == 1 + n);
        assert(b[i] == s.len() as u8);
        assert(s.len() as u8 != 255) by {
            assert(s.len() < 255);
        }
        assert((s.len() as u8) as int == n);
        assert(parse_u8(b, i) == Ok::<(u8, int), CodecError>((s.len() as u8, i + 1)));
        assert(b.subrange(i + 1, i + 1 + n) =~= s) by {
            assert forall|j: int| 0 <= j < n implies b.subrange(i + 1, i + 1 + n)[j] == s[j] by {
                assert(b.subrange(i, i + e.len() as int)[j + 1] == b[i + 1 + j]);
                assert(e[j + 1] == s[j]);
            }
        }
        assert(parse_bytes(b, i + 1, n) == Ok::<(Seq<u8>, int), CodecError>((s, i + 1 + n)));
    } else {
        lemma_auto_spec_u32_to_from_le_bytes();
        let lenb = vstd::bytes::spec_u32_to_le_bytes(s.len() as u32);
        assert(lenb.len() == 4);
        assert(e.len() == 5 + n);
        assert(b[i] == 255u8);
        assert(parse_u8(b, i) == Ok::<(u8, int), CodecError>((255u8, i + 1)));
        assert(b.subrange(i + 1, i + 5) =~= lenb) by {
            assert forall|j: int| 0 <= j < 4 implies b.subrange(i + 1, i + 5)[j] == lenb[j] by {
                assert(b.subrange(i, i + e.len() as int)[j + 1] == b[i + 1 + j]);
                assert(e[j + 1] == lenb[j]);
            }
        }
        assert(parse_u32(b, i + 1) == Ok::<(u32, int), CodecError>((s.len() as u32, i + 5)));
        assert((s.len() as u32) as int == n);
        assert(b.subrange(i + 5, i + 5 + n) =~= s) by {
            assert forall|j: int| 0 <= j < n implies b.subrange(i + 5, i + 5 + n)[j] == s[j] by {
                assert(b.subrange(i, i + e.len() as int)[j + 5] == b[i + 5 + j]);
                assert(e[j + 5] == s[j]);
            }
        }
        assert(parse_bytes(b, i + 5, n) == Ok::<(Seq<u8>, int), CodecError>((s, i + 5 + n)));
    }
}

/// Parsing a subobject off its own encoding.
#[verifier::spinoff_prover]
#[verifier::rlimit(100)]
proof fn lemma_parse_enc_subobject(b: Seq<u8>, i: int, s: SubobjectV)
    requires
        wf_subobject(s),
        0 <= i,
        i + enc_subobject(s).len() <= b.len(),
        b.subrange(i, i + enc_subobject(s).len() as int) == enc_subobject(s),
    ensures
        parse_subobject(b, i) == Ok::<(SubobjectV, int), CodecError>(
            (s, i + enc_subobject(s).len()),
        ),
{
    let e = enc_subobject(s);
    let e1 = enc_str(s.id);
    let n1 = e1.len() as int;
    lemma_auto_spec_u16_to_from_le_bytes();
    assert(enc_i16(s.index).len() == 2);
    assert(e.len() == n1 + 2);
    assert(b.subrange(i, i + n1) =~= e1) by {
        assert forall|j: int| 0 <= j < n1 implies b.subrange(i, i + n1)[j] == e1[j] by {
            assert(b.subrange(i, i + e.len() as int)[j] == b[i + j]);
            assert(e[j] == e1[j]);
        }
    }
    lemma_parse_enc_str(b, i, s.id);
    assert(b.subrange(i + n1, i + n1 + 2) =~= enc_i16(s.index)) by {
        assert forall|j: int| 0 <= j < 2 implies b.subrange(i + n1, i + n1 + 2)[j] == enc_i16(
            s.index,
        )[j] by {
            assert(b.subrange(i, i + e.len() as int)[n1 + j] == b[i + n1 + j]);
            assert(e[n1 + j] == enc_i16(s.index)[j]);
        }
    }
    lemma_parse_enc_i16(b, i + n1, s.index);
}

/// Parsing a row of subobjects off its own encoding.
#[verifier::spinoff_prover]
#[verifier::rlimit(100)]
proof fn lemma_parse_enc_subobjects(b: Seq<u8>, i: int, ss: Seq<SubobjectV>)
    requires
        forall|j: int| 0 <= j < ss.len() ==> wf_subobject(#[trigger] ss[j]),
        0 <= i,
        i + enc_subobjects(ss).len() <= b.len(),
        b.subrange(i, i + enc_subobjects(ss).len() as int) == enc_subobjects(ss),
    ensures
        parse_subobjects(b, i, ss.len()) == Ok::<(Seq<SubobjectV>, int), CodecError>(
            (ss, i + enc_subobjects(ss).len()),
        ),
    decreases ss.len(),
{
    if ss.len() == 0 {
        assert(parse_subobjects(b, i, 0) == Ok::<(Seq<SubobjectV>, int), CodecError>(
            (Seq::empty(), i),
        ));
        assert(ss =~= Seq::<SubobjectV>::empty());
    } else {
        let e = enc_subobjects(ss);
        let e1 = enc_subobject(ss[0]);
        let n1 = e1.len() as int;
        let rest = enc_subobjects(ss.drop_first());
        assert(e == e1 + rest);
        assert(b.subrange(i, i + n1) =~= e1) by {
            assert forall|j: int| 0 <= j < n1 implies b.subrange(i, i + n1)[j] == e1[j] by {
                assert(b.subrange(i, i + e.len() as int)[j] == b[i + j]);
            }
        }
        lemma_parse_enc_subobject(b, i, ss[0]);
        assert(b.subrange(i + n1, i + n1 + rest.len()) =~= rest) by {
            assert forall|j: int| 0 <= j < rest.len() implies b.subrange(
                i + n1,
                i + n1 + rest.len(),
            )[j] == rest[j] by {
                assert(b.subrange(i, i + e.len() as int)[n1 + j] == b[i + n1 + j]);
                assert(e[n1 + j] == rest[j]);
            }
        }
        assert forall|j: int| 0 <= j < ss.drop_first().len() implies wf_subobject(
            #[trigger] ss.drop_first()[j],
        ) by {
            assert(ss.drop_first()[j] == ss[j + 1]);
        }
        lemma_parse_enc_subobjects(b, i + n1, ss.drop_first());
        assert(seq![ss[0]] + ss.drop_first() =~= ss);
        assert((ss.drop_first().len() + 1) as nat == ss.len());
    }
}

/// Parsing a header off its own encoding.
#[verifier::spinoff_prover]
#[verifier::rlimit(100)]
proof fn lemma_parse_enc_header(b: Seq<u8>, i: int, h: HeaderV)
    requires
        wf_header(h),
        0 <= i,
        i + enc_header(h).len() <= b.len(),
        b.subrange(i, i + enc_header(h).len() as int) == enc_header(h),
    ensures
        parse_header(b, i) == Ok::<(HeaderV, int), CodecError>((h, i + enc_header(h).len())),
{
    let e = enc_header(h);
    let e1 = enc_str(h.tag);
    let n1 = e1.len() as int;
    let e2 = enc_u16(h.subobjects.len() as u16);
    let e3 = enc_subobjects(h.subobjects);
    lemma_auto_spec_u16_to_from_le_bytes();
    assert(e2.len() == 2);
    assert(e == e1 + e2 + e3);
    assert(b.subrange(i, i + n1) =~= e1) by {
        assert forall|j: int| 0 <= j < n1 implies b.subrange(i, i + n1)[j] == e1[j] by {
            assert(b.subrange(i, i + e.len() as int)[j] == b[i + j]);
        }
    }
    lemma_parse_enc_str(b, i, h.tag);
    assert(b.subrange(i + n1, i + n1 + 2) =~= e2) by {
        assert forall|j: int| 0 <= j < 2 implies b.subrange(i + n1, i + n1 + 2)[j] == e2[j] by {
            assert(b.subrange(i, i + e.len() as int)[n1 + j] == b[i + n1 + j]);
            assert(e[n1 + j] == e2[j]);
        }
    }
    lemma_parse_enc_u16(b, i + n1, h.subobjects.len() as u16);
    assert(b.subrange(i + n1 + 2, i + n1 + 2 + e3.len()) =~= e3) by {
        assert forall|j: int| 0 <= j < e3.len() implies b.subrange(
            i + n1 + 2,
            i + n1 + 2 + e3.len(),
        )[j] == e3[j] by {
            assert(b.subrange(i, i + e.len() as int)[n1 + 2 + j] == b[i + n1 + 2 + j]);
            assert(e[n1 + 2 + j] == e3[j]);
        }
    }
    lemma_parse_enc_subobjects(b, i + n1 + 2, h.subobjects);
    assert((h.subobjects.len() as u16) as nat == h.subobjects.len());
}

/// Parsing a row of headers off its own encoding.
#[verifier::spinoff_prover]
#[verifier::rlimit(100)]
proof fn lemma_parse_enc_headers(b: Seq<u8>, i: int, hs: Seq<HeaderV>)
    requires
        forall|j: int| 0 <= j < hs.len() ==> wf_header(#[trigger] hs[j]),
        0 <= i,
        i + enc_headers(hs).len() <= b.len(),
        b.subrange(i, i + enc_headers(hs).len() as int) == enc_headers(hs),
    ensures
        parse_headers(b, i, hs.len()) == Ok::<(Seq<HeaderV>, int), CodecError>(
            (hs, i + enc_headers(hs).len()),
        ),
    decreases hs.len(),
{
    if hs.len() == 0 {
        assert(hs =~= Seq::<HeaderV>::empty());
    } else {
        let e = enc_headers(hs);
        let e1 = enc_header(hs[0]);
        let n1 = e1.len() as int;
        let rest = enc_headers(hs.drop_first());
        assert(e == e1 + rest);
        assert(b.subrange(i, i + n1) =~= e1) by {
            assert forall|j: int| 0 <= j < n1 implies b.subrange(i, i + n1)[j] == e1[j] by {
                assert(b.subrange(i, i + e.len() as int)[j] == b[i + j]);
            }
        }
        lemma_parse_enc_header(b, i, hs[0]);
        assert(b.subrange(i + n1, i + n1 + rest.len()) =~= rest) by {
            assert forall|j: int| 0 <= j < rest.len() implies b.subrange(
                i + n1,
                i + n1 + rest.len(),
            )[j] == rest[j] by {
                assert(b.subrange(i, i + e.len() as int)[n1 + j] == b[i + n1 + j]);
                assert(e[n1 + j] == rest[j]);
            }
        }
        assert forall|j: int| 0 <= j < hs.drop_first().len() implies wf_header(
            #[trigger] hs.drop_first()[j],
        ) by {
            assert(hs.drop_first()[j] == hs[j + 1]);
        }
        lemma_parse_enc_headers(b, i + n1, hs.drop_first());
        assert(seq![hs[0]] + hs.drop_first() =~= hs);
        assert((hs.drop_first().len() + 1) as nat == hs.len());
    }
}

/// Parsing a content off its own encoding.
#[verifier::spinoff_prover]
#[verifier::rlimit(100)]
proof fn lemma_parse_enc_content(b: Seq<u8>, i: int, c: ContentV)
    requires
        wf_content(c),
        0 <= i,
        i + enc_content(c).len() <= b.len(),
        b.subrange(i, i + enc_content(c).len() as int) == enc_content(c),
    ensures
        parse_content(b, i) == Ok::<(ContentV, int), CodecError>((c, i + enc_content(c).len())),
{
    let e = enc_content(c);
    let e1 = enc_str(c.tag);
    let n1 = e1.len() as int;
    let e2 = enc_str(c.id);
    let n2 = e2.len() as int;
    let e3 = c.progress.payload;
    assert(e == e1 + e2 + e3);
    lemma_tag_table(c.progress.kind);
    assert(b.subrange(i, i + n1) =~= e1) by {
        assert forall|j: int| 0 <= j < n1 implies b.subrange(i, i + n1)[j] == e1[j] by {
            assert(b.subrange(i, i + e.len() as int)[j] == b[i + j]);
        }
    }
    lemma_parse_enc_str(b, i, c.tag);
    assert(b.subrange(i + n1, i + n1 + n2) =~= e2) by {
        assert forall|j: int| 0 <= j < n2 implies b.subrange(i + n1, i + n1 + n2)[j] == e2[j] by {
            assert(b.subrange(i, i + e.len() as int)[n1 + j] == b[i + n1 + j]);
            assert(e[n1 + j] == e2[j]);
        }
    }
    lemma_parse_enc_str(b, i + n1, c.id);
    assert(b.subrange(i + n1 + n2, i + n1 + n2 + e3.len()) =~= e3) by {
        assert forall|j: int| 0 <= j < e3.len() implies b.subrange(
            i + n1 + n2,
            i + n1 + n2 + e3.len(),
        )[j] == e3[j] by {
            assert(b.subrange(i, i + e.len() as int)[n1 + n2 + j] == b[i + n1 + n2 + j]);
            assert(e[n1 + n2 + j] == e3[j]);
        }
    }
    assert(parse_bytes(b, i + n1 + n2, payload_len(c.progress.kind) as int) == Ok::<
        (Seq<u8>, int),
        CodecError,
    >((e3, i + n1 + n2 + e3.len())));
}

/// Parsing a row of contents off its own encoding.
#[verifier::spinoff_prover]
#[verifier::rlimit(100)]
proof fn lemma_parse_enc_contents(b: Seq<u8>, i: int, cs: Seq<ContentV>)
    requires
        forall|j: int| 0 <= j < cs.len() ==> wf_content(#[trigger] cs[j]),
        0 <= i,
        i + enc_contents(cs).len() <= b.len(),
        b.subrange(i, i + enc_contents(cs).len() as int) == enc_contents(cs),
    ensures
        parse_contents(b, i, cs.len()) == Ok::<(Seq<ContentV>, int), CodecError>(
            (cs, i + enc_contents(cs).len()),
        ),
    decreases cs.len(),
{
    if cs.len() == 0 {
        assert(cs =~= Seq::<ContentV>::empty());
    } else {
        let e = enc_contents(cs);
        let e1 = enc_content(cs[0]);
        let n1 = e1.len() as int;
        let rest = enc_contents(cs.drop_first());
        assert(e == e1 + rest);
        assert(b.subrange(i, i + n1) =~= e1) by {
            assert forall|j: int| 0 <= j < n1 implies b.subrange(i, i + n1)[j] == e1[j] by {
                assert(b.subrange(i, i + e.len() as int)[j] == b[i + j]);
            }
        }
        lemma_parse_enc_content(b, i, cs[0]);
        assert(b.subrange(i + n1, i + n1 + rest.len()) =~= rest) by {
            assert forall|j: int| 0 <= j < rest.len() implies b.subrange(
                i + n1,
                i + n1 + rest.len(),
            )[j] == rest[j] by {
                assert(b.subrange(i, i + e.len() as int)[n1 + j] == b[i + n1 + j]);
                assert(e[n1 + j] == rest[j]);
            }
        }
        assert forall|j: int| 0 <= j < cs.drop_first().len() implies wf_content(
            #[trigger] cs.drop_first()[j],
        ) by {
            assert(cs.drop_first()[j] == cs[j + 1]);
        }
        lemma_parse_enc_contents(b, i + n1, cs.drop_first());
        assert(seq![cs[0]] + cs.drop_first() =~= cs);
        assert((cs.drop_first().len() + 1) as nat == cs.len());
    }
}

/// Parsing tracked values off their own encoding, which runs to the end of
/// the input.
#[verifier::spinoff_prover]
#[verifier::rlimit(100)]
proof fn lemma_parse_enc_tracked(b: Seq<u8>, i: int, ts: Seq<i16>)
    requires
        0 <= i,
        i + enc_i16s(ts).len() == b.len(),
        b.subrange(i, b.len() as int) == enc_i16s(ts),
    ensures
        parse_tracked(b, i) == Ok::<(Seq<i16>, int), CodecError>((ts, b.len() as int)),
    decreases ts.len(),
{
    lemma_auto_spec_u16_to_from_le_bytes();
    if ts.len() == 0 {
        assert(i == b.len());
        assert(ts =~= Seq::<i16>::empty());
    } else {
        let e = enc_i16s(ts);
        let e1 = enc_i16(ts[0]);
        let rest = enc_i16s(ts.drop_first());
        assert(e == e1 + rest);
        assert(e1.len() == 2);
        assert(i != b.len());
        assert(b.subrange(i, i + 2) =~= e1) by {
            assert forall|j: int| 0 <= j < 2 implies b.subrange(i, i + 2)[j] == e1[j] by {
                assert(b.subrange(i, b.len() as int)[j] == b[i + j]);
            }
        }
        let t0 = ts[0];
        assert(vstd::bytes::spec_u16_from_le_bytes(b.subrange(i, i + 2)) == t0 as u16);
        assert((t0 as u16) as i16 == t0) by (bit_vector);
        assert(b.subrange(i + 2, b.len() as int) =~= rest) by {
            assert forall|j: int| 0 <= j < rest.len() implies b.subrange(i + 2, b.len() as int)[j]
                == rest[j] by {
                assert(b.subrange(i, b.len() as int)[2 + j] == b[i + 2 + j]);
                assert(e[2 + j] == rest[j]);
            }
        }
        lemma_parse_enc_tracked(b, i + 2, ts.drop_first());
        assert(seq![ts[0]] + ts.drop_first() =~= ts);
    }
}

/// Peeling the first piece off a concatenation found at a position.
pub(crate) proof fn lemma_peel(b: Seq<u8>, i: int, x: Seq<u8>, y: Seq<u8>)
    requires
        0 <= i,
        i + x.len() + y.len() <= b.len(),
        b.subrange(i, i + x.len() + y.len()) == x + y,
    ensures
        b.subrange(i, i + x.len() as int) == x,
        b.subrange(i + x.len(), i + x.len() + y.len()) == y,
{
    assert(b.subrange(i, i + x.len() as int) =~= x) by {
        assert forall|j: int| 0 <= j < x.len() implies b.subrange(i, i + x.len() as int)[j] == x[j] by {
            assert(b.subrange(i, i + x.len() + y.len())[j] == b[i + j]);
            assert((x + y)[j] == x[j]);
        }
    }
    assert(b.subrange(i + x.len(), i + x.len() + y.len()) =~= y) by {
        assert forall|j: int| 0 <= j < y.len() implies b.subrange(
            i + x.len(),
            i + x.len() + y.len(),
        )[j] == y[j] by {
            assert(b.subrange(i, i + x.len() + y.len())[x.len() + j] == b[i + x.len() + j]);
            assert((x + y)[x.len() + j] == y[j]);
        }
    }
}

/// Round-trip: decoding what the encoder wrote gives back exactly the same
/// tree. Together with the encoder's contract this makes
/// `encode(decode(F)) == F` hold byte-for-byte for every file `F` the
/// encoder can produce.
#[verifier::spinoff_prover]
#[verifier::rlimit(100)]
pub proof fn lemma_parse_enc_file(f: FileV)
    requires
        wf_file(f),
    ensures
        parse_file(enc_file(f)) == Ok::<FileV, CodecError>(f),
{
    let b = enc_file(f);
    let v = f.version;
    let s1 = enc_i16s(v);
    let s2 = seq![f.unused];
    let s3 = enc_u16(f.headers.len() as u16);
    let s4 = enc_headers(f.headers);
    let s5 = enc_u32(f.contents.len() as u32);
    let s6 = enc_contents(f.contents);
    let s7 = enc_i16s(f.tracked_entries);
    assert(s3.len() == 2) by {
        lemma_auto_spec_u16_to_from_le_bytes();
    }
    assert(s5.len() == 4) by {
        lemma_auto_spec_u32_to_from_le_bytes();
    }

    let t1 = enc_i16(v[0]);
    let t2 = enc_i16(v[1]);
    let t3 = enc_i16(v[2]);
    let t4 = enc_i16(v[3]);
    assert(t1.len() == 2 && t2.len() == 2 && t3.len() == 2 && t4.len() == 2) by {
        lemma_auto_spec_u16_to_from_le_bytes();
    }
    let y4 = enc_i16s(v.skip(4));
    assert(v.skip(4).len() == 0);
    assert(y4 == Seq::<u8>::empty());
    assert(s1 == t1 + (t2 + (t3 + (t4 + y4)))) by {
        assert(v.drop_first() =~= v.skip(1));
        assert(v.skip(1).drop_first() =~= v.skip(2));
        assert(v.skip(2).drop_first() =~= v.skip(3));
        assert(v.skip(3).drop_first() =~= v.skip(4));
        assert(v.skip(1)[0] == v[1]);
        assert(v.skip(2)[0] == v[2]);
        assert(v.skip(3)[0] == v[3]);
        assert(enc_i16s(v.skip(3)) == t4 + enc_i16s(v.skip(4)));
        assert(enc_i16s(v.skip(2)) == t3 + enc_i16s(v.skip(3)));
        assert(enc_i16s(v.skip(1)) == t2 + enc_i16s(v.skip(2)));
        assert(enc_i16s(v) == t1 + enc_i16s(v.skip(1)));
    }
    assert(s1.len() == 8);
    assert(b.len() == 8 + 1 + 2 + s4.len() + 4 + s6.len() + s7.len());

    let r6 = s6 + s7;
    let r5 = s5 + r6;
    let r4 = s4 + r5;
    let r3 = s3 + r4;
    let r2 = s2 + r3;
    let r1 = s1 + r2;
    assert(b =~= r1);
    assert(b.subrange(0, b.len() as int) =~= b);
    lemma_peel(b, 0, s1, r2);
    lemma_peel(b, 8, s2, r3);
    lemma_peel(b, 9, s3, r4);
    lemma_peel(b, 11, s4, r5);
    let i7 = 11 + s4.len() as int;
    lemma_peel(b, i7, s5, r6);
    lemma_peel(b, i7 + 4, s6, s7);
    let i9 = i7 + 4 + s6.len() as int;

    // version quad
    lemma_peel(b, 0, t1, t2 + (t3 + (t4 + y4)));
    lemma_peel(b, 2, t2, t3 + (t4 + y4));
    lemma_peel(b, 4, t3, t4 + y4);
    lemma_peel(b, 6, t4, y4);
    lemma_parse_enc_i16(b, 0, v[0]);
    lemma_parse_enc_i16(b, 2, v[1]);
    lemma_parse_enc_i16(b, 4, v[2]);
    lemma_parse_enc_i16(b, 6, v[3]);

    // reserved byte
    assert(b.subrange(8, 9)[0] == b[8]);
    assert(b[8] == f.unused);
    assert(parse_u8(b, 8) == Ok::<(u8, int), CodecError>((f.unused, 9)));

    // headers
    lemma_parse_enc_u16(b, 9, f.headers.len() as u16);
    lemma_parse_enc_headers(b, 11, f.headers);
    assert((f.headers.len() as u16) as nat == f.headers.len());

    // contents
    lemma_parse_enc_u32(b, i7, f.contents.len() as u32);
    lemma_parse_enc_contents(b, i7 + 4, f.contents);
    assert((f.contents.len() as u32) as nat == f.contents.len());

    // tracked values
    lemma_parse_enc_tracked(b, i9, f.tracked_entries);

    assert(seq![v[0], v[1], v[2], v[3]] =~= f.version);
}

} // verus!
