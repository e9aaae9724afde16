//! The frame codec: length-prefixed framing and the payload encoding.
//!
//! Each IPC frame is a 4-byte big-endian length followed by that many
//! payload bytes.  The payload is a self-describing tagged encoding of a
//! request or response value: integers are fixed-width big-endian, strings
//! are a character count followed by one 32-bit scalar per character, byte
//! strings are a length followed by the raw bytes, and structured payload
//! values carry a leading tag byte.  Decoding is exact: a decoder accepts
//! precisely the byte strings the encoder produces, and decoding an
//! encoding returns the encoded value.

use vstd::prelude::*;

use crate::json::{JsonValue, JsonView, json_views, json_member_views, lemma_json_views_index,
    lemma_json_views_len, lemma_json_member_views_index, lemma_json_member_views_len};
use crate::protocol::{Request, RequestBody, RequestView, RequestBodyView, Response, ResponseBody,
    ResponseView, ResponseBodyView, Message, MessageView, AppAnnouncement, AppAnnouncementView,
    string_views, message_views, announcement_views, option_string_view};

verus! {

broadcast use vstd::std_specs::vec::group_vec_axioms, vstd::seq::group_seq_axioms;

/// Structured payload values nested more deeply than this are refused
/// by the decoder.
pub const PAYLOAD_DEPTH_LIMIT: u64 = 64;

// ---------------------------------------------------------------------
// Fixed-width big-endian integers
// ---------------------------------------------------------------------

/// The two big-endian bytes of a 16-bit integer.
pub open spec fn u16_be(x: u16) -> Seq<u8> {
    seq![(x >> 8) as u8, x as u8]
}

/// The four big-endian bytes of a 32-bit integer.
pub open spec fn u32_be(x: u32) -> Seq<u8> {
    seq![(x >> 24) as u8, (x >> 16) as u8, (x >> 8) as u8, x as u8]
}

/// The eight big-endian bytes of a 64-bit integer.
pub open spec fn u64_be(x: u64) -> Seq<u8> {
    seq![
        (x >> 56) as u8,
        (x >> 48) as u8,
        (x >> 40) as u8,
        (x >> 32) as u8,
        (x >> 24) as u8,
        (x >> 16) as u8,
        (x >> 8) as u8,
        x as u8,
    ]
}

/// The 16-bit integer held in two big-endian bytes.
pub open spec fn u16_of_be(b: Seq<u8>) -> u16
    recommends
        b.len() == 2,
{
    ((b[0] as u16) << 8) | (b[1] as u16)
}

/// The 32-bit integer held in four big-endian bytes.
pub open spec fn u32_of_be(b: Seq<u8>) -> u32
    recommends
        b.len() == 4,
{
    ((b[0] as u32) << 24) | ((b[1] as u32) << 16) | ((b[2] as u32) << 8) | (b[3] as u32)
}

/// The 64-bit integer held in eight big-endian bytes.
pub open spec fn u64_of_be(b: Seq<u8>) -> u64
    recommends
        b.len() == 8,
{
    ((b[0] as u64) << 56) | ((b[1] as u64) << 48) | ((b[2] as u64) << 40) | ((b[3] as u64) << 32)
        | ((b[4] as u64) << 24) | ((b[5] as u64) << 16) | ((b[6] as u64) << 8) | (b[7] as u64)
}

/// Reads a 16-bit integer from the front of `b`.
pub open spec fn sdec_u16(b: Seq<u8>) -> Option<(u16, Seq<u8>)> {
    if b.len() >= 2 {
        Option::Some((u16_of_be(b.take(2)), b.skip(2)))
    } else {
        Option::None
    }
}

/// Reads a 32-bit integer from the front of `b`.
pub open spec fn sdec_u32(b: Seq<u8>) -> Option<(u32, Seq<u8>)> {
    if b.len() >= 4 {
        Option::Some((u32_of_be(b.take(4)), b.skip(4)))
    } else {
        Option::None
    }
}

/// Reads a 64-bit integer from the front of `b`.
pub open spec fn sdec_u64(b: Seq<u8>) -> Option<(u64, Seq<u8>)> {
    if b.len() >= 8 {
        Option::Some((u64_of_be(b.take(8)), b.skip(8)))
    } else {
        Option::None
    }
}

/// Decoding the encoding of a 16-bit integer yields it back.
pub proof fn lemma_u16_rt(x: u16, rest: Seq<u8>)
    ensures
        sdec_u16(u16_be(x) + rest) == Option::Some((x, rest)),
{
    let b = u16_be(x) + rest;
    assert(b.take(2) =~= u16_be(x));
    assert(b.skip(2) =~= rest);
    assert(((((x >> 8) as u8) as u16) << 8 | ((x as u8) as u16)) == x) by (bit_vector);
}

/// Decoding the encoding of a 32-bit integer yields it back.
pub proof fn lemma_u32_rt(x: u32, rest: Seq<u8>)
    ensures
        sdec_u32(u32_be(x) + rest) == Option::Some((x, rest)),
{
    let b = u32_be(x) + rest;
    assert(b.take(4) =~= u32_be(x));
    assert(b.skip(4) =~= rest);
    assert(((((x >> 24) as u8) as u32) << 24 | (((x >> 16) as u8) as u32) << 16
        | (((x >> 8) as u8) as u32) << 8 | ((x as u8) as u32)) == x) by (bit_vector);
}

/// Decoding the encoding of a 64-bit integer yields it back.
pub proof fn lemma_u64_rt(x: u64, rest: Seq<u8>)
    ensures
        sdec_u64(u64_be(x) + rest) == Option::Some((x, rest)),
{
    let b = u64_be(x) + rest;
    assert(b.take(8) =~= u64_be(x));
    assert(b.skip(8) =~= rest);
    assert(((((x >> 56) as u8) as u64) << 56 | (((x >> 48) as u8) as u64) << 48
        | (((x >> 40) as u8) as u64) << 40 | (((x >> 32) as u8) as u64) << 32
        | (((x >> 24) as u8) as u64) << 24 | (((x >> 16) as u8) as u64) << 16
        | (((x >> 8) as u8) as u64) << 8 | ((x as u8) as u64)) == x) by (bit_vector);
}

/// Appends the two big-endian bytes of `x` to `out`.
fn enc_u16(out: &mut Vec<u8>, x: u16)
    ensures
        final(out)@ == old(out)@ + u16_be(x),
{
    out.push((x >> 8) as u8);
    out.push(x as u8);
    assert(final(out)@ =~= old(out)@ + u16_be(x));
}

/// Appends the four big-endian bytes of `x` to `out`.
fn enc_u32(out: &mut Vec<u8>, x: u32)
    ensures
        final(out)@ == old(out)@ + u32_be(x),
{
    out.push((x >> 24) as u8);
    out.push((x >> 16) as u8);
    out.push((x >> 8) as u8);
    out.push(x as u8);
    assert(final(out)@ =~= old(out)@ + u32_be(x));
}

/// Appends the eight big-endian bytes of `x` to `out`.
fn enc_u64(out: &mut Vec<u8>, x: u64)
    ensures
        final(out)@ == old(out)@ + u64_be(x),
{
    out.push((x >> 56) as u8);
    out.push((x >> 48) as u8);
    out.push((x >> 40) as u8);
    out.push((x >> 32) as u8);
    out.push((x >> 24) as u8);
    out.push((x >> 16) as u8);
    out.push((x >> 8) as u8);
    out.push(x as u8);
    assert(final(out)@ =~= old(out)@ + u64_be(x));
}

/// Reads a 16-bit integer at `pos`, returning it with the next position.
fn dec_u16(buf: &Vec<u8>, pos: usize) -> (r: Option<(u16, usize)>)
    requires
        pos <= buf@.len(),
    ensures
        match r {
            Option::Some((x, end)) => {
                &&& pos <= end <= buf@.len()
                &&& sdec_u16(buf@.skip(pos as int)) == Option::Some((x, buf@.skip(end as int)))
            },
            Option::None => sdec_u16(buf@.skip(pos as int)) is None,
        },
{
    if buf.len() - pos >= 2 {
        let x: u16 = ((buf[pos] as u16) << 8) | (buf[pos + 1] as u16);
        proof {
            let t = buf@.skip(pos as int);
            assert(t.take(2)[0] == buf@[pos as int]);
            assert(t.take(2)[1] == buf@[pos as int + 1]);
            assert(t.skip(2) =~= buf@.skip(pos as int + 2));
        }
        Option::Some((x, pos + 2))
    } else {
        Option::None
    }
}

/// Reads a 32-bit integer at `pos`, returning it with the next position.
fn dec_u32(buf: &Vec<u8>, pos: usize) -> (r: Option<(u32, usize)>)
    requires
        pos <= buf@.len(),
    ensures
        match r {
            Option::Some((x, end)) => {
                &&& pos <= end <= buf@.len()
                &&& sdec_u32(buf@.skip(pos as int)) == Option::Some((x, buf@.skip(end as int)))
            },
            Option::None => sdec_u32(buf@.skip(pos as int)) is None,
        },
{
    if buf.len() - pos >= 4 {
        let x: u32 = ((buf[pos] as u32) << 24) | ((buf[pos + 1] as u32) << 16)
            | ((buf[pos + 2] as u32) << 8) | (buf[pos + 3] as u32);
        proof {
            let t = buf@.skip(pos as int);
            assert(forall|i: int| 0 <= i < 4 ==> t.take(4)[i] == buf@[pos as int + i]);
            assert(t.skip(4) =~= buf@.skip(pos as int + 4));
        }
        Option::Some((x, pos + 4))
    } else {
        Option::None
    }
}

/// Reads a 64-bit integer at `pos`, returning it with the next position.
fn dec_u64(buf: &Vec<u8>, pos: usize) -> (r: Option<(u64, usize)>)
    requires
        pos <= buf@.len(),
    ensures
        match r {
            Option::Some((x, end)) => {
                &&& pos <= end <= buf@.len()
                &&& sdec_u64(buf@.skip(pos as int)) == Option::Some((x, buf@.skip(end as int)))
            },
            Option::None => sdec_u64(buf@.skip(pos as int)) is None,
        },
{
    if buf.len() - pos >= 8 {
        let x: u64 = ((buf[pos] as u64) << 56) | ((buf[pos + 1] as u64) << 48)
            | ((buf[pos + 2] as u64) << 40) | ((buf[pos + 3] as u64) << 32)
            | ((buf[pos + 4] as u64) << 24) | ((buf[pos + 5] as u64) << 16)
            | ((buf[pos + 6] as u64) << 8) | (buf[pos + 7] as u64);
        proof {
            let t = buf@.skip(pos as int);
            assert(forall|i: int| 0 <= i < 8 ==> t.take(8)[i] == buf@[pos as int + i]);
            assert(t.skip(8) =~= buf@.skip(pos as int + 8));
        }
        Option::Some((x, pos + 8))
    } else {
        Option::None
    }
}

// ---------------------------------------------------------------------
// Characters, strings and byte strings
// ---------------------------------------------------------------------

/// Whether `v` is a Unicode scalar value, that is, the code of a `char`.
pub open spec fn is_scalar_value(v: u32) -> bool {
    v <= 0x10FFFF && !(0xD800 <= v && v <= 0xDFFF)
}

/// Every character's code is a Unicode scalar value, and taking a
/// character's code and casting it back yields the same character.
pub proof fn lemma_char_scalar(c: char)
    ensures
        is_scalar_value(c as u32),
        (c as u32) as char == c,
{
}

/// Relies on `char::from_u32`: it returns the character with scalar
/// value `v` when `v` is a Unicode scalar value, and `None` otherwise.
#[verifier::external_body]
fn char_from_u32(v: u32) -> (r: Option<char>)
    ensures
        r is Some <==> is_scalar_value(v),
        r matches Option::Some(c) ==> c as u32 == v,
{
    char::from_u32(v)
}

/// Relies on `String::push`: it appends one character to the string.
#[verifier::external_body]
fn push_char(s: &mut String, c: char)
    ensures
        final(s)@ == old(s)@.push(c),
{
    s.push(c);
}

/// The encoding of a character sequence: one 32-bit scalar each.
pub open spec fn senc_chars(s: Seq<char>) -> Seq<u8>
    decreases s.len(),
{
    if s.len() == 0 {
        Seq::empty()
    } else {
        u32_be(s[0] as u32) + senc_chars(s.drop_first())
    }
}

/// The encoding of a string: a character count, then the characters.
pub open spec fn senc_str(s: Seq<char>) -> Seq<u8> {
    u64_be(s.len() as u64) + senc_chars(s)
}

/// Reads `n` characters from the front of `b`.
pub open spec fn sdec_chars(b: Seq<u8>, n: u64) -> Option<(Seq<char>, Seq<u8>)>
    decreases n,
{
    if n == 0 {
        Option::Some((Seq::empty(), b))
    } else {
        match sdec_u32(b) {
            Option::None => Option::None,
            Option::Some((v, rest)) => if is_scalar_value(v) {
                match sdec_chars(rest, (n - 1) as u64) {
                    Option::None => Option::None,
                    Option::Some((cs, r2)) => Option::Some((seq![v as char] + cs, r2)),
                }
            } else {
                Option::None
            },
        }
    }
}

/// Reads a string from the front of `b`.
pub open spec fn sdec_str(b: Seq<u8>) -> Option<(Seq<char>, Seq<u8>)> {
    match sdec_u64(b) {
        Option::None => Option::None,
        Option::Some((n, rest)) => sdec_chars(rest, n),
    }
}

/// Whether a string is short enough for its length prefix.
pub open spec fn str_wf(s: Seq<char>) -> bool {
    s.len() <= 0xffff_ffff_ffff_ffff
}

/// Decoding the encoding of a character sequence yields it back.
pub proof fn lemma_chars_rt(s: Seq<char>, rest: Seq<u8>)
    requires
        s.len() <= 0xffff_ffff_ffff_ffff,
    ensures
        sdec_chars(senc_chars(s) + rest, s.len() as u64) == Option::Some((s, rest)),
    decreases s.len(),
{
    if s.len() == 0 {
        assert(senc_chars(s) + rest =~= rest);
        assert(s =~= Seq::<char>::empty());
    } else {
        let c = s[0];
        let s2 = s.drop_first();
        assert(senc_chars(s) + rest =~= u32_be(c as u32) + (senc_chars(s2) + rest));
        lemma_u32_rt(c as u32, senc_chars(s2) + rest);
        lemma_char_scalar(c);
        lemma_chars_rt(s2, rest);
        assert(seq![c] + s2 =~= s);
    }
}

/// Decoding the encoding of a string yields it back.
pub proof fn lemma_str_rt(s: Seq<char>, rest: Seq<u8>)
    requires
        str_wf(s),
    ensures
        sdec_str(senc_str(s) + rest) == Option::Some((s, rest)),
{
    assert(senc_str(s) + rest =~= u64_be(s.len() as u64) + (senc_chars(s) + rest));
    lemma_u64_rt(s.len() as u64, senc_chars(s) + rest);
    lemma_chars_rt(s, rest);
}

/// Appends the encoding of a string to `out`.
#[verifier::loop_isolation(false)]
fn enc_str(out: &mut Vec<u8>, s: &str)
    ensures
        final(out)@ == old(out)@ + senc_str(s@),
{
    let n = s.unicode_len();
    enc_u64(out, n as u64);
    proof {
        assert(s@.skip(0) =~= s@);
    }
    let mut i: usize = 0;
    while i < n
        invariant
            i <= n,
            out@ + senc_chars(s@.skip(i as int)) == old(out)@ + senc_str(s@),
        decreases n - i,
    {
        let c = s.get_char(i);
        proof {
            let t = s@.skip(i as int);
            assert(t[0] == s@[i as int]);
            assert(t.drop_first() =~= s@.skip(i as int + 1));
            assert(out@ + (u32_be(c as u32) + senc_chars(s@.skip(i as int + 1)))
                =~= (out@ + u32_be(c as u32)) + senc_chars(s@.skip(i as int + 1)));
        }
        enc_u32(out, c as u32);
        i += 1;
    }
    proof {
        assert(s@.skip(n as int) =~= Seq::<char>::empty());
        assert(out@ + Seq::<u8>::empty() =~= out@);
    }
}

/// Folds an already-read prefix into the result of a character read.
pub open spec fn chars_prepend(pre: Seq<char>, r: Option<(Seq<char>, Seq<u8>)>) -> Option<
    (Seq<char>, Seq<u8>),
> {
    match r {
        Option::None => Option::None,
        Option::Some((cs, rest)) => Option::Some((pre + cs, rest)),
    }
}

/// Reads a string at `pos`, returning it with the next position.
#[verifier::loop_isolation(false)]
#[verifier::rlimit(100)]
#[verifier::spinoff_prover]
fn dec_str(buf: &Vec<u8>, pos: usize) -> (r: Option<(String, usize)>)
    requires
        pos <= buf@.len(),
    ensures
        match r {
            Option::Some((s, end)) => {
                &&& pos <= end <= buf@.len()
                &&& sdec_str(buf@.skip(pos as int)) == Option::Some((s@, buf@.skip(end as int)))
            },
            Option::None => sdec_str(buf@.skip(pos as int)) is None,
        },
{
    match dec_u64(buf, pos) {
        Option::None => Option::None,
        Option::Some((n, start)) => {
            let mut s = String::new();
            let mut p = start;
            let mut i: u64 = 0;
            loop
                invariant
                    i <= n,
                    start <= p <= buf@.len(),
                    s@.len() == i,
                    sdec_chars(buf@.skip(start as int), n) == chars_prepend(
                        s@,
                        sdec_chars(buf@.skip(p as int), (n - i) as u64),
                    ),
                decreases n - i,
            {
                if i == n {
                    break;
                }
                match dec_u32(buf, p) {
                    Option::None => {
                        return Option::None;
                    },
                    Option::Some((v, p2)) => {
                        match char_from_u32(v) {
                            Option::None => {
                                return Option::None;
                            },
                            Option::Some(c) => {
                                proof {
                                    let cur = buf@.skip(p as int);
                                    let nxt = buf@.skip(p2 as int);
                                    lemma_char_scalar(c);
                                    let q0 = sdec_chars(nxt, (n - i - 1) as u64);
                                    assert(sdec_chars(cur, (n - i) as u64) == chars_prepend(
                                        seq![c],
                                        q0,
                                    ));
                                    if q0 is Some {
                                        let pair = q0->0;
                                        assert(s@ + (seq![c] + pair.0) =~= s@.push(c) + pair.0);
                                    }
                                }
                                push_char(&mut s, c);
                                p = p2;
                                i += 1;
                            },
                        }
                    },
                }
            }
            proof {
                assert(sdec_chars(buf@.skip(p as int), 0) == Option::Some(
                    (Seq::<char>::empty(), buf@.skip(p as int)),
                ));
                assert(s@ + Seq::<char>::empty() =~= s@);
            }
            Option::Some((s, p))
        },
    }
}

/// The encoding of a byte string: a length, then the raw bytes.
pub open spec fn senc_bytes(d: Seq<u8>) -> Seq<u8> {
    u64_be(d.len() as u64) + d
}

/// Reads a byte string from the front of `b`.
pub open spec fn sdec_bytes(b: Seq<u8>) -> Option<(Seq<u8>, Seq<u8>)> {
    match sdec_u64(b) {
        Option::None => Option::None,
        Option::Some((n, rest)) => if n <= rest.len() {
            Option::Some((rest.take(n as int), rest.skip(n as int)))
        } else {
            Option::None
        },
    }
}

/// Whether a byte string is short enough for its length prefix.
pub open spec fn bytes_wf(d: Seq<u8>) -> bool {
    d.len() <= 0xffff_ffff_ffff_ffff
}

/// Decoding the encoding of a byte string yields it back.
pub proof fn lemma_bytes_rt(d: Seq<u8>, rest: Seq<u8>)
    requires
        bytes_wf(d),
    ensures
        sdec_bytes(senc_bytes(d) + rest) == Option::Some((d, rest)),
{
    assert(senc_bytes(d) + rest =~= u64_be(d.len() as u64) + (d + rest));
    lemma_u64_rt(d.len() as u64, d + rest);
    assert((d + rest).take(d.len() as int) =~= d);
    assert((d + rest).skip(d.len() as int) =~= rest);
}

/// Appends the encoding of a byte string to `out`.
#[verifier::loop_isolation(false)]
fn enc_bytes(out: &mut Vec<u8>, d: &Vec<u8>)
    ensures
        final(out)@ == old(out)@ + senc_bytes(d@),
{
    enc_u64(out, d.len() as u64);
    let mut i: usize = 0;
    while i < d.len()
        invariant
            i <= d@.len(),
            out@ == old(out)@ + u64_be(d@.len() as u64) + d@.take(i as int),
        decreases d@.len() - i,
    {
        out.push(d[i]);
        proof {
            assert(old(out)@ + u64_be(d@.len() as u64) + d@.take(i as int) + seq![d@[i as int]]
                =~= old(out)@ + u64_be(d@.len() as u64) + d@.take(i as int + 1));
        }
        i += 1;
    }
    proof {
        assert(d@.take(d@.len() as int) =~= d@);
        assert(old(out)@ + u64_be(d@.len() as u64) + d@ =~= old(out)@ + senc_bytes(d@));
    }
}

/// Reads a byte string at `pos`, returning it with the next position.
#[verifier::loop_isolation(false)]
fn dec_bytes(buf: &Vec<u8>, pos: usize) -> (r: Option<(Vec<u8>, usize)>)
    requires
        pos <= buf@.len(),
    ensures
        match r {
            Option::Some((d, end)) => {
                &&& pos <= end <= buf@.len()
                &&& sdec_bytes(buf@.skip(pos as int)) == Option::Some((d@, buf@.skip(end as int)))
            },
            Option::None => sdec_bytes(buf@.skip(pos as int)) is None,
        },
{
    match dec_u64(buf, pos) {
        Option::None => Option::None,
        Option::Some((n, start)) => {
            if n > (buf.len() - start) as u64 {
                return Option::None;
            }
            let n_usize = n as usize;
            let mut d: Vec<u8> = Vec::new();
            let mut i: usize = 0;
            while i < n_usize
                invariant
                    i <= n_usize,
                    n_usize == n,
                    start + n_usize <= buf@.len(),
                    d@ == buf@.skip(start as int).take(n as int).take(i as int),
                decreases n_usize - i,
            {
                d.push(buf[start + i]);
                proof {
                    let full = buf@.skip(start as int).take(n as int);
                    assert(full.take(i as int).push(buf@[start as int + i as int])
                        =~= full.take(i as int + 1));
                }
                i += 1;
            }
            proof {
                let full = buf@.skip(start as int).take(n as int);
                assert(full.take(n as int) =~= full);
                assert(buf@.skip(start as int).skip(n as int)
                    =~= buf@.skip(start as int + n as int));
            }
            Option::Some((d, start + n_usize))
        },
    }
}

// ---------------------------------------------------------------------
// Structured payload values
// ---------------------------------------------------------------------

/// Reads a byte at `pos`.
fn dec_u8(buf: &Vec<u8>, pos: usize) -> (r: Option<(u8, usize)>)
    requires
        pos <= buf@.len(),
    ensures
        match r {
            Option::Some((x, end)) => {
                &&& pos < end <= buf@.len()
                &&& end == pos + 1
                &&& buf@.skip(pos as int).len() >= 1
                &&& x == buf@.skip(pos as int)[0]
                &&& buf@.skip(end as int) == buf@.skip(pos as int).skip(1)
            },
            Option::None => buf@.skip(pos as int).len() == 0,
        },
{
    if pos < buf.len() {
        proof {
            assert(buf@.skip(pos as int + 1) =~= buf@.skip(pos as int).skip(1));
        }
        Option::Some((buf[pos], pos + 1))
    } else {
        Option::None
    }
}

/// The encoding of one payload value: a tag byte, then its fields.
pub open spec fn senc_json(j: JsonView) -> Seq<u8>
    decreases j,
    via senc_json_decreases
{
    match j {
        JsonView::Null => seq![0u8],
        JsonView::Bool(b) => if b {
            seq![2u8]
        } else {
            seq![1u8]
        },
        JsonView::Num(n) => seq![3u8] + senc_str(n),
        JsonView::Text(s) => seq![4u8] + senc_str(s),
        JsonView::Array(items) => seq![5u8] + u64_be(items.len() as u64) + senc_jlist(items),
        JsonView::Object(members) => seq![6u8] + u64_be(members.len() as u64) + senc_jmembers(
            members,
        ),
    }
}

/// The concatenated encodings of a sequence of payload values.
pub open spec fn senc_jlist(s: Seq<JsonView>) -> Seq<u8>
    decreases s,
    via senc_jlist_decreases
{
    if s.len() == 0 {
        Seq::empty()
    } else {
        senc_json(s[0]) + senc_jlist(s.drop_first())
    }
}

/// The concatenated encodings of a sequence of object members.
pub open spec fn senc_jmembers(s: Seq<(Seq<char>, JsonView)>) -> Seq<u8>
    decreases s,
    via senc_jmembers_decreases
{
    if s.len() == 0 {
        Seq::empty()
    } else {
        senc_str(s[0].0) + senc_json(s[0].1) + senc_jmembers(s.drop_first())
    }
}

#[via_fn]
proof fn senc_json_decreases(j: JsonView) {
}

#[via_fn]
proof fn senc_jlist_decreases(s: Seq<JsonView>) {
    if s.len() != 0 {
        assert(decreases_to!(s => s[0]));
        assert(decreases_to!(s => s.subrange(1, s.len() as int)));
    }
}

#[via_fn]
proof fn senc_jmembers_decreases(s: Seq<(Seq<char>, JsonView)>) {
    if s.len() != 0 {
        assert(decreases_to!(s => s[0]));
        assert(decreases_to!(s => s.subrange(1, s.len() as int)));
    }
}

/// Reads one payload value from the front of `b`, refusing values
/// nested more deeply than `d`.
pub open spec fn sdec_json(b: Seq<u8>, d: u64) -> Option<(JsonView, Seq<u8>)>
    decreases d, 0int, 0int,
{
    if d == 0 || b.len() < 1 {
        Option::None
    } else {
        let rest = b.skip(1);
        if b[0] == 0 {
            Option::Some((JsonView::Null, rest))
        } else if b[0] == 1 {
            Option::Some((JsonView::Bool(false), rest))
        } else if b[0] == 2 {
            Option::Some((JsonView::Bool(true), rest))
        } else if b[0] == 3 {
            match sdec_str(rest) {
                Option::None => Option::None,
                Option::Some((n, r)) => Option::Some((JsonView::Num(n), r)),
            }
        } else if b[0] == 4 {
            match sdec_str(rest) {
                Option::None => Option::None,
                Option::Some((s, r)) => Option::Some((JsonView::Text(s), r)),
            }
        } else if b[0] == 5 {
            match sdec_u64(rest) {
                Option::None => Option::None,
                Option::Some((n, r)) => match sdec_jlist(r, n, (d - 1) as u64) {
                    Option::None => Option::None,
                    Option::Some((items, r2)) => Option::Some((JsonView::Array(items), r2)),
                },
            }
        } else if b[0] == 6 {
            match sdec_u64(rest) {
                Option::None => Option::None,
                Option::Some((n, r)) => match sdec_jmembers(r, n, (d - 1) as u64) {
                    Option::None => Option::None,
                    Option::Some((members, r2)) => Option::Some((JsonView::Object(members), r2)),
                },
            }
        } else {
            Option::None
        }
    }
}

/// Reads `n` payload values from the front of `b`.
pub open spec fn sdec_jlist(b: Seq<u8>, n: u64, d: u64) -> Option<(Seq<JsonView>, Seq<u8>)>
    decreases d, 1int, n,
{
    if n == 0 {
        Option::Some((Seq::empty(), b))
    } else {
        match sdec_json(b, d) {
            Option::None => Option::None,
            Option::Some((j, r)) => match sdec_jlist(r, (n - 1) as u64, d) {
                Option::None => Option::None,
                Option::Some((js, r2)) => Option::Some((seq![j] + js, r2)),
            },
        }
    }
}

/// Reads `n` object members from the front of `b`.
pub open spec fn sdec_jmembers(b: Seq<u8>, n: u64, d: u64) -> Option<
    (Seq<(Seq<char>, JsonView)>, Seq<u8>),
>
    decreases d, 1int, n,
{
    if n == 0 {
        Option::Some((Seq::empty(), b))
    } else {
        match sdec_str(b) {
            Option::None => Option::None,
            Option::Some((k, r0)) => match sdec_json(r0, d) {
                Option::None => Option::None,
                Option::Some((j, r)) => match sdec_jmembers(r, (n - 1) as u64, d) {
                    Option::None => Option::None,
                    Option::Some((ms, r2)) => Option::Some((seq![(k, j)] + ms, r2)),
                },
            },
        }
    }
}

/// Whether a payload value fits in depth budget `d` with all its
/// strings and collections short enough for their length prefixes.
pub open spec fn jwf(j: JsonView, d: int) -> bool
    decreases j,
    via jwf_decreases
{
    d >= 1 && match j {
        JsonView::Null => true,
        JsonView::Bool(_) => true,
        JsonView::Num(n) => str_wf(n),
        JsonView::Text(s) => str_wf(s),
        JsonView::Array(items) => items.len() <= 0xffff_ffff_ffff_ffff && (forall|i: int|
            #![trigger items[i]]
            0 <= i < items.len() ==> jwf(items[i], d - 1)),
        JsonView::Object(members) => members.len() <= 0xffff_ffff_ffff_ffff && (forall|i: int|
            #![trigger members[i]]
            0 <= i < members.len() ==> str_wf(members[i].0) && jwf(members[i].1, d - 1)),
    }
}

#[via_fn]
proof fn jwf_decreases(j: JsonView, d: int) {
}

/// Decoding the encoding of a payload value yields it back.
#[verifier::rlimit(100)]
pub proof fn lemma_json_rt(j: JsonView, d: u64, rest: Seq<u8>)
    requires
        jwf(j, d as int),
    ensures
        sdec_json(senc_json(j) + rest, d) == Option::Some((j, rest)),
    decreases j,
{
    let b = senc_json(j) + rest;
    assert(b.len() >= 1 && b[0] == senc_json(j)[0]);
    match j {
        JsonView::Null => {
            assert(b.skip(1) =~= rest);
        },
        JsonView::Bool(v) => {
            assert(b.skip(1) =~= rest);
        },
        JsonView::Num(n) => {
            assert(b.skip(1) =~= senc_str(n) + rest);
            lemma_str_rt(n, rest);
        },
        JsonView::Text(s) => {
            assert(b.skip(1) =~= senc_str(s) + rest);
            lemma_str_rt(s, rest);
        },
        JsonView::Array(items) => {
            assert(b.skip(1) =~= u64_be(items.len() as u64) + (senc_jlist(items) + rest));
            lemma_u64_rt(items.len() as u64, senc_jlist(items) + rest);
            assert forall|i: int| #![trigger items[i]] 0 <= i < items.len() implies jwf(
                items[i],
                ((d - 1) as u64) as int,
            ) by {
                assert(jwf(items[i], d as int - 1));
            }
            lemma_jlist_rt(items, (d - 1) as u64, rest);
        },
        JsonView::Object(members) => {
            assert(b.skip(1) =~= u64_be(members.len() as u64) + (senc_jmembers(members) + rest));
            lemma_u64_rt(members.len() as u64, senc_jmembers(members) + rest);
            assert forall|i: int| #![trigger members[i]] 0 <= i < members.len() implies str_wf(
                members[i].0,
            ) && jwf(members[i].1, ((d - 1) as u64) as int) by {
                assert(str_wf(members[i].0) && jwf(members[i].1, d as int - 1));
            }
            lemma_jmembers_rt(members, (d - 1) as u64, rest);
        },
    }
}

/// Decoding the encodings of a value sequence yields it back.
#[verifier::rlimit(100)]
pub proof fn lemma_jlist_rt(s: Seq<JsonView>, d: u64, rest: Seq<u8>)
    requires
        s.len() <= 0xffff_ffff_ffff_ffff,
        forall|i: int| #![trigger s[i]] 0 <= i < s.len() ==> jwf(s[i], d as int),
    ensures
        sdec_jlist(senc_jlist(s) + rest, s.len() as u64, d) == Option::Some((s, rest)),
    decreases s,
{
    if s.len() == 0 {
        assert(senc_jlist(s) + rest =~= rest);
        assert(s =~= Seq::<JsonView>::empty());
    } else {
        let s2 = s.drop_first();
        assert(decreases_to!(s => s[0]));
        assert(decreases_to!(s => s.subrange(1, s.len() as int)));
        assert(senc_jlist(s) + rest =~= senc_json(s[0]) + (senc_jlist(s2) + rest));
        lemma_json_rt(s[0], d, senc_jlist(s2) + rest);
        lemma_jlist_rt(s2, d, rest);
        assert(seq![s[0]] + s2 =~= s);
    }
}

/// Decoding the encodings of a member sequence yields it back.
#[verifier::rlimit(100)]
pub proof fn lemma_jmembers_rt(s: Seq<(Seq<char>, JsonView)>, d: u64, rest: Seq<u8>)
    requires
        s.len() <= 0xffff_ffff_ffff_ffff,
        forall|i: int| #![trigger s[i]] 0 <= i < s.len() ==> str_wf(s[i].0) && jwf(s[i].1, d as int),
    ensures
        sdec_jmembers(senc_jmembers(s) + rest, s.len() as u64, d) == Option::Some((s, rest)),
    decreases s,
{
    if s.len() == 0 {
        assert(senc_jmembers(s) + rest =~= rest);
        assert(s =~= Seq::<(Seq<char>, JsonView)>::empty());
    } else {
        let s2 = s.drop_first();
        assert(decreases_to!(s => s[0]));
        assert(decreases_to!(s => s.subrange(1, s.len() as int)));
        assert(senc_jmembers(s) + rest =~= senc_str(s[0].0) + (senc_json(s[0].1) + (senc_jmembers(
            s2,
        ) + rest)));
        lemma_str_rt(s[0].0, senc_json(s[0].1) + (senc_jmembers(s2) + rest));
        lemma_json_rt(s[0].1, d, senc_jmembers(s2) + rest);
        lemma_jmembers_rt(s2, d, rest);
        assert(seq![(s[0].0, s[0].1)] + s2 =~= s);
        assert((s[0].0, s[0].1) == s[0]);
    }
}

/// Appends the encoding of a payload value to `out`.
#[verifier::loop_isolation(false)]
#[verifier::rlimit(100)]
fn enc_json(out: &mut Vec<u8>, v: &JsonValue)
    ensures
        final(out)@ == old(out)@ + senc_json(v@),
    decreases *v,
{
    match v {
        JsonValue::Null => {
            out.push(0u8);
            assert(final(out)@ =~= old(out)@ + senc_json(v@));
        },
        JsonValue::Bool(b) => {
            if *b {
                out.push(2u8);
            } else {
                out.push(1u8);
            }
            assert(final(out)@ =~= old(out)@ + senc_json(v@));
        },
        JsonValue::Num(n) => {
            out.push(3u8);
            enc_str(out, n.as_str());
            assert(final(out)@ =~= old(out)@ + senc_json(v@));
        },
        JsonValue::Text(s) => {
            out.push(4u8);
            enc_str(out, s.as_str());
            assert(final(out)@ =~= old(out)@ + senc_json(v@));
        },
        JsonValue::Array(items) => {
            out.push(5u8);
            enc_u64(out, items.len() as u64);
            let ghost views = json_views(items@);
            proof {
                lemma_json_views_len(items@);
                assert(views.skip(0) =~= views);
            }
            let mut i: usize = 0;
            while i < items.len()
                invariant
                    i <= items@.len(),
                    out@ + senc_jlist(views.skip(i as int)) == old(out)@ + senc_json(v@),
                decreases items@.len() - i,
            {
                proof {
                    lemma_json_views_index(items@, i as int);
                    let t = views.skip(i as int);
                    assert(t[0] == views[i as int]);
                    assert(t.drop_first() =~= views.skip(i as int + 1));
                    assert(*v == JsonValue::Array(*items));
                    assert(decreases_to!(JsonValue::Array(*items) => *items));
                    assert(decreases_to!(*items => items@));
                    assert(decreases_to!(items@ => items@[i as int]));
                    assert(out@ + (senc_json(views[i as int]) + senc_jlist(views.skip(i as int + 1)))
                        =~= (out@ + senc_json(views[i as int])) + senc_jlist(
                        views.skip(i as int + 1),
                    ));
                }
                enc_json(out, &items[i]);
                i += 1;
            }
            proof {
                assert(views.skip(items@.len() as int) =~= Seq::<JsonView>::empty());
                assert(out@ + Seq::<u8>::empty() =~= out@);
            }
        },
        JsonValue::Object(members) => {
            out.push(6u8);
            enc_u64(out, members.len() as u64);
            let ghost views = json_member_views(members@);
            proof {
                lemma_json_member_views_len(members@);
                assert(views.skip(0) =~= views);
            }
            let mut i: usize = 0;
            while i < members.len()
                invariant
                    i <= members@.len(),
                    out@ + senc_jmembers(views.skip(i as int)) == old(out)@ + senc_json(v@),
                decreases members@.len() - i,
            {
                proof {
                    lemma_json_member_views_index(members@, i as int);
                    let t = views.skip(i as int);
                    assert(t[0] == views[i as int]);
                    assert(t.drop_first() =~= views.skip(i as int + 1));
                    assert(*v == JsonValue::Object(*members));
                    assert(decreases_to!(JsonValue::Object(*members) => *members));
                    assert(decreases_to!(*members => members@));
                    assert(decreases_to!(members@ => members@[i as int]));
                    assert(decreases_to!(members@[i as int] => members@[i as int].1));
                    assert(out@ + (senc_str(views[i as int].0) + senc_json(views[i as int].1)
                        + senc_jmembers(views.skip(i as int + 1))) =~= ((out@ + senc_str(
                        views[i as int].0,
                    )) + senc_json(views[i as int].1)) + senc_jmembers(views.skip(i as int + 1)));
                }
                enc_str(out, members[i].0.as_str());
                enc_json(out, &members[i].1);
                i += 1;
            }
            proof {
                assert(views.skip(members@.len() as int) =~= Seq::<(Seq<char>, JsonView)>::empty());
                assert(out@ + Seq::<u8>::empty() =~= out@);
            }
        },
    }
}

/// Reads a payload value at `pos`, refusing values nested more deeply
/// than `d`.
#[verifier::rlimit(100)]
fn dec_json(buf: &Vec<u8>, pos: usize, d: u64) -> (r: Option<(JsonValue, usize)>)
    requires
        pos <= buf@.len(),
    ensures
        match r {
            Option::Some((v, end)) => {
                &&& pos <= end <= buf@.len()
                &&& sdec_json(buf@.skip(pos as int), d) == Option::Some(
                    (v@, buf@.skip(end as int)),
                )
            },
            Option::None => sdec_json(buf@.skip(pos as int), d) is None,
        },
    decreases d, 0int, 0int,
{
    if d == 0 {
        return Option::None;
    }
    match dec_u8(buf, pos) {
        Option::None => Option::None,
        Option::Some((tag, p1)) => {
            if tag == 0 {
                Option::Some((JsonValue::Null, p1))
            } else if tag == 1 {
                Option::Some((JsonValue::Bool(false), p1))
            } else if tag == 2 {
                Option::Some((JsonValue::Bool(true), p1))
            } else if tag == 3 {
                match dec_str(buf, p1) {
                    Option::None => Option::None,
                    Option::Some((n, p2)) => Option::Some((JsonValue::Num(n), p2)),
                }
            } else if tag == 4 {
                match dec_str(buf, p1) {
                    Option::None => Option::None,
                    Option::Some((t, p2)) => Option::Some((JsonValue::Text(t), p2)),
                }
            } else if tag == 5 {
                match dec_u64(buf, p1) {
                    Option::None => Option::None,
                    Option::Some((n, p2)) => {
                        match dec_jlist(buf, p2, n, d - 1) {
                            Option::None => Option::None,
                            Option::Some((items, p3)) => {
                                Option::Some((JsonValue::Array(items), p3))
                            },
                        }
                    },
                }
            } else if tag == 6 {
                match dec_u64(buf, p1) {
                    Option::None => Option::None,
                    Option::Some((n, p2)) => {
                        match dec_jmembers(buf, p2, n, d - 1) {
                            Option::None => Option::None,
                            Option::Some((members, p3)) => {
                                Option::Some((JsonValue::Object(members), p3))
                            },
                        }
                    },
                }
            } else {
                Option::None
            }
        },
    }
}

/// Reads `n` payload values at `pos`.
fn dec_jlist(buf: &Vec<u8>, pos: usize, n: u64, d: u64) -> (r: Option<(Vec<JsonValue>, usize)>)
    requires
        pos <= buf@.len(),
    ensures
        match r {
            Option::Some((vs, end)) => {
                &&& pos <= end <= buf@.len()
                &&& sdec_jlist(buf@.skip(pos as int), n, d) == Option::Some(
                    (json_views(vs@), buf@.skip(end as int)),
                )
            },
            Option::None => sdec_jlist(buf@.skip(pos as int), n, d) is None,
        },
    decreases d, 1int, n,
{
    if n == 0 {
        let vs: Vec<JsonValue> = Vec::new();
        proof {
            assert(json_views(vs@) =~= Seq::<JsonView>::empty());
        }
        return Option::Some((vs, pos));
    }
    match dec_json(buf, pos, d) {
        Option::None => Option::None,
        Option::Some((v, p1)) => {
            match dec_jlist(buf, p1, n - 1, d) {
                Option::None => Option::None,
                Option::Some((mut vs, p2)) => {
                    proof {
                        let t = vs@.insert(0, v);
                        assert(t =~= seq![v] + vs@);
                        assert(t[0] == v);
                        assert(t.drop_first() =~= vs@);
                        assert(json_views(t) == seq![v@] + json_views(vs@));
                    }
                    vs.insert(0, v);
                    Option::Some((vs, p2))
                },
            }
        },
    }
}

/// Reads `n` object members at `pos`.
fn dec_jmembers(buf: &Vec<u8>, pos: usize, n: u64, d: u64) -> (r: Option<
    (Vec<(String, JsonValue)>, usize),
>)
    requires
        pos <= buf@.len(),
    ensures
        match r {
            Option::Some((ms, end)) => {
                &&& pos <= end <= buf@.len()
                &&& sdec_jmembers(buf@.skip(pos as int), n, d) == Option::Some(
                    (json_member_views(ms@), buf@.skip(end as int)),
                )
            },
            Option::None => sdec_jmembers(buf@.skip(pos as int), n, d) is None,
        },
    decreases d, 1int, n,
{
    if n == 0 {
        let ms: Vec<(String, JsonValue)> = Vec::new();
        proof {
            assert(json_member_views(ms@) =~= Seq::<(Seq<char>, JsonView)>::empty());
        }
        return Option::Some((ms, pos));
    }
    match dec_str(buf, pos) {
        Option::None => Option::None,
        Option::Some((k, p0)) => {
            match dec_json(buf, p0, d) {
                Option::None => Option::None,
                Option::Some((v, p1)) => {
                    match dec_jmembers(buf, p1, n - 1, d) {
                        Option::None => Option::None,
                        Option::Some((mut ms, p2)) => {
                            proof {
                                let t = ms@.insert(0, (k, v));
                                assert(t =~= seq![(k, v)] + ms@);
                                assert(t[0] == (k, v));
                                assert(t.drop_first() =~= ms@);
                                assert(json_member_views(t) == seq![(k@, v@)] + json_member_views(
                                    ms@,
                                ));
                            }
                            ms.insert(0, (k, v));
                            Option::Some((ms, p2))
                        },
                    }
                },
            }
        },
    }
}

// ---------------------------------------------------------------------
// Protocol building blocks
// ---------------------------------------------------------------------

/// The encoding of an optional string.
pub open spec fn senc_opt_str(o: Option<Seq<char>>) -> Seq<u8> {
    match o {
        Option::None => seq![0u8],
        Option::Some(t) => seq![1u8] + senc_str(t),
    }
}

/// Reads an optional string from the front of `b`.
pub open spec fn sdec_opt_str(b: Seq<u8>) -> Option<(Option<Seq<char>>, Seq<u8>)> {
    if b.len() < 1 {
        Option::None
    } else if b[0] == 0 {
        Option::Some((Option::None, b.skip(1)))
    } else if b[0] == 1 {
        match sdec_str(b.skip(1)) {
            Option::None => Option::None,
            Option::Some((t, r)) => Option::Some((Option::Some(t), r)),
        }
    } else {
        Option::None
    }
}

/// Decoding the encoding of an optional string yields it back.
pub proof fn lemma_opt_str_rt(o: Option<Seq<char>>, rest: Seq<u8>)
    requires
        o matches Option::Some(t) ==> str_wf(t),
    ensures
        sdec_opt_str(senc_opt_str(o) + rest) == Option::Some((o, rest)),
{
    let b = senc_opt_str(o) + rest;
    match o {
        Option::None => {
            assert(b.skip(1) =~= rest);
        },
        Option::Some(t) => {
            assert(b.skip(1) =~= senc_str(t) + rest);
            lemma_str_rt(t, rest);
        },
    }
}

/// Appends the encoding of an optional string to `out`.
fn enc_opt_str(out: &mut Vec<u8>, o: &Option<String>)
    ensures
        final(out)@ == old(out)@ + senc_opt_str(option_string_view(*o)),
{
    match o {
        Option::None => {
            out.push(0u8);
            assert(final(out)@ =~= old(out)@ + senc_opt_str(option_string_view(*o)));
        },
        Option::Some(t) => {
            out.push(1u8);
            enc_str(out, t.as_str());
            assert(final(out)@ =~= old(out)@ + senc_opt_str(option_string_view(*o)));
        },
    }
}

/// Reads an optional string at `pos`.
fn dec_opt_str(buf: &Vec<u8>, pos: usize) -> (r: Option<(Option<String>, usize)>)
    requires
        pos <= buf@.len(),
    ensures
        match r {
            Option::Some((o, end)) => {
                &&& pos <= end <= buf@.len()
                &&& sdec_opt_str(buf@.skip(pos as int)) == Option::Some(
                    (option_string_view(o), buf@.skip(end as int)),
                )
            },
            Option::None => sdec_opt_str(buf@.skip(pos as int)) is None,
        },
{
    match dec_u8(buf, pos) {
        Option::None => Option::None,
        Option::Some((tag, p1)) => {
            if tag == 0 {
                Option::Some((Option::None, p1))
            } else if tag == 1 {
                match dec_str(buf, p1) {
                    Option::None => Option::None,
                    Option::Some((t, p2)) => Option::Some((Option::Some(t), p2)),
                }
            } else {
                Option::None
            }
        },
    }
}

/// The encoding of an optional 16-bit integer.
pub open spec fn senc_opt_u16(o: Option<u16>) -> Seq<u8> {
    match o {
        Option::None => seq![0u8],
        Option::Some(x) => seq![1u8] + u16_be(x),
    }
}

/// Reads an optional 16-bit integer from the front of `b`.
pub open spec fn sdec_opt_u16(b: Seq<u8>) -> Option<(Option<u16>, Seq<u8>)> {
    if b.len() < 1 {
        Option::None
    } else if b[0] == 0 {
        Option::Some((Option::None, b.skip(1)))
    } else if b[0] == 1 {
        match sdec_u16(b.skip(1)) {
            Option::None => Option::None,
            Option::Some((x, r)) => Option::Some((Option::Some(x), r)),
        }
    } else {
        Option::None
    }
}

/// Decoding the encoding of an optional 16-bit integer yields it back.
pub proof fn lemma_opt_u16_rt(o: Option<u16>, rest: Seq<u8>)
    ensures
        sdec_opt_u16(senc_opt_u16(o) + rest) == Option::Some((o, rest)),
{
    let b = senc_opt_u16(o) + rest;
    match o {
        Option::None => {
            assert(b.skip(1) =~= rest);
        },
        Option::Some(x) => {
            assert(b.skip(1) =~= u16_be(x) + rest);
            lemma_u16_rt(x, rest);
        },
    }
}

/// Appends the encoding of an optional 16-bit integer to `out`.
fn enc_opt_u16(out: &mut Vec<u8>, o: &Option<u16>)
    ensures
        final(out)@ == old(out)@ + senc_opt_u16(*o),
{
    match o {
        Option::None => {
            out.push(0u8);
            assert(final(out)@ =~= old(out)@ + senc_opt_u16(*o));
        },
        Option::Some(x) => {
            out.push(1u8);
            enc_u16(out, *x);
            assert(final(out)@ =~= old(out)@ + senc_opt_u16(*o));
        },
    }
}

/// Reads an optional 16-bit integer at `pos`.
fn dec_opt_u16(buf: &Vec<u8>, pos: usize) -> (r: Option<(Option<u16>, usize)>)
    requires
        pos <= buf@.len(),
    ensures
        match r {
            Option::Some((o, end)) => {
                &&& pos <= end <= buf@.len()
                &&& sdec_opt_u16(buf@.skip(pos as int)) == Option::Some(
                    (o, buf@.skip(end as int)),
                )
            },
            Option::None => sdec_opt_u16(buf@.skip(pos as int)) is None,
        },
{
    match dec_u8(buf, pos) {
        Option::None => Option::None,
        Option::Some((tag, p1)) => {
            if tag == 0 {
                Option::Some((Option::None, p1))
            } else if tag == 1 {
                match dec_u16(buf, p1) {
                    Option::None => Option::None,
                    Option::Some((x, p2)) => Option::Some((Option::Some(x), p2)),
                }
            } else {
                Option::None
            }
        },
    }
}

/// The concatenated encodings of a sequence of strings.
pub open spec fn senc_strs(s: Seq<Seq<char>>) -> Seq<u8>
    decreases s.len(),
{
    if s.len() == 0 {
        Seq::empty()
    } else {
        senc_str(s[0]) + senc_strs(s.drop_first())
    }
}

/// The encoding of a string list: a count, then the strings.
pub open spec fn senc_strlist(s: Seq<Seq<char>>) -> Seq<u8> {
    u64_be(s.len() as u64) + senc_strs(s)
}

/// Reads `n` strings from the front of `b`.
pub open spec fn sdec_strs(b: Seq<u8>, n: u64) -> Option<(Seq<Seq<char>>, Seq<u8>)>
    decreases n,
{
    if n == 0 {
        Option::Some((Seq::empty(), b))
    } else {
        match sdec_str(b) {
            Option::None => Option::None,
            Option::Some((t, r)) => match sdec_strs(r, (n - 1) as u64) {
                Option::None => Option::None,
                Option::Some((ts, r2)) => Option::Some((seq![t] + ts, r2)),
            },
        }
    }
}

/// Reads a string list from the front of `b`.
pub open spec fn sdec_strlist(b: Seq<u8>) -> Option<(Seq<Seq<char>>, Seq<u8>)> {
    match sdec_u64(b) {
        Option::None => Option::None,
        Option::Some((n, r)) => sdec_strs(r, n),
    }
}

/// Whether a string list fits its length prefixes.
pub open spec fn strlist_wf(s: Seq<Seq<char>>) -> bool {
    s.len() <= 0xffff_ffff_ffff_ffff && (forall|i: int|
        #![trigger s[i]]
        0 <= i < s.len() ==> str_wf(s[i]))
}

/// Decoding the encodings of a string sequence yields it back.
pub proof fn lemma_strs_rt(s: Seq<Seq<char>>, rest: Seq<u8>)
    requires
        strlist_wf(s),
    ensures
        sdec_strs(senc_strs(s) + rest, s.len() as u64) == Option::Some((s, rest)),
    decreases s.len(),
{
    if s.len() == 0 {
        assert(senc_strs(s) + rest =~= rest);
        assert(s =~= Seq::<Seq<char>>::empty());
    } else {
        let s2 = s.drop_first();
        assert(senc_strs(s) + rest =~= senc_str(s[0]) + (senc_strs(s2) + rest));
        lemma_str_rt(s[0], senc_strs(s2) + rest);
        lemma_strs_rt(s2, rest);
        assert(seq![s[0]] + s2 =~= s);
    }
}

/// Decoding the encoding of a counted string list yields it back.
pub proof fn lemma_strlist_rt(s: Seq<Seq<char>>, rest: Seq<u8>)
    requires
        strlist_wf(s),
    ensures
        sdec_strlist(senc_strlist(s) + rest) == Option::Some((s, rest)),
{
    assert(senc_strlist(s) + rest =~= u64_be(s.len() as u64) + (senc_strs(s) + rest));
    lemma_u64_rt(s.len() as u64, senc_strs(s) + rest);
    lemma_strs_rt(s, rest);
}

/// Appends the encoding of a string list to `out`.
#[verifier::loop_isolation(false)]
fn enc_strlist(out: &mut Vec<u8>, v: &Vec<String>)
    ensures
        final(out)@ == old(out)@ + senc_strlist(string_views(v@)),
{
    enc_u64(out, v.len() as u64);
    let ghost views = string_views(v@);
    proof {
        assert(views.skip(0) =~= views);
    }
    let mut i: usize = 0;
    while i < v.len()
        invariant
            i <= v@.len(),
            out@ + senc_strs(views.skip(i as int)) == old(out)@ + senc_strlist(views),
        decreases v@.len() - i,
    {
        proof {
            let t = views.skip(i as int);
            assert(t[0] == views[i as int]);
            assert(t.drop_first() =~= views.skip(i as int + 1));
            assert(out@ + (senc_str(views[i as int]) + senc_strs(views.skip(i as int + 1)))
                =~= (out@ + senc_str(views[i as int])) + senc_strs(views.skip(i as int + 1)));
        }
        enc_str(out, v[i].as_str());
        i += 1;
    }
    proof {
        assert(views.skip(v@.len() as int) =~= Seq::<Seq<char>>::empty());
        assert(out@ + Seq::<u8>::empty() =~= out@);
    }
}

/// Reads `n` strings at `pos`.
fn dec_strs(buf: &Vec<u8>, pos: usize, n: u64) -> (r: Option<(Vec<String>, usize)>)
    requires
        pos <= buf@.len(),
    ensures
        match r {
            Option::Some((vs, end)) => {
                &&& pos <= end <= buf@.len()
                &&& sdec_strs(buf@.skip(pos as int), n) == Option::Some(
                    (string_views(vs@), buf@.skip(end as int)),
                )
            },
            Option::None => sdec_strs(buf@.skip(pos as int), n) is None,
        },
    decreases n,
{
    if n == 0 {
        let vs: Vec<String> = Vec::new();
        proof {
            assert(string_views(vs@) =~= Seq::<Seq<char>>::empty());
        }
        return Option::Some((vs, pos));
    }
    match dec_str(buf, pos) {
        Option::None => Option::None,
        Option::Some((t, p1)) => {
            match dec_strs(buf, p1, n - 1) {
                Option::None => Option::None,
                Option::Some((mut vs, p2)) => {
                    proof {
                        let w = vs@.insert(0, t);
                        assert(string_views(w) =~= seq![t@] + string_views(vs@));
                    }
                    vs.insert(0, t);
                    Option::Some((vs, p2))
                },
            }
        },
    }
}

/// Reads a string list at `pos`.
fn dec_strlist(buf: &Vec<u8>, pos: usize) -> (r: Option<(Vec<String>, usize)>)
    requires
        pos <= buf@.len(),
    ensures
        match r {
            Option::Some((vs, end)) => {
                &&& pos <= end <= buf@.len()
                &&& sdec_strlist(buf@.skip(pos as int)) == Option::Some(
                    (string_views(vs@), buf@.skip(end as int)),
                )
            },
            Option::None => sdec_strlist(buf@.skip(pos as int)) is None,
        },
{
    match dec_u64(buf, pos) {
        Option::None => Option::None,
        Option::Some((n, p1)) => dec_strs(buf, p1, n),
    }
}

/// The encoding of one inbox message.
pub open spec fn senc_message(m: MessageView) -> Seq<u8> {
    u64_be(m.id) + senc_str(m.peer) + senc_str(m.uuid) + senc_bytes(m.message)
}

/// Reads one inbox message from the front of `b`.
pub open spec fn sdec_message(b: Seq<u8>) -> Option<(MessageView, Seq<u8>)> {
    match sdec_u64(b) {
        Option::None => Option::None,
        Option::Some((id, r0)) => match sdec_str(r0) {
            Option::None => Option::None,
            Option::Some((peer, r1)) => match sdec_str(r1) {
                Option::None => Option::None,
                Option::Some((uuid, r2)) => match sdec_bytes(r2) {
                    Option::None => Option::None,
                    Option::Some((data, r3)) => Option::Some(
                        (MessageView { id, peer, uuid, message: data }, r3),
                    ),
                },
            },
        },
    }
}

/// Whether an inbox message fits its length prefixes.
pub open spec fn message_wf(m: MessageView) -> bool {
    str_wf(m.peer) && str_wf(m.uuid) && bytes_wf(m.message)
}

/// Decoding the encoding of an inbox message yields it back.
pub proof fn lemma_message_rt(m: MessageView, rest: Seq<u8>)
    requires
        message_wf(m),
    ensures
        sdec_message(senc_message(m) + rest) == Option::Some((m, rest)),
{
    let t3 = senc_bytes(m.message) + rest;
    let t2 = senc_str(m.uuid) + t3;
    let t1 = senc_str(m.peer) + t2;
    assert(senc_message(m) + rest =~= u64_be(m.id) + t1);
    lemma_u64_rt(m.id, t1);
    lemma_str_rt(m.peer, t2);
    lemma_str_rt(m.uuid, t3);
    lemma_bytes_rt(m.message, rest);
}

/// Appends the encoding of an inbox message to `out`.
fn enc_message(out: &mut Vec<u8>, m: &Message)
    ensures
        final(out)@ == old(out)@ + senc_message(m@),
{
    enc_u64(out, m.id);
    enc_str(out, m.peer.as_str());
    enc_str(out, m.uuid.as_str());
    enc_bytes(out, &m.message);
    assert(final(out)@ =~= old(out)@ + senc_message(m@));
}

/// Reads an inbox message at `pos`.
fn dec_message(buf: &Vec<u8>, pos: usize) -> (r: Option<(Message, usize)>)
    requires
        pos <= buf@.len(),
    ensures
        match r {
            Option::Some((m, end)) => {
                &&& pos <= end <= buf@.len()
                &&& sdec_message(buf@.skip(pos as int)) == Option::Some(
                    (m@, buf@.skip(end as int)),
                )
            },
            Option::None => sdec_message(buf@.skip(pos as int)) is None,
        },
{
    match dec_u64(buf, pos) {
        Option::None => Option::None,
        Option::Some((id, p0)) => match dec_str(buf, p0) {
            Option::None => Option::None,
            Option::Some((peer, p1)) => match dec_str(buf, p1) {
                Option::None => Option::None,
                Option::Some((uuid, p2)) => match dec_bytes(buf, p2) {
                    Option::None => Option::None,
                    Option::Some((data, p3)) => Option::Some(
                        (Message { id, peer, uuid, message: data }, p3),
                    ),
                },
            },
        },
    }
}

/// The concatenated encodings of a sequence of inbox messages.
pub open spec fn senc_messages(s: Seq<MessageView>) -> Seq<u8>
    decreases s.len(),
{
    if s.len() == 0 {
        Seq::empty()
    } else {
        senc_message(s[0]) + senc_messages(s.drop_first())
    }
}

/// The encoding of a message list: a count, then the messages.
pub open spec fn senc_msglist(s: Seq<MessageView>) -> Seq<u8> {
    u64_be(s.len() as u64) + senc_messages(s)
}

/// Reads `n` inbox messages from the front of `b`.
pub open spec fn sdec_messages(b: Seq<u8>, n: u64) -> Option<(Seq<MessageView>, Seq<u8>)>
    decreases n,
{
    if n == 0 {
        Option::Some((Seq::empty(), b))
    } else {
        match sdec_message(b) {
            Option::None => Option::None,
            Option::Some((m, r)) => match sdec_messages(r, (n - 1) as u64) {
                Option::None => Option::None,
                Option::Some((ms, r2)) => Option::Some((seq![m] + ms, r2)),
            },
        }
    }
}

/// Reads a message list from the front of `b`.
pub open spec fn sdec_msglist(b: Seq<u8>) -> Option<(Seq<MessageView>, Seq<u8>)> {
    match sdec_u64(b) {
        Option::None => Option::None,
        Option::Some((n, r)) => sdec_messages(r, n),
    }
}

/// Whether a message list fits its length prefixes.
pub open spec fn msglist_wf(s: Seq<MessageView>) -> bool {
    s.len() <= 0xffff_ffff_ffff_ffff && (forall|i: int|
        #![trigger s[i]]
        0 <= i < s.len() ==> message_wf(s[i]))
}

/// Decoding the encodings of a message sequence yields it back.
pub proof fn lemma_messages_rt(s: Seq<MessageView>, rest: Seq<u8>)
    requires
        msglist_wf(s),
    ensures
        sdec_messages(senc_messages(s) + rest, s.len() as u64) == Option::Some((s, rest)),
    decreases s.len(),
{
    if s.len() == 0 {
        assert(senc_messages(s) + rest =~= rest);
        assert(s =~= Seq::<MessageView>::empty());
    } else {
        let s2 = s.drop_first();
        assert(senc_messages(s) + rest =~= senc_message(s[0]) + (senc_messages(s2) + rest));
        lemma_message_rt(s[0], senc_messages(s2) + rest);
        lemma_messages_rt(s2, rest);
        assert(seq![s[0]] + s2 =~= s);
    }
}

/// Decoding the encoding of a counted message list yields it back.
pub proof fn lemma_msglist_rt(s: Seq<MessageView>, rest: Seq<u8>)
    requires
        msglist_wf(s),
    ensures
        sdec_msglist(senc_msglist(s) + rest) == Option::Some((s, rest)),
{
    assert(senc_msglist(s) + rest =~= u64_be(s.len() as u64) + (senc_messages(s) + rest));
    lemma_u64_rt(s.len() as u64, senc_messages(s) + rest);
    lemma_messages_rt(s, rest);
}

/// Appends the encoding of a message list to `out`.
#[verifier::loop_isolation(false)]
fn enc_msglist(out: &mut Vec<u8>, v: &Vec<Message>)
    ensures
        final(out)@ == old(out)@ + senc_msglist(message_views(v@)),
{
    enc_u64(out, v.len() as u64);
    let ghost views = message_views(v@);
    proof {
        assert(views.skip(0) =~= views);
    }
    let mut i: usize = 0;
    while i < v.len()
        invariant
            i <= v@.len(),
            out@ + senc_messages(views.skip(i as int)) == old(out)@ + senc_msglist(views),
        decreases v@.len() - i,
    {
        proof {
            let t = views.skip(i as int);
            assert(t[0] == views[i as int]);
            assert(t.drop_first() =~= views.skip(i as int + 1));
            assert(out@ + (senc_message(views[i as int]) + senc_messages(views.skip(i as int + 1)))
                =~= (out@ + senc_message(views[i as int])) + senc_messages(views.skip(i as int + 1)));
        }
        enc_message(out, &v[i]);
        i += 1;
    }
    proof {
        assert(views.skip(v@.len() as int) =~= Seq::<MessageView>::empty());
        assert(out@ + Seq::<u8>::empty() =~= out@);
    }
}

/// Reads `n` inbox messages at `pos`.
fn dec_messages(buf: &Vec<u8>, pos: usize, n: u64) -> (r: Option<(Vec<Message>, usize)>)
    requires
        pos <= buf@.len(),
    ensures
        match r {
            Option::Some((vs, end)) => {
                &&& pos <= end <= buf@.len()
                &&& sdec_messages(buf@.skip(pos as int), n) == Option::Some(
                    (message_views(vs@), buf@.skip(end as int)),
                )
            },
            Option::None => sdec_messages(buf@.skip(pos as int), n) is None,
        },
    decreases n,
{
    if n == 0 {
        let vs: Vec<Message> = Vec::new();
        proof {
            assert(message_views(vs@) =~= Seq::<MessageView>::empty());
        }
        return Option::Some((vs, pos));
    }
    match dec_message(buf, pos) {
        Option::None => Option::None,
        Option::Some((m, p1)) => {
            match dec_messages(buf, p1, n - 1) {
                Option::None => Option::None,
                Option::Some((mut vs, p2)) => {
                    proof {
                        let w = vs@.insert(0, m);
                        assert(message_views(w) =~= seq![m@] + message_views(vs@));
                    }
                    vs.insert(0, m);
                    Option::Some((vs, p2))
                },
            }
        },
    }
}

/// Reads a message list at `pos`.
fn dec_msglist(buf: &Vec<u8>, pos: usize) -> (r: Option<(Vec<Message>, usize)>)
    requires
        pos <= buf@.len(),
    ensures
        match r {
            Option::Some((vs, end)) => {
                &&& pos <= end <= buf@.len()
                &&& sdec_msglist(buf@.skip(pos as int)) == Option::Some(
                    (message_views(vs@), buf@.skip(end as int)),
                )
            },
            Option::None => sdec_msglist(buf@.skip(pos as int)) is None,
        },
{
    match dec_u64(buf, pos) {
        Option::None => Option::None,
        Option::Some((n, p1)) => dec_messages(buf, p1, n),
    }
}

/// The encoding of one stored announcement.
pub open spec fn senc_announcement(a: AppAnnouncementView) -> Seq<u8> {
    senc_str(a.peer) + senc_str(a.app_uuid) + senc_json(a.data)
}

/// Reads one stored announcement from the front of `b`.
pub open spec fn sdec_announcement(b: Seq<u8>) -> Option<(AppAnnouncementView, Seq<u8>)> {
    match sdec_str(b) {
        Option::None => Option::None,
        Option::Some((peer, r0)) => match sdec_str(r0) {
            Option::None => Option::None,
            Option::Some((uuid, r1)) => match sdec_json(r1, PAYLOAD_DEPTH_LIMIT) {
                Option::None => Option::None,
                Option::Some((data, r2)) => Option::Some(
                    (AppAnnouncementView { peer, app_uuid: uuid, data }, r2),
                ),
            },
        },
    }
}

/// Whether a stored announcement fits its length prefixes and the
/// payload depth limit.
pub open spec fn announcement_wf(a: AppAnnouncementView) -> bool {
    str_wf(a.peer) && str_wf(a.app_uuid) && jwf(a.data, PAYLOAD_DEPTH_LIMIT as int)
}

/// Decoding the encoding of a stored announcement yields it back.
pub proof fn lemma_announcement_rt(a: AppAnnouncementView, rest: Seq<u8>)
    requires
        announcement_wf(a),
    ensures
        sdec_announcement(senc_announcement(a) + rest) == Option::Some((a, rest)),
{
    let t2 = senc_json(a.data) + rest;
    let t1 = senc_str(a.app_uuid) + t2;
    assert(senc_announcement(a) + rest =~= senc_str(a.peer) + t1);
    lemma_str_rt(a.peer, t1);
    lemma_str_rt(a.app_uuid, t2);
    lemma_json_rt(a.data, PAYLOAD_DEPTH_LIMIT, rest);
}

/// Appends the encoding of a stored announcement to `out`.
fn enc_announcement(out: &mut Vec<u8>, a: &AppAnnouncement)
    ensures
        final(out)@ == old(out)@ + senc_announcement(a@),
{
    enc_str(out, a.peer.as_str());
    enc_str(out, a.app_uuid.as_str());
    enc_json(out, &a.data);
    assert(final(out)@ =~= old(out)@ + senc_announcement(a@));
}

/// Reads a stored announcement at `pos`.
fn dec_announcement(buf: &Vec<u8>, pos: usize) -> (r: Option<(AppAnnouncement, usize)>)
    requires
        pos <= buf@.len(),
    ensures
        match r {
            Option::Some((a, end)) => {
                &&& pos <= end <= buf@.len()
                &&& sdec_announcement(buf@.skip(pos as int)) == Option::Some(
                    (a@, buf@.skip(end as int)),
                )
            },
            Option::None => sdec_announcement(buf@.skip(pos as int)) is None,
        },
{
    match dec_str(buf, pos) {
        Option::None => Option::None,
        Option::Some((peer, p0)) => match dec_str(buf, p0) {
            Option::None => Option::None,
            Option::Some((uuid, p1)) => match dec_json(buf, p1, PAYLOAD_DEPTH_LIMIT) {
                Option::None => Option::None,
                Option::Some((data, p2)) => Option::Some(
                    (AppAnnouncement { peer, app_uuid: uuid, data }, p2),
                ),
            },
        },
    }
}

/// The concatenated encodings of a sequence of announcements.
pub open spec fn senc_announcements(s: Seq<AppAnnouncementView>) -> Seq<u8>
    decreases s.len(),
{
    if s.len() == 0 {
        Seq::empty()
    } else {
        senc_announcement(s[0]) + senc_announcements(s.drop_first())
    }
}

/// The encoding of an announcement list: a count, then the entries.
pub open spec fn senc_annlist(s: Seq<AppAnnouncementView>) -> Seq<u8> {
    u64_be(s.len() as u64) + senc_announcements(s)
}

/// Reads `n` announcements from the front of `b`.
pub open spec fn sdec_announcements(b: Seq<u8>, n: u64) -> Option<
    (Seq<AppAnnouncementView>, Seq<u8>),
>
    decreases n,
{
    if n == 0 {
        Option::Some((Seq::empty(), b))
    } else {
        match sdec_announcement(b) {
            Option::None => Option::None,
            Option::Some((a, r)) => match sdec_announcements(r, (n - 1) as u64) {
                Option::None => Option::None,
                Option::Some((asq, r2)) => Option::Some((seq![a] + asq, r2)),
            },
        }
    }
}

/// Reads an announcement list from the front of `b`.
pub open spec fn sdec_annlist(b: Seq<u8>) -> Option<(Seq<AppAnnouncementView>, Seq<u8>)> {
    match sdec_u64(b) {
        Option::None => Option::None,
        Option::Some((n, r)) => sdec_announcements(r, n),
    }
}

/// Whether an announcement list fits its length prefixes.
pub open spec fn annlist_wf(s: Seq<AppAnnouncementView>) -> bool {
    s.len() <= 0xffff_ffff_ffff_ffff && (forall|i: int|
        #![trigger s[i]]
        0 <= i < s.len() ==> announcement_wf(s[i]))
}

/// Decoding the encodings of an announcement sequence yields it back.
pub proof fn lemma_announcements_rt(s: Seq<AppAnnouncementView>, rest: Seq<u8>)
    requires
        annlist_wf(s),
    ensures
        sdec_announcements(senc_announcements(s) + rest, s.len() as u64) == Option::Some(
            (s, rest),
        ),
    decreases s.len(),
{
    if s.len() == 0 {
        assert(senc_announcements(s) + rest =~= rest);
        assert(s =~= Seq::<AppAnnouncementView>::empty());
    } else {
        let s2 = s.drop_first();
        assert(senc_announcements(s) + rest =~= senc_announcement(s[0]) + (senc_announcements(s2)
            + rest));
        lemma_announcement_rt(s[0], senc_announcements(s2) + rest);
        lemma_announcements_rt(s2, rest);
        assert(seq![s[0]] + s2 =~= s);
    }
}

/// Decoding the encoding of a counted announcement list yields it back.
pub proof fn lemma_annlist_rt(s: Seq<AppAnnouncementView>, rest: Seq<u8>)
    requires
        annlist_wf(s),
    ensures
        sdec_annlist(senc_annlist(s) + rest) == Option::Some((s, rest)),
{
    assert(senc_annlist(s) + rest =~= u64_be(s.len() as u64) + (senc_announcements(s) + rest));
    lemma_u64_rt(s.len() as u64, senc_announcements(s) + rest);
    lemma_announcements_rt(s, rest);
}

/// Appends the encoding of an announcement list to `out`.
#[verifier::loop_isolation(false)]
fn enc_annlist(out: &mut Vec<u8>, v: &Vec<AppAnnouncement>)
    ensures
        final(out)@ == old(out)@ + senc_annlist(announcement_views(v@)),
{
    enc_u64(out, v.len() as u64);
    let ghost views = announcement_views(v@);
    proof {
        assert(views.skip(0) =~= views);
    }
    let mut i: usize = 0;
    while i < v.len()
        invariant
            i <= v@.len(),
            out@ + senc_announcements(views.skip(i as int)) == old(out)@ + senc_annlist(views),
        decreases v@.len() - i,
    {
        proof {
            let t = views.skip(i as int);
            assert(t[0] == views[i as int]);
            assert(t.drop_first() =~= views.skip(i as int + 1));
            assert(out@ + (senc_announcement(views[i as int]) + senc_announcements(
                views.skip(i as int + 1),
            )) =~= (out@ + senc_announcement(views[i as int])) + senc_announcements(
                views.skip(i as int + 1),
            ));
        }
        enc_announcement(out, &v[i]);
        i += 1;
    }
    proof {
        assert(views.skip(v@.len() as int) =~= Seq::<AppAnnouncementView>::empty());
        assert(out@ + Seq::<u8>::empty() =~= out@);
    }
}

/// Reads `n` announcements at `pos`.
fn dec_announcements(buf: &Vec<u8>, pos: usize, n: u64) -> (r: Option<
    (Vec<AppAnnouncement>, usize),
>)
    requires
        pos <= buf@.len(),
    ensures
        match r {
            Option::Some((vs, end)) => {
                &&& pos <= end <= buf@.len()
                &&& sdec_announcements(buf@.skip(pos as int), n) == Option::Some(
                    (announcement_views(vs@), buf@.skip(end as int)),
                )
            },
            Option::None => sdec_announcements(buf@.skip(pos as int), n) is None,
        },
    decreases n,
{
    if n == 0 {
        let vs: Vec<AppAnnouncement> = Vec::new();
        proof {
            assert(announcement_views(vs@) =~= Seq::<AppAnnouncementView>::empty());
        }
        return Option::Some((vs, pos));
    }
    match dec_announcement(buf, pos) {
        Option::None => Option::None,
        Option::Some((a, p1)) => {
            match dec_announcements(buf, p1, n - 1) {
                Option::None => Option::None,
                Option::Some((mut vs, p2)) => {
                    proof {
                        let w = vs@.insert(0, a);
                        assert(announcement_views(w) =~= seq![a@] + announcement_views(vs@));
                    }
                    vs.insert(0, a);
                    Option::Some((vs, p2))
                },
            }
        },
    }
}

/// Reads an announcement list at `pos`.
fn dec_annlist(buf: &Vec<u8>, pos: usize) -> (r: Option<(Vec<AppAnnouncement>, usize)>)
    requires
        pos <= buf@.len(),
    ensures
        match r {
            Option::Some((vs, end)) => {
                &&& pos <= end <= buf@.len()
                &&& sdec_annlist(buf@.skip(pos as int)) == Option::Some(
                    (announcement_views(vs@), buf@.skip(end as int)),
                )
            },
            Option::None => sdec_annlist(buf@.skip(pos as int)) is None,
        },
{
    match dec_u64(buf, pos) {
        Option::None => Option::None,
        Option::Some((n, p1)) => dec_announcements(buf, p1, n),
    }
}

// ---------------------------------------------------------------------
// Requests, responses and frames
// ---------------------------------------------------------------------

/// The encoding of a request body: a tag byte, then its fields.
pub open spec fn senc_reqbody(b: RequestBodyView) -> Seq<u8> {
    match b {
        RequestBodyView::CreateAppInstance { label } => seq![0u8] + senc_str(label),
        RequestBodyView::AppInstanceUuid { label } => seq![1u8] + senc_str(label),
        RequestBodyView::LocalPeerId => seq![2u8],
        RequestBodyView::Peers => seq![3u8],
        RequestBodyView::Announce { peer, app_uuid, data } => seq![4u8] + senc_str(peer)
            + senc_str(app_uuid) + senc_json(data),
        RequestBodyView::SendMessage { peer, app_uuid, from_app_uuid, message } => seq![5u8]
            + senc_str(peer) + senc_str(app_uuid) + senc_str(from_app_uuid) + senc_bytes(message),
        RequestBodyView::InboxMessages { app_uuid } => seq![6u8] + senc_str(app_uuid),
        RequestBodyView::DeleteInboxMessage { app_uuid, message_id } => seq![7u8] + senc_str(
            app_uuid,
        ) + u64_be(message_id),
        RequestBodyView::AppAnnouncements => seq![8u8],
        RequestBodyView::SubscribePeerEvents => seq![9u8],
        RequestBodyView::SubscribeAnnounceEvents => seq![10u8],
        RequestBodyView::SubscribeInboxEvents { app_uuid } => seq![11u8] + senc_str(app_uuid),
        RequestBodyView::DialAddress { address } => seq![12u8] + senc_str(address),
        RequestBodyView::GetLastPort { app_uuid } => seq![13u8] + senc_str(app_uuid),
        RequestBodyView::SetLastPort { app_uuid, port } => seq![14u8] + senc_str(app_uuid)
            + u16_be(port),
    }
}

/// Reads the fields of an announce request body.
pub open spec fn sdec_req_announce(r: Seq<u8>) -> Option<(RequestBodyView, Seq<u8>)> {
    match sdec_str(r) {
        Option::Some((peer, r1)) => match sdec_str(r1) {
            Option::Some((app_uuid, r2)) => match sdec_json(r2, PAYLOAD_DEPTH_LIMIT) {
                Option::Some((data, r3)) => Option::Some(
                    (RequestBodyView::Announce { peer, app_uuid, data }, r3),
                ),
                Option::None => Option::None,
            },
            Option::None => Option::None,
        },
        Option::None => Option::None,
    }
}

/// Reads the fields of a send-message request body.
pub open spec fn sdec_req_send(r: Seq<u8>) -> Option<(RequestBodyView, Seq<u8>)> {
    match sdec_str(r) {
        Option::Some((peer, r1)) => match sdec_str(r1) {
            Option::Some((app_uuid, r2)) => match sdec_str(r2) {
                Option::Some((from_app_uuid, r3)) => match sdec_bytes(r3) {
                    Option::Some((message, r4)) => Option::Some(
                        (
                            RequestBodyView::SendMessage {
                                peer,
                                app_uuid,
                                from_app_uuid,
                                message,
                            },
                            r4,
                        ),
                    ),
                    Option::None => Option::None,
                },
                Option::None => Option::None,
            },
            Option::None => Option::None,
        },
        Option::None => Option::None,
    }
}

/// Reads the fields of an announcement event body.
pub open spec fn sdec_resp_announcement(r: Seq<u8>) -> Option<(ResponseBodyView, Seq<u8>)> {
    match sdec_str(r) {
        Option::Some((peer, r1)) => match sdec_str(r1) {
            Option::Some((app_uuid, r2)) => match sdec_json(r2, PAYLOAD_DEPTH_LIMIT) {
                Option::Some((data, r3)) => Option::Some(
                    (ResponseBodyView::AppAnnouncement { peer, app_uuid, data }, r3),
                ),
                Option::None => Option::None,
            },
            Option::None => Option::None,
        },
        Option::None => Option::None,
    }
}

/// Reads a request body from the front of `b`.
pub open spec fn sdec_reqbody(b: Seq<u8>) -> Option<(RequestBodyView, Seq<u8>)> {
    if b.len() < 1 {
        Option::None
    } else {
        let r = b.skip(1);
        if b[0] == 0 {
            match sdec_str(r) {
                Option::Some((label, r1)) => Option::Some(
                    (RequestBodyView::CreateAppInstance { label }, r1),
                ),
                Option::None => Option::None,
            }
        } else if b[0] == 1 {
            match sdec_str(r) {
                Option::Some((label, r1)) => Option::Some(
                    (RequestBodyView::AppInstanceUuid { label }, r1),
                ),
                Option::None => Option::None,
            }
        } else if b[0] == 2 {
            Option::Some((RequestBodyView::LocalPeerId, r))
        } else if b[0] == 3 {
            Option::Some((RequestBodyView::Peers, r))
        } else if b[0] == 4 {
            sdec_req_announce(r)
        } else if b[0] == 5 {
            sdec_req_send(r)
        } else if b[0] == 6 {
            match sdec_str(r) {
                Option::Some((app_uuid, r1)) => Option::Some(
                    (RequestBodyView::InboxMessages { app_uuid }, r1),
                ),
                Option::None => Option::None,
            }
        } else if b[0] == 7 {
            match sdec_str(r) {
                Option::Some((app_uuid, r1)) => match sdec_u64(r1) {
                    Option::Some((message_id, r2)) => Option::Some(
                        (RequestBodyView::DeleteInboxMessage { app_uuid, message_id }, r2),
                    ),
                    Option::None => Option::None,
                },
                Option::None => Option::None,
            }
        } else if b[0] == 8 {
            Option::Some((RequestBodyView::AppAnnouncements, r))
        } else if b[0] == 9 {
            Option::Some((RequestBodyView::SubscribePeerEvents, r))
        } else if b[0] == 10 {
            Option::Some((RequestBodyView::SubscribeAnnounceEvents, r))
        } else if b[0] == 11 {
            match sdec_str(r) {
                Option::Some((app_uuid, r1)) => Option::Some(
                    (RequestBodyView::SubscribeInboxEvents { app_uuid }, r1),
                ),
                Option::None => Option::None,
            }
        } else if b[0] == 12 {
            match sdec_str(r) {
                Option::Some((address, r1)) => Option::Some(
                    (RequestBodyView::DialAddress { address }, r1),
                ),
                Option::None => Option::None,
            }
        } else if b[0] == 13 {
            match sdec_str(r) {
                Option::Some((app_uuid, r1)) => Option::Some(
                    (RequestBodyView::GetLastPort { app_uuid }, r1),
                ),
                Option::None => Option::None,
            }
        } else if b[0] == 14 {
            match sdec_str(r) {
                Option::Some((app_uuid, r1)) => match sdec_u16(r1) {
                    Option::Some((port, r2)) => Option::Some(
                        (RequestBodyView::SetLastPort { app_uuid, port }, r2),
                    ),
                    Option::None => Option::None,
                },
                Option::None => Option::None,
            }
        } else {
            Option::None
        }
    }
}

/// Whether a request body fits its length prefixes and depth limit.
pub open spec fn reqbody_wf(b: RequestBodyView) -> bool {
    match b {
        RequestBodyView::CreateAppInstance { label } => str_wf(label),
        RequestBodyView::AppInstanceUuid { label } => str_wf(label),
        RequestBodyView::LocalPeerId => true,
        RequestBodyView::Peers => true,
        RequestBodyView::Announce { peer, app_uuid, data } => str_wf(peer) && str_wf(app_uuid)
            && jwf(data, PAYLOAD_DEPTH_LIMIT as int),
        RequestBodyView::SendMessage { peer, app_uuid, from_app_uuid, message } => str_wf(peer)
            && str_wf(app_uuid) && str_wf(from_app_uuid) && bytes_wf(message),
        RequestBodyView::InboxMessages { app_uuid } => str_wf(app_uuid),
        RequestBodyView::DeleteInboxMessage { app_uuid, message_id } => str_wf(app_uuid),
        RequestBodyView::AppAnnouncements => true,
        RequestBodyView::SubscribePeerEvents => true,
        RequestBodyView::SubscribeAnnounceEvents => true,
        RequestBodyView::SubscribeInboxEvents { app_uuid } => str_wf(app_uuid),
        RequestBodyView::DialAddress { address } => str_wf(address),
        RequestBodyView::GetLastPort { app_uuid } => str_wf(app_uuid),
        RequestBodyView::SetLastPort { app_uuid, port } => str_wf(app_uuid),
    }
}

/// Decoding the encoding of a request body yields it back.
pub proof fn lemma_reqbody_rt(b: RequestBodyView, rest: Seq<u8>)
    requires
        reqbody_wf(b),
    ensures
        sdec_reqbody(senc_reqbody(b) + rest) == Option::Some((b, rest)),
{
    match b {
        RequestBodyView::CreateAppInstance { .. } => lemma_reqbody_rt_a(b, rest),
        RequestBodyView::AppInstanceUuid { .. } => lemma_reqbody_rt_a(b, rest),
        RequestBodyView::LocalPeerId => lemma_reqbody_rt_a(b, rest),
        RequestBodyView::Peers => lemma_reqbody_rt_a(b, rest),
        RequestBodyView::Announce { .. } => lemma_reqbody_rt_a(b, rest),
        RequestBodyView::SendMessage { .. } => lemma_reqbody_rt_b(b, rest),
        RequestBodyView::InboxMessages { .. } => lemma_reqbody_rt_b(b, rest),
        RequestBodyView::DeleteInboxMessage { .. } => lemma_reqbody_rt_b(b, rest),
        RequestBodyView::AppAnnouncements => lemma_reqbody_rt_b(b, rest),
        RequestBodyView::SubscribePeerEvents => lemma_reqbody_rt_b(b, rest),
        RequestBodyView::SubscribeAnnounceEvents => lemma_reqbody_rt_c(b, rest),
        RequestBodyView::SubscribeInboxEvents { .. } => lemma_reqbody_rt_c(b, rest),
        RequestBodyView::DialAddress { .. } => lemma_reqbody_rt_c(b, rest),
        RequestBodyView::GetLastPort { .. } => lemma_reqbody_rt_c(b, rest),
        RequestBodyView::SetLastPort { .. } => lemma_reqbody_rt_c(b, rest),
    }
}

#[verifier::rlimit(100)]
#[verifier::spinoff_prover]
proof fn lemma_reqbody_rt_a(b: RequestBodyView, rest: Seq<u8>)
    requires
        reqbody_wf(b),
        b is CreateAppInstance || b is AppInstanceUuid || b is LocalPeerId || b is Peers
            || b is Announce,
    ensures
        sdec_reqbody(senc_reqbody(b) + rest) == Option::Some((b, rest)),
{
    let w = senc_reqbody(b) + rest;
    match b {
        RequestBodyView::CreateAppInstance { label } => {
            assert(w.skip(1) =~= senc_str(label) + rest);
            lemma_str_rt(label, rest);
        },
        RequestBodyView::AppInstanceUuid { label } => {
            assert(w.skip(1) =~= senc_str(label) + rest);
            lemma_str_rt(label, rest);
        },
        RequestBodyView::LocalPeerId => {
            assert(w.skip(1) =~= rest);
        },
        RequestBodyView::Peers => {
            assert(w.skip(1) =~= rest);
        },
        RequestBodyView::Announce { peer, app_uuid, data } => {
            let t2 = senc_json(data) + rest;
            let t1 = senc_str(app_uuid) + t2;
            assert(w.skip(1) =~= senc_str(peer) + t1);
            lemma_str_rt(peer, t1);
            lemma_str_rt(app_uuid, t2);
            lemma_json_rt(data, PAYLOAD_DEPTH_LIMIT, rest);
        },
        _ => {},
    }
}

#[verifier::rlimit(100)]
#[verifier::spinoff_prover]
proof fn lemma_reqbody_rt_b(b: RequestBodyView, rest: Seq<u8>)
    requires
        reqbody_wf(b),
        b is SendMessage || b is InboxMessages || b is DeleteInboxMessage || b is AppAnnouncements
            || b is SubscribePeerEvents,
    ensures
        sdec_reqbody(senc_reqbody(b) + rest) == Option::Some((b, rest)),
{
    let w = senc_reqbody(b) + rest;
    match b {
        RequestBodyView::SendMessage { peer, app_uuid, from_app_uuid, message } => {
            let t3 = senc_bytes(message) + rest;
            let t2 = senc_str(from_app_uuid) + t3;
            let t1 = senc_str(app_uuid) + t2;
            assert(w.skip(1) =~= senc_str(peer) + t1);
            lemma_str_rt(peer, t1);
            lemma_str_rt(app_uuid, t2);
            lemma_str_rt(from_app_uuid, t3);
            lemma_bytes_rt(message, rest);
        },
        RequestBodyView::InboxMessages { app_uuid } => {
            assert(w.skip(1) =~= senc_str(app_uuid) + rest);
            lemma_str_rt(app_uuid, rest);
        },
        RequestBodyView::DeleteInboxMessage { app_uuid, message_id } => {
            let t1 = u64_be(message_id) + rest;
            assert(w.skip(1) =~= senc_str(app_uuid) + t1);
            lemma_str_rt(app_uuid, t1);
            lemma_u64_rt(message_id, rest);
        },
        RequestBodyView::AppAnnouncements => {
            assert(w.skip(1) =~= rest);
        },
        RequestBodyView::SubscribePeerEvents => {
            assert(w.skip(1) =~= rest);
        },
        _ => {},
    }
}

#[verifier::rlimit(100)]
#[verifier::spinoff_prover]
proof fn lemma_reqbody_rt_c(b: RequestBodyView, rest: Seq<u8>)
    requires
        reqbody_wf(b),
        b is SubscribeAnnounceEvents || b is SubscribeInboxEvents || b is DialAddress
            || b is GetLastPort || b is SetLastPort,
    ensures
        sdec_reqbody(senc_reqbody(b) + rest) == Option::Some((b, rest)),
{
    let w = senc_reqbody(b) + rest;
    match b {
        RequestBodyView::SubscribeAnnounceEvents => {
            assert(w.skip(1) =~= rest);
        },
        RequestBodyView::SubscribeInboxEvents { app_uuid } => {
            assert(w.skip(1) =~= senc_str(app_uuid) + rest);
            lemma_str_rt(app_uuid, rest);
        },
        RequestBodyView::DialAddress { address } => {
            assert(w.skip(1) =~= senc_str(address) + rest);
            lemma_str_rt(address, rest);
        },
        RequestBodyView::GetLastPort { app_uuid } => {
            assert(w.skip(1) =~= senc_str(app_uuid) + rest);
            lemma_str_rt(app_uuid, rest);
        },
        RequestBodyView::SetLastPort { app_uuid, port } => {
            let t1 = u16_be(port) + rest;
            assert(w.skip(1) =~= senc_str(app_uuid) + t1);
            lemma_str_rt(app_uuid, t1);
            lemma_u16_rt(port, rest);
        },
        _ => {},
    }
}

/// The encoding of a whole request: its id, then its body.
pub open spec fn senc_request(r: RequestView) -> Seq<u8> {
    u64_be(r.id) + senc_reqbody(r.body)
}

/// Reads a whole request from the front of `b`.
pub open spec fn sdec_request(b: Seq<u8>) -> Option<(RequestView, Seq<u8>)> {
    match sdec_u64(b) {
        Option::None => Option::None,
        Option::Some((id, r)) => match sdec_reqbody(r) {
            Option::None => Option::None,
            Option::Some((body, r2)) => Option::Some((RequestView { id, body }, r2)),
        },
    }
}

/// Whether a request fits its length prefixes and depth limit.
pub open spec fn request_wf(r: RequestView) -> bool {
    reqbody_wf(r.body)
}

/// The value held in one whole request payload, if any: the payload
/// must decode and leave nothing behind.
pub open spec fn spec_decode_request(b: Seq<u8>) -> Option<RequestView> {
    match sdec_request(b) {
        Option::Some((r, rest)) => if rest.len() == 0 {
            Option::Some(r)
        } else {
            Option::None
        },
        Option::None => Option::None,
    }
}

/// Decoding the encoding of a request yields it back.
pub proof fn lemma_request_rt(r: RequestView)
    requires
        request_wf(r),
    ensures
        spec_decode_request(senc_request(r)) == Option::Some(r),
{
    let p = senc_reqbody(r.body);
    assert(senc_request(r) =~= u64_be(r.id) + p);
    lemma_u64_rt(r.id, p);
    assert(p + Seq::<u8>::empty() =~= p);
    lemma_reqbody_rt(r.body, Seq::<u8>::empty());
}

/// The encoding of a response body: a tag byte, then its fields.
pub open spec fn senc_respbody(b: ResponseBodyView) -> Seq<u8> {
    match b {
        ResponseBodyView::Success => seq![0u8],
        ResponseBodyView::Error { message } => seq![1u8] + senc_str(message),
        ResponseBodyView::PeerDiscovered { peer_id } => seq![2u8] + senc_str(peer_id),
        ResponseBodyView::PeerExpired { peer_id } => seq![3u8] + senc_str(peer_id),
        ResponseBodyView::CreateAppInstance { uuid } => seq![4u8] + senc_str(uuid),
        ResponseBodyView::AppInstanceUuid { uuid } => seq![5u8] + senc_opt_str(uuid),
        ResponseBodyView::LocalPeerId { peer_id } => seq![6u8] + senc_str(peer_id),
        ResponseBodyView::Peers { peers } => seq![7u8] + senc_strlist(peers),
        ResponseBodyView::Message(m) => seq![8u8] + senc_message(m),
        ResponseBodyView::InboxMessages { messages } => seq![9u8] + senc_msglist(messages),
        ResponseBodyView::AppAnnouncements { announcements } => seq![10u8] + senc_annlist(
            announcements,
        ),
        ResponseBodyView::AppAnnouncement { peer, app_uuid, data } => seq![11u8] + senc_str(peer)
            + senc_str(app_uuid) + senc_json(data),
        ResponseBodyView::GetLastPort { port } => seq![12u8] + senc_opt_u16(port),
    }
}

/// Reads a response body from the front of `b`.
pub open spec fn sdec_respbody(b: Seq<u8>) -> Option<(ResponseBodyView, Seq<u8>)> {
    if b.len() < 1 {
        Option::None
    } else {
        let r = b.skip(1);
        if b[0] == 0 {
            Option::Some((ResponseBodyView::Success, r))
        } else if b[0] == 1 {
            match sdec_str(r) {
                Option::Some((message, r1)) => Option::Some(
                    (ResponseBodyView::Error { message }, r1),
                ),
                Option::None => Option::None,
            }
        } else if b[0] == 2 {
            match sdec_str(r) {
                Option::Some((peer_id, r1)) => Option::Some(
                    (ResponseBodyView::PeerDiscovered { peer_id }, r1),
                ),
                Option::None => Option::None,
            }
        } else if b[0] == 3 {
            match sdec_str(r) {
                Option::Some((peer_id, r1)) => Option::Some(
                    (ResponseBodyView::PeerExpired { peer_id }, r1),
                ),
                Option::None => Option::None,
            }
        } else if b[0] == 4 {
            match sdec_str(r) {
                Option::Some((uuid, r1)) => Option::Some(
                    (ResponseBodyView::CreateAppInstance { uuid }, r1),
                ),
                Option::None => Option::None,
            }
        } else if b[0] == 5 {
            match sdec_opt_str(r) {
                Option::Some((uuid, r1)) => Option::Some(
                    (ResponseBodyView::AppInstanceUuid { uuid }, r1),
                ),
                Option::None => Option::None,
            }
        } else if b[0] == 6 {
            match sdec_str(r) {
                Option::Some((peer_id, r1)) => Option::Some(
                    (ResponseBodyView::LocalPeerId { peer_id }, r1),
                ),
                Option::None => Option::None,
            }
        } else if b[0] == 7 {
            match sdec_strlist(r) {
                Option::Some((peers, r1)) => Option::Some(
                    (ResponseBodyView::Peers { peers }, r1),
                ),
                Option::None => Option::None,
            }
        } else if b[0] == 8 {
            match sdec_message(r) {
                Option::Some((m, r1)) => Option::Some((ResponseBodyView::Message(m), r1)),
                Option::None => Option::None,
            }
        } else if b[0] == 9 {
            match sdec_msglist(r) {
                Option::Some((messages, r1)) => Option::Some(
                    (ResponseBodyView::InboxMessages { messages }, r1),
                ),
                Option::None => Option::None,
            }
        } else if b[0] == 10 {
            match sdec_annlist(r) {
                Option::Some((announcements, r1)) => Option::Some(
                    (ResponseBodyView::AppAnnouncements { announcements }, r1),
                ),
                Option::None => Option::None,
            }
        } else if b[0] == 11 {
            sdec_resp_announcement(r)
        } else if b[0] == 12 {
            match sdec_opt_u16(r) {
                Option::Some((port, r1)) => Option::Some(
                    (ResponseBodyView::GetLastPort { port }, r1),
                ),
                Option::None => Option::None,
            }
        } else {
            Option::None
        }
    }
}

/// Whether a response body fits its length prefixes and depth limit.
pub open spec fn respbody_wf(b: ResponseBodyView) -> bool {
    match b {
        ResponseBodyView::Success => true,
        ResponseBodyView::Error { message } => str_wf(message),
        ResponseBodyView::PeerDiscovered { peer_id } => str_wf(peer_id),
        ResponseBodyView::PeerExpired { peer_id } => str_wf(peer_id),
        ResponseBodyView::CreateAppInstance { uuid } => str_wf(uuid),
        ResponseBodyView::AppInstanceUuid { uuid } => uuid matches Option::Some(t) ==> str_wf(t),
        ResponseBodyView::LocalPeerId { peer_id } => str_wf(peer_id),
        ResponseBodyView::Peers { peers } => strlist_wf(peers),
        ResponseBodyView::Message(m) => message_wf(m),
        ResponseBodyView::InboxMessages { messages } => msglist_wf(messages),
        ResponseBodyView::AppAnnouncements { announcements } => annlist_wf(announcements),
        ResponseBodyView::AppAnnouncement { peer, app_uuid, data } => str_wf(peer) && str_wf(
            app_uuid,
        ) && jwf(data, PAYLOAD_DEPTH_LIMIT as int),
        ResponseBodyView::GetLastPort { port } => true,
    }
}

/// Decoding the encoding of a response body yields it back.
pub proof fn lemma_respbody_rt(b: ResponseBodyView, rest: Seq<u8>)
    requires
        respbody_wf(b),
    ensures
        sdec_respbody(senc_respbody(b) + rest) == Option::Some((b, rest)),
{
    match b {
        ResponseBodyView::Success => lemma_respbody_rt_a(b, rest),
        ResponseBodyView::Error { .. } => lemma_respbody_rt_a(b, rest),
        ResponseBodyView::PeerDiscovered { .. } => lemma_respbody_rt_a(b, rest),
        ResponseBodyView::PeerExpired { .. } => lemma_respbody_rt_a(b, rest),
        ResponseBodyView::CreateAppInstance { .. } => lemma_respbody_rt_a(b, rest),
        ResponseBodyView::AppInstanceUuid { .. } => lemma_respbody_rt_b(b, rest),
        ResponseBodyView::LocalPeerId { .. } => lemma_respbody_rt_b(b, rest),
        ResponseBodyView::Peers { .. } => lemma_respbody_rt_b(b, rest),
        ResponseBodyView::Message(..) => lemma_respbody_rt_b(b, rest),
        ResponseBodyView::InboxMessages { .. } => lemma_respbody_rt_c(b, rest),
        ResponseBodyView::AppAnnouncements { .. } => lemma_respbody_rt_c(b, rest),
        ResponseBodyView::AppAnnouncement { .. } => lemma_respbody_rt_c(b, rest),
        ResponseBodyView::GetLastPort { .. } => lemma_respbody_rt_c(b, rest),
    }
}

#[verifier::rlimit(100)]
#[verifier::spinoff_prover]
proof fn lemma_respbody_rt_a(b: ResponseBodyView, rest: Seq<u8>)
    requires
        respbody_wf(b),
        b is Success || b is Error || b is PeerDiscovered || b is PeerExpired
            || b is CreateAppInstance,
    ensures
        sdec_respbody(senc_respbody(b) + rest) == Option::Some((b, rest)),
{
    let w = senc_respbody(b) + rest;
    match b {
        ResponseBodyView::Success => {
            assert(w.skip(1) =~= rest);
        },
        ResponseBodyView::Error { message } => {
            assert(w.skip(1) =~= senc_str(message) + rest);
            lemma_str_rt(message, rest);
        },
        ResponseBodyView::PeerDiscovered { peer_id } => {
            assert(w.skip(1) =~= senc_str(peer_id) + rest);
            lemma_str_rt(peer_id, rest);
        },
        ResponseBodyView::PeerExpired { peer_id } => {
            assert(w.skip(1) =~= senc_str(peer_id) + rest);
            lemma_str_rt(peer_id, rest);
        },
        ResponseBodyView::CreateAppInstance { uuid } => {
            assert(w.skip(1) =~= senc_str(uuid) + rest);
            lemma_str_rt(uuid, rest);
        },
        _ => {},
    }
}

#[verifier::rlimit(100)]
#[verifier::spinoff_prover]
proof fn lemma_respbody_rt_b(b: ResponseBodyView, rest: Seq<u8>)
    requires
        respbody_wf(b),
        b is AppInstanceUuid || b is LocalPeerId || b is Peers || b is Message,
    ensures
        sdec_respbody(senc_respbody(b) + rest) == Option::Some((b, rest)),
{
    let w = senc_respbody(b) + rest;
    match b {
        ResponseBodyView::AppInstanceUuid { uuid } => {
            assert(w.skip(1) =~= senc_opt_str(uuid) + rest);
            lemma_opt_str_rt(uuid, rest);
        },
        ResponseBodyView::LocalPeerId { peer_id } => {
            assert(w.skip(1) =~= senc_str(peer_id) + rest);
            lemma_str_rt(peer_id, rest);
        },
        ResponseBodyView::Peers { peers } => {
            assert(w.skip(1) =~= senc_strlist(peers) + rest);
            lemma_strlist_rt(peers, rest);
        },
        ResponseBodyView::Message(m) => {
            assert(w.skip(1) =~= senc_message(m) + rest);
            lemma_message_rt(m, rest);
        },
        _ => {},
    }
}

#[verifier::rlimit(100)]
#[verifier::spinoff_prover]
proof fn lemma_respbody_rt_c(b: ResponseBodyView, rest: Seq<u8>)
    requires
        respbody_wf(b),
        b is InboxMessages || b is AppAnnouncements || b is AppAnnouncement || b is GetLastPort,
    ensures
        sdec_respbody(senc_respbody(b) + rest) == Option::Some((b, rest)),
{
    match b {
        ResponseBodyView::InboxMessages { .. } => lemma_respbody_rt_d(b, rest),
        ResponseBodyView::AppAnnouncements { .. } => lemma_respbody_rt_d(b, rest),
        ResponseBodyView::AppAnnouncement { .. } => lemma_respbody_rt_e(b, rest),
        ResponseBodyView::GetLastPort { .. } => lemma_respbody_rt_e(b, rest),
        _ => {},
    }
}

#[verifier::rlimit(100)]
#[verifier::spinoff_prover]
proof fn lemma_respbody_rt_d(b: ResponseBodyView, rest: Seq<u8>)
    requires
        respbody_wf(b),
        b is InboxMessages || b is AppAnnouncements,
    ensures
        sdec_respbody(senc_respbody(b) + rest) == Option::Some((b, rest)),
{
    let w = senc_respbody(b) + rest;
    match b {
        ResponseBodyView::InboxMessages { messages } => {
            assert(w.skip(1) =~= senc_msglist(messages) + rest);
            lemma_msglist_rt(messages, rest);
        },
        ResponseBodyView::AppAnnouncements { announcements } => {
            assert(w.skip(1) =~= senc_annlist(announcements) + rest);
            lemma_annlist_rt(announcements, rest);
        },
        _ => {},
    }
}

#[verifier::rlimit(100)]
#[verifier::spinoff_prover]
proof fn lemma_respbody_rt_e(b: ResponseBodyView, rest: Seq<u8>)
    requires
        respbody_wf(b),
        b is AppAnnouncement || b is GetLastPort,
    ensures
        sdec_respbody(senc_respbody(b) + rest) == Option::Some((b, rest)),
{
    let w = senc_respbody(b) + rest;
    match b {
        ResponseBodyView::AppAnnouncement { peer, app_uuid, data } => {
            let t2 = senc_json(data) + rest;
            let t1 = senc_str(app_uuid) + t2;
            assert(w.skip(1) =~= senc_str(peer) + t1);
            lemma_str_rt(peer, t1);
            lemma_str_rt(app_uuid, t2);
            lemma_json_rt(data, PAYLOAD_DEPTH_LIMIT, rest);
        },
        ResponseBodyView::GetLastPort { port } => {
            assert(w.skip(1) =~= senc_opt_u16(port) + rest);
            lemma_opt_u16_rt(port, rest);
        },
        _ => {},
    }
}

/// The encoding of a whole response: the request id it answers, then
/// its body.
pub open spec fn senc_response(r: ResponseView) -> Seq<u8> {
    u64_be(r.request_id) + senc_respbody(r.body)
}

/// Reads a whole response from the front of `b`.
pub open spec fn sdec_response(b: Seq<u8>) -> Option<(ResponseView, Seq<u8>)> {
    match sdec_u64(b) {
        Option::None => Option::None,
        Option::Some((request_id, r)) => match sdec_respbody(r) {
            Option::None => Option::None,
            Option::Some((body, r2)) => Option::Some((ResponseView { request_id, body }, r2)),
        },
    }
}

/// Whether a response fits its length prefixes and depth limit.
pub open spec fn response_wf(r: ResponseView) -> bool {
    respbody_wf(r.body)
}

/// The value held in one whole response payload, if any.
pub open spec fn spec_decode_response(b: Seq<u8>) -> Option<ResponseView> {
    match sdec_response(b) {
        Option::Some((r, rest)) => if rest.len() == 0 {
            Option::Some(r)
        } else {
            Option::None
        },
        Option::None => Option::None,
    }
}

/// Decoding the encoding of a response yields it back.
pub proof fn lemma_response_rt(r: ResponseView)
    requires
        response_wf(r),
    ensures
        spec_decode_response(senc_response(r)) == Option::Some(r),
{
    let p = senc_respbody(r.body);
    assert(senc_response(r) =~= u64_be(r.request_id) + p);
    lemma_u64_rt(r.request_id, p);
    assert(p + Seq::<u8>::empty() =~= p);
    lemma_respbody_rt(r.body, Seq::<u8>::empty());
}

/// Appends the encoding of a request body to `out`.
#[verifier::rlimit(100)]
fn enc_reqbody(out: &mut Vec<u8>, b: &RequestBody)
    ensures
        final(out)@ == old(out)@ + senc_reqbody(b@),
{
    match b {
        RequestBody::CreateAppInstance { label } => {
            out.push(0u8);
            enc_str(out, label.as_str());
        },
        RequestBody::AppInstanceUuid { label } => {
            out.push(1u8);
            enc_str(out, label.as_str());
        },
        RequestBody::LocalPeerId => {
            out.push(2u8);
        },
        RequestBody::Peers => {
            out.push(3u8);
        },
        RequestBody::Announce { peer, app_uuid, data } => {
            out.push(4u8);
            enc_str(out, peer.as_str());
            enc_str(out, app_uuid.as_str());
            enc_json(out, data);
        },
        RequestBody::SendMessage { peer, app_uuid, from_app_uuid, message } => {
            out.push(5u8);
            enc_str(out, peer.as_str());
            enc_str(out, app_uuid.as_str());
            enc_str(out, from_app_uuid.as_str());
            enc_bytes(out, message);
        },
        RequestBody::InboxMessages { app_uuid } => {
            out.push(6u8);
            enc_str(out, app_uuid.as_str());
        },
        RequestBody::DeleteInboxMessage { app_uuid, message_id } => {
            out.push(7u8);
            enc_str(out, app_uuid.as_str());
            enc_u64(out, *message_id);
        },
        RequestBody::AppAnnouncements => {
            out.push(8u8);
        },
        RequestBody::SubscribePeerEvents => {
            out.push(9u8);
        },
        RequestBody::SubscribeAnnounceEvents => {
            out.push(10u8);
        },
        RequestBody::SubscribeInboxEvents { app_uuid } => {
            out.push(11u8);
            enc_str(out, app_uuid.as_str());
        },
        RequestBody::DialAddress { address } => {
            out.push(12u8);
            enc_str(out, address.as_str());
        },
        RequestBody::GetLastPort { app_uuid } => {
            out.push(13u8);
            enc_str(out, app_uuid.as_str());
        },
        RequestBody::SetLastPort { app_uuid, port } => {
            out.push(14u8);
            enc_str(out, app_uuid.as_str());
            enc_u16(out, *port);
        },
    }
    assert(final(out)@ =~= old(out)@ + senc_reqbody(b@));
}

/// Encodes a whole request into one payload.
pub fn encode_request(r: &Request) -> (out: Vec<u8>)
    ensures
        out@ == senc_request(r@),
{
    let mut out: Vec<u8> = Vec::new();
    enc_u64(&mut out, r.id);
    enc_reqbody(&mut out, &r.body);
    proof {
        assert(out@ =~= senc_request(r@));
    }
    out
}

/// Reads a request body at `pos`.
fn dec_reqbody(buf: &Vec<u8>, pos: usize) -> (r: Option<(RequestBody, usize)>)
    requires
        pos <= buf@.len(),
    ensures
        match r {
            Option::Some((b, end)) => {
                &&& pos <= end <= buf@.len()
                &&& sdec_reqbody(buf@.skip(pos as int)) == Option::Some(
                    (b@, buf@.skip(end as int)),
                )
            },
            Option::None => sdec_reqbody(buf@.skip(pos as int)) is None,
        },
{
    match dec_u8(buf, pos) {
        Option::None => Option::None,
        Option::Some((tag, p1)) => {
            if tag <= 3 {
                dec_reqbody_low(buf, pos, tag, p1)
            } else if tag <= 7 {
                dec_reqbody_mid(buf, pos, tag, p1)
            } else {
                dec_reqbody_high(buf, pos, tag, p1)
            }
        },
    }
}

/// Reads the fields of a request body whose tag is at most 3.
#[verifier::rlimit(100)]
#[verifier::spinoff_prover]
fn dec_reqbody_low(buf: &Vec<u8>, pos: usize, tag: u8, p1: usize) -> (r: Option<
    (RequestBody, usize),
>)
    requires
        pos < buf@.len(),
        p1 == pos + 1,
        tag == buf@.skip(pos as int)[0],
        buf@.skip(p1 as int) == buf@.skip(pos as int).skip(1),
        tag <= 3,
    ensures
        match r {
            Option::Some((b, end)) => {
                &&& pos <= end <= buf@.len()
                &&& sdec_reqbody(buf@.skip(pos as int)) == Option::Some(
                    (b@, buf@.skip(end as int)),
                )
            },
            Option::None => sdec_reqbody(buf@.skip(pos as int)) is None,
        },
{
    if tag == 0 {
        match dec_str(buf, p1) {
            Option::Some((label, p2)) => Option::Some(
                (RequestBody::CreateAppInstance { label }, p2),
            ),
            Option::None => Option::None,
        }
    } else if tag == 1 {
        match dec_str(buf, p1) {
            Option::Some((label, p2)) => Option::Some(
                (RequestBody::AppInstanceUuid { label }, p2),
            ),
            Option::None => Option::None,
        }
    } else if tag == 2 {
        Option::Some((RequestBody::LocalPeerId, p1))
    } else {
        Option::Some((RequestBody::Peers, p1))
    }
}

/// Reads the fields of an announce request at `p1`.
#[verifier::rlimit(100)]
#[verifier::spinoff_prover]
fn dec_req_announce(buf: &Vec<u8>, p1: usize) -> (r: Option<(RequestBody, usize)>)
    requires
        p1 <= buf@.len(),
    ensures
        match r {
            Option::Some((b, end)) => {
                &&& p1 <= end <= buf@.len()
                &&& sdec_req_announce(buf@.skip(p1 as int)) == Option::Some(
                    (b@, buf@.skip(end as int)),
                )
            },
            Option::None => sdec_req_announce(buf@.skip(p1 as int)) is None,
        },
{
    match dec_str(buf, p1) {
        Option::Some((peer, p2)) => match dec_str(buf, p2) {
            Option::Some((app_uuid, p3)) => match dec_json(buf, p3, PAYLOAD_DEPTH_LIMIT) {
                Option::Some((data, p4)) => Option::Some(
                    (RequestBody::Announce { peer, app_uuid, data }, p4),
                ),
                Option::None => Option::None,
            },
            Option::None => Option::None,
        },
        Option::None => Option::None,
    }
}

/// Reads the fields of a send-message request at `p1`.
#[verifier::rlimit(100)]
#[verifier::spinoff_prover]
fn dec_req_send(buf: &Vec<u8>, p1: usize) -> (r: Option<(RequestBody, usize)>)
    requires
        p1 <= buf@.len(),
    ensures
        match r {
            Option::Some((b, end)) => {
                &&& p1 <= end <= buf@.len()
                &&& sdec_req_send(buf@.skip(p1 as int)) == Option::Some(
                    (b@, buf@.skip(end as int)),
                )
            },
            Option::None => sdec_req_send(buf@.skip(p1 as int)) is None,
        },
{
    match dec_str(buf, p1) {
        Option::Some((peer, p2)) => match dec_str(buf, p2) {
            Option::Some((app_uuid, p3)) => match dec_str(buf, p3) {
                Option::Some((from_app_uuid, p4)) => match dec_bytes(buf, p4) {
                    Option::Some((message, p5)) => Option::Some(
                        (RequestBody::SendMessage { peer, app_uuid, from_app_uuid, message }, p5),
                    ),
                    Option::None => Option::None,
                },
                Option::None => Option::None,
            },
            Option::None => Option::None,
        },
        Option::None => Option::None,
    }
}

/// Reads the fields of a request body whose tag is between 4 and 7.
#[verifier::rlimit(100)]
#[verifier::spinoff_prover]
fn dec_reqbody_mid(buf: &Vec<u8>, pos: usize, tag: u8, p1: usize) -> (r: Option<
    (RequestBody, usize),
>)
    requires
        pos < buf@.len(),
        p1 == pos + 1,
        tag == buf@.skip(pos as int)[0],
        buf@.skip(p1 as int) == buf@.skip(pos as int).skip(1),
        4 <= tag <= 7,
    ensures
        match r {
            Option::Some((b, end)) => {
                &&& pos <= end <= buf@.len()
                &&& sdec_reqbody(buf@.skip(pos as int)) == Option::Some(
                    (b@, buf@.skip(end as int)),
                )
            },
            Option::None => sdec_reqbody(buf@.skip(pos as int)) is None,
        },
{
    if tag == 4 {
        dec_req_announce(buf, p1)
    } else if tag == 5 {
        dec_req_send(buf, p1)
    } else if tag == 6 {
        match dec_str(buf, p1) {
            Option::Some((app_uuid, p2)) => Option::Some(
                (RequestBody::InboxMessages { app_uuid }, p2),
            ),
            Option::None => Option::None,
        }
    } else {
        match dec_str(buf, p1) {
            Option::Some((app_uuid, p2)) => match dec_u64(buf, p2) {
                Option::Some((message_id, p3)) => Option::Some(
                    (RequestBody::DeleteInboxMessage { app_uuid, message_id }, p3),
                ),
                Option::None => Option::None,
            },
            Option::None => Option::None,
        }
    }
}

/// Reads the fields of a request body whose tag is at least 8.
#[verifier::rlimit(100)]
#[verifier::spinoff_prover]
fn dec_reqbody_high(buf: &Vec<u8>, pos: usize, tag: u8, p1: usize) -> (r: Option<
    (RequestBody, usize),
>)
    requires
        pos < buf@.len(),
        p1 == pos + 1,
        tag == buf@.skip(pos as int)[0],
        buf@.skip(p1 as int) == buf@.skip(pos as int).skip(1),
        tag >= 8,
    ensures
        match r {
            Option::Some((b, end)) => {
                &&& pos <= end <= buf@.len()
                &&& sdec_reqbody(buf@.skip(pos as int)) == Option::Some(
                    (b@, buf@.skip(end as int)),
                )
            },
            Option::None => sdec_reqbody(buf@.skip(pos as int)) is None,
        },
{
    if tag == 8 {
        Option::Some((RequestBody::AppAnnouncements, p1))
    } else if tag == 9 {
        Option::Some((RequestBody::SubscribePeerEvents, p1))
    } else if tag == 10 {
        Option::Some((RequestBody::SubscribeAnnounceEvents, p1))
    } else if tag == 11 {
        match dec_str(buf, p1) {
            Option::Some((app_uuid, p2)) => Option::Some(
                (RequestBody::SubscribeInboxEvents { app_uuid }, p2),
            ),
            Option::None => Option::None,
        }
    } else if tag == 12 {
        match dec_str(buf, p1) {
            Option::Some((address, p2)) => Option::Some(
                (RequestBody::DialAddress { address }, p2),
            ),
            Option::None => Option::None,
        }
    } else if tag == 13 {
        match dec_str(buf, p1) {
            Option::Some((app_uuid, p2)) => Option::Some(
                (RequestBody::GetLastPort { app_uuid }, p2),
            ),
            Option::None => Option::None,
        }
    } else if tag == 14 {
        match dec_str(buf, p1) {
            Option::Some((app_uuid, p2)) => match dec_u16(buf, p2) {
                Option::Some((port, p3)) => Option::Some(
                    (RequestBody::SetLastPort { app_uuid, port }, p3),
                ),
                Option::None => Option::None,
            },
            Option::None => Option::None,
        }
    } else {
        Option::None
    }
}

/// Decodes one whole request payload; the payload must decode and
/// leave nothing behind.
pub fn decode_request(buf: &Vec<u8>) -> (r: Option<Request>)
    ensures
        match r {
            Option::Some(req) => spec_decode_request(buf@) == Option::Some(req@),
            Option::None => spec_decode_request(buf@) is None,
        },
{
    proof {
        assert(buf@.skip(0) =~= buf@);
    }
    match dec_u64(buf, 0) {
        Option::None => Option::None,
        Option::Some((id, p1)) => {
            match dec_reqbody(buf, p1) {
                Option::None => Option::None,
                Option::Some((body, end)) => {
                    if end == buf.len() {
                        proof {
                            assert(buf@.skip(end as int).len() == 0);
                        }
                        Option::Some(Request { id, body })
                    } else {
                        proof {
                            assert(buf@.skip(end as int).len() > 0);
                        }
                        Option::None
                    }
                },
            }
        },
    }
}

/// Appends the encoding of a response body to `out`.
#[verifier::rlimit(100)]
fn enc_respbody(out: &mut Vec<u8>, b: &ResponseBody)
    ensures
        final(out)@ == old(out)@ + senc_respbody(b@),
{
    match b {
        ResponseBody::Success => {
            out.push(0u8);
        },
        ResponseBody::Error { message } => {
            out.push(1u8);
            enc_str(out, message.as_str());
        },
        ResponseBody::PeerDiscovered { peer_id } => {
            out.push(2u8);
            enc_str(out, peer_id.as_str());
        },
        ResponseBody::PeerExpired { peer_id } => {
            out.push(3u8);
            enc_str(out, peer_id.as_str());
        },
        ResponseBody::CreateAppInstance { uuid } => {
            out.push(4u8);
            enc_str(out, uuid.as_str());
        },
        ResponseBody::AppInstanceUuid { uuid } => {
            out.push(5u8);
            enc_opt_str(out, uuid);
        },
        ResponseBody::LocalPeerId { peer_id } => {
            out.push(6u8);
            enc_str(out, peer_id.as_str());
        },
        ResponseBody::Peers { peers } => {
            out.push(7u8);
            enc_strlist(out, peers);
        },
        ResponseBody::Message(m) => {
            out.push(8u8);
            enc_message(out, m);
        },
        ResponseBody::InboxMessages { messages } => {
            out.push(9u8);
            enc_msglist(out, messages);
        },
        ResponseBody::AppAnnouncements { announcements } => {
            out.push(10u8);
            enc_annlist(out, announcements);
        },
        ResponseBody::AppAnnouncement { peer, app_uuid, data } => {
            out.push(11u8);
            enc_str(out, peer.as_str());
            enc_str(out, app_uuid.as_str());
            enc_json(out, data);
        },
        ResponseBody::GetLastPort { port } => {
            out.push(12u8);
            enc_opt_u16(out, port);
        },
    }
    assert(final(out)@ =~= old(out)@ + senc_respbody(b@));
}

/// Encodes a whole response into one payload.
pub fn encode_response(r: &Response) -> (out: Vec<u8>)
    ensures
        out@ == senc_response(r@),
{
    let mut out: Vec<u8> = Vec::new();
    enc_u64(&mut out, r.request_id);
    enc_respbody(&mut out, &r.body);
    proof {
        assert(out@ =~= senc_response(r@));
    }
    out
}

/// Reads a response body at `pos`.
fn dec_respbody(buf: &Vec<u8>, pos: usize) -> (r: Option<(ResponseBody, usize)>)
    requires
        pos <= buf@.len(),
    ensures
        match r {
            Option::Some((b, end)) => {
                &&& pos <= end <= buf@.len()
                &&& sdec_respbody(buf@.skip(pos as int)) == Option::Some(
                    (b@, buf@.skip(end as int)),
                )
            },
            Option::None => sdec_respbody(buf@.skip(pos as int)) is None,
        },
{
    match dec_u8(buf, pos) {
        Option::None => Option::None,
        Option::Some((tag, p1)) => {
            if tag <= 6 {
                dec_respbody_low(buf, pos, tag, p1)
            } else {
                dec_respbody_high(buf, pos, tag, p1)
            }
        },
    }
}

/// Reads the fields of a response body whose tag is at most 6.
#[verifier::rlimit(100)]
#[verifier::spinoff_prover]
fn dec_respbody_low(buf: &Vec<u8>, pos: usize, tag: u8, p1: usize) -> (r: Option<
    (ResponseBody, usize),
>)
    requires
        pos < buf@.len(),
        p1 == pos + 1,
        tag == buf@.skip(pos as int)[0],
        buf@.skip(p1 as int) == buf@.skip(pos as int).skip(1),
        tag <= 6,
    ensures
        match r {
            Option::Some((b, end)) => {
                &&& pos <= end <= buf@.len()
                &&& sdec_respbody(buf@.skip(pos as int)) == Option::Some(
                    (b@, buf@.skip(end as int)),
                )
            },
            Option::None => sdec_respbody(buf@.skip(pos as int)) is None,
        },
{
    if tag == 0 {
        Option::Some((ResponseBody::Success, p1))
    } else if tag == 1 {
        match dec_str(buf, p1) {
            Option::Some((message, p2)) => Option::Some((ResponseBody::Error { message }, p2)),
            Option::None => Option::None,
        }
    } else if tag == 2 {
        match dec_str(buf, p1) {
            Option::Some((peer_id, p2)) => Option::Some(
                (ResponseBody::PeerDiscovered { peer_id }, p2),
            ),
            Option::None => Option::None,
        }
    } else if tag == 3 {
        match dec_str(buf, p1) {
            Option::Some((peer_id, p2)) => Option::Some(
                (ResponseBody::PeerExpired { peer_id }, p2),
            ),
            Option::None => Option::None,
        }
    } else if tag == 4 {
        match dec_str(buf, p1) {
            Option::Some((uuid, p2)) => Option::Some(
                (ResponseBody::CreateAppInstance { uuid }, p2),
            ),
            Option::None => Option::None,
        }
    } else if tag == 5 {
        match dec_opt_str(buf, p1) {
            Option::Some((uuid, p2)) => Option::Some(
                (ResponseBody::AppInstanceUuid { uuid }, p2),
            ),
            Option::None => Option::None,
        }
    } else {
        match dec_str(buf, p1) {
            Option::Some((peer_id, p2)) => Option::Some(
                (ResponseBody::LocalPeerId { peer_id }, p2),
            ),
            Option::None => Option::None,
        }
    }
}

/// Reads the fields of a response body whose tag is at least 7.
#[verifier::rlimit(100)]
#[verifier::spinoff_prover]
fn dec_respbody_high(buf: &Vec<u8>, pos: usize, tag: u8, p1: usize) -> (r: Option<
    (ResponseBody, usize),
>)
    requires
        pos < buf@.len(),
        p1 == pos + 1,
        tag == buf@.skip(pos as int)[0],
        buf@.skip(p1 as int) == buf@.skip(pos as int).skip(1),
        tag >= 7,
    ensures
        match r {
            Option::Some((b, end)) => {
                &&& pos <= end <= buf@.len()
                &&& sdec_respbody(buf@.skip(pos as int)) == Option::Some(
                    (b@, buf@.skip(end as int)),
                )
            },
            Option::None => sdec_respbody(buf@.skip(pos as int)) is None,
        },
{
    if tag == 7 {
        match dec_strlist(buf, p1) {
            Option::Some((peers, p2)) => Option::Some((ResponseBody::Peers { peers }, p2)),
            Option::None => Option::None,
        }
    } else if tag == 8 {
        match dec_message(buf, p1) {
            Option::Some((m, p2)) => Option::Some((ResponseBody::Message(m), p2)),
            Option::None => Option::None,
        }
    } else if tag == 9 {
        match dec_msglist(buf, p1) {
            Option::Some((messages, p2)) => Option::Some(
                (ResponseBody::InboxMessages { messages }, p2),
            ),
            Option::None => Option::None,
        }
    } else if tag == 10 {
        match dec_annlist(buf, p1) {
            Option::Some((announcements, p2)) => Option::Some(
                (ResponseBody::AppAnnouncements { announcements }, p2),
            ),
            Option::None => Option::None,
        }
    } else if tag == 11 {
        match dec_str(buf, p1) {
            Option::Some((peer, p2)) => match dec_str(buf, p2) {
                Option::Some((app_uuid, p3)) => match dec_json(buf, p3, PAYLOAD_DEPTH_LIMIT) {
                    Option::Some((data, p4)) => Option::Some(
                        (ResponseBody::AppAnnouncement { peer, app_uuid, data }, p4),
                    ),
                    Option::None => Option::None,
                },
                Option::None => Option::None,
            },
            Option::None => Option::None,
        }
    } else if tag == 12 {
        match dec_opt_u16(buf, p1) {
            Option::Some((port, p2)) => Option::Some(
                (ResponseBody::GetLastPort { port }, p2),
            ),
            Option::None => Option::None,
        }
    } else {
        Option::None
    }
}

/// Decodes one whole response payload; the payload must decode and
/// leave nothing behind.
pub fn decode_response(buf: &Vec<u8>) -> (r: Option<Response>)
    ensures
        match r {
            Option::Some(resp) => spec_decode_response(buf@) == Option::Some(resp@),
            Option::None => spec_decode_response(buf@) is None,
        },
{
    proof {
        assert(buf@.skip(0) =~= buf@);
    }
    match dec_u64(buf, 0) {
        Option::None => Option::None,
        Option::Some((request_id, p1)) => {
            match dec_respbody(buf, p1) {
                Option::None => Option::None,
                Option::Some((body, end)) => {
                    if end == buf.len() {
                        proof {
                            assert(buf@.skip(end as int).len() == 0);
                        }
                        Option::Some(Response { request_id, body })
                    } else {
                        proof {
                            assert(buf@.skip(end as int).len() > 0);
                        }
                        Option::None
                    }
                },
            }
        },
    }
}

// ---------------------------------------------------------------------
// The frame envelope
// ---------------------------------------------------------------------

/// One frame: a 4-byte big-endian payload length, then the payload.
pub open spec fn frame(payload: Seq<u8>) -> Seq<u8> {
    u32_be(payload.len() as u32) + payload
}

/// The payload of one whole frame, if the length prefix matches.
pub open spec fn unframe(b: Seq<u8>) -> Option<Seq<u8>> {
    if b.len() >= 4 && (u32_of_be(b.take(4)) as int) == b.len() - 4 {
        Option::Some(b.skip(4))
    } else {
        Option::None
    }
}

/// Unframing the frame of a payload yields the payload.
pub proof fn lemma_frame_rt(payload: Seq<u8>)
    requires
        payload.len() <= 0xffff_ffff,
    ensures
        unframe(frame(payload)) == Option::Some(payload),
{
    lemma_u32_rt(payload.len() as u32, payload);
    let b = frame(payload);
    assert(b.take(4) =~= u32_be(payload.len() as u32));
    assert(b.skip(4) =~= payload);
}

/// Wraps a payload in a frame; fails when the payload is too long for
/// the 4-byte length prefix.
pub fn encode_frame(payload: Vec<u8>) -> (r: Option<Vec<u8>>)
    ensures
        match r {
            Option::Some(f) => payload@.len() <= 0xffff_ffff && f@ == frame(payload@),
            Option::None => payload@.len() > 0xffff_ffff,
        },
{
    if payload.len() as u64 > 0xffff_ffffu64 {
        return Option::None;
    }
    let mut out: Vec<u8> = Vec::new();
    enc_u32(&mut out, payload.len() as u32);
    let mut body = payload;
    out.append(&mut body);
    Option::Some(out)
}

/// Reads the payload length held in a 4-byte frame header.
pub fn decode_frame_len(header: &Vec<u8>) -> (n: u32)
    requires
        header@.len() == 4,
    ensures
        n == u32_of_be(header@),
{
    proof {
        assert(header@.take(4) =~= header@);
    }
    ((header[0] as u32) << 24) | ((header[1] as u32) << 16) | ((header[2] as u32) << 8) | (
    header[3] as u32)
}

/// A whole frame holds a request exactly when its payload does.
pub open spec fn spec_decode_framed_request(b: Seq<u8>) -> Option<RequestView> {
    match unframe(b) {
        Option::None => Option::None,
        Option::Some(p) => spec_decode_request(p),
    }
}

/// A whole frame holds a response exactly when its payload does.
pub open spec fn spec_decode_framed_response(b: Seq<u8>) -> Option<ResponseView> {
    match unframe(b) {
        Option::None => Option::None,
        Option::Some(p) => spec_decode_response(p),
    }
}

/// The framing round trip for requests: decoding the framed encoding
/// of any well-formed request that fits in one frame yields the
/// request back.
pub proof fn lemma_request_round_trip(r: RequestView)
    requires
        request_wf(r),
        senc_request(r).len() <= 0xffff_ffff,
    ensures
        spec_decode_framed_request(frame(senc_request(r))) == Option::Some(r),
{
    lemma_frame_rt(senc_request(r));
    lemma_request_rt(r);
}

/// The framing round trip for responses: decoding the framed encoding
/// of any well-formed response that fits in one frame yields the
/// response back.
pub proof fn lemma_response_round_trip(r: ResponseView)
    requires
        response_wf(r),
        senc_response(r).len() <= 0xffff_ffff,
    ensures
        spec_decode_framed_response(frame(senc_response(r))) == Option::Some(r),
{
    lemma_frame_rt(senc_response(r));
    lemma_response_rt(r);
}

} // verus!
