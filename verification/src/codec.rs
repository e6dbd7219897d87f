//! The canonical wire form of every protocol value: a self-contained,
//! little-endian, length-prefixed byte encoding, with decoders proved to
//! recover exactly what was encoded, so a receiver can demultiplex server
//! payloads without ambiguity.
use vstd::prelude::*;
use vstd::bytes::{
    lemma_auto_spec_u32_to_from_le_bytes, lemma_auto_spec_u64_to_from_le_bytes,
    spec_u32_from_le_bytes, spec_u32_to_le_bytes, spec_u64_from_le_bytes, spec_u64_to_le_bytes,
    u32_from_le_bytes, u32_to_le_bytes, u64_from_le_bytes, u64_to_le_bytes,
};
use vstd::slice::{slice_index_get, slice_subrange};
use vstd::string::StrSliceExecFns;
use crate::protocol::{
    push_char, AuthError, ChatMessage, ChatMessageView, Event, EventView, Method, MethodResult,
    MethodResultView, MethodView, PrivateMessage, PrivateMessageView, Request, RequestError,
    RequestResult, RequestResultView, RequestView, User, UserView, opt_string_view, pm_views,
    user_views,
};

verus! {

// ---------------------------------------------------------------------------
// Primitive encodings.
// ---------------------------------------------------------------------------

pub open spec fn enc_u8(x: u8) -> Seq<u8> {
    seq![x]
}

pub open spec fn dec_u8(s: Seq<u8>, i: int) -> Option<(u8, int)> {
    if 0 <= i && i + 1 <= s.len() {
        Some((s[i], i + 1))
    } else {
        None
    }
}

pub open spec fn enc_u32(x: u32) -> Seq<u8> {
    spec_u32_to_le_bytes(x)
}

pub open spec fn dec_u32(s: Seq<u8>, i: int) -> Option<(u32, int)> {
    if 0 <= i && i + 4 <= s.len() {
        Some((spec_u32_from_le_bytes(s.subrange(i, i + 4)), i + 4))
    } else {
        None
    }
}

pub open spec fn enc_u64(x: u64) -> Seq<u8> {
    spec_u64_to_le_bytes(x)
}

pub open spec fn dec_u64(s: Seq<u8>, i: int) -> Option<(u64, int)> {
    if 0 <= i && i + 8 <= s.len() {
        Some((spec_u64_from_le_bytes(s.subrange(i, i + 8)), i + 8))
    } else {
        None
    }
}

/// The two's-complement image of an `i32` in a `u32`.
pub open spec fn u32_of_i32(x: i32) -> u32 {
    if x >= 0 {
        x as u32
    } else {
        (x + 0x1_0000_0000) as u32
    }
}

pub open spec fn i32_of_u32(u: u32) -> i32 {
    if u < 0x8000_0000 {
        u as i32
    } else {
        (u - 0x1_0000_0000) as i32
    }
}

pub open spec fn enc_i32(x: i32) -> Seq<u8> {
    enc_u32(u32_of_i32(x))
}

pub open spec fn dec_i32(s: Seq<u8>, i: int) -> Option<(i32, int)> {
    match dec_u32(s, i) {
        Some((u, j)) => Some((i32_of_u32(u), j)),
        None => None,
    }
}

/// The two's-complement image of an `i64` in a `u64`.
pub open spec fn u64_of_i64(x: i64) -> u64 {
    if x >= 0 {
        x as u64
    } else {
        (x + 0x1_0000_0000_0000_0000) as u64
    }
}

pub open spec fn i64_of_u64(u: u64) -> i64 {
    if u < 0x8000_0000_0000_0000 {
        u as i64
    } else {
        (u - 0x1_0000_0000_0000_0000) as i64
    }
}

pub open spec fn enc_i64(x: i64) -> Seq<u8> {
    enc_u64(u64_of_i64(x))
}

pub open spec fn dec_i64(s: Seq<u8>, i: int) -> Option<(i64, int)> {
    match dec_u64(s, i) {
        Some((u, j)) => Some((i64_of_u64(u), j)),
        None => None,
    }
}

/// The code points `char` may hold: everything but the surrogate range.
pub open spec fn valid_scalar(u: u32) -> bool {
    u <= 0xD7FF || (0xE000 <= u <= 0x10FFFF)
}

pub open spec fn enc_chars(t: Seq<char>) -> Seq<u8>
    decreases t.len(),
{
    if t.len() == 0 {
        Seq::empty()
    } else {
        enc_u32(t[0] as u32) + enc_chars(t.drop_first())
    }
}

pub open spec fn dec_char(s: Seq<u8>, i: int) -> Option<(char, int)> {
    match dec_u32(s, i) {
        Some((u, j)) => if valid_scalar(u) {
            Some((u as char, j))
        } else {
            None
        },
        None => None,
    }
}

pub open spec fn dec_chars(s: Seq<u8>, i: int, n: nat) -> Option<(Seq<char>, int)>
    decreases n,
{
    if n == 0 {
        Some((Seq::empty(), i))
    } else {
        match dec_char(s, i) {
            Some((c, j)) => match dec_chars(s, j, (n - 1) as nat) {
                Some((t, k)) => Some((seq![c] + t, k)),
                None => None,
            },
            None => None,
        }
    }
}

/// A string on the wire: its character count, then each code point.
pub open spec fn enc_str(t: Seq<char>) -> Seq<u8> {
    enc_u64(t.len() as u64) + enc_chars(t)
}

pub open spec fn dec_str(s: Seq<u8>, i: int) -> Option<(Seq<char>, int)> {
    match dec_u64(s, i) {
        Some((n, j)) => dec_chars(s, j, n as nat),
        None => None,
    }
}

/// A string short enough for its length prefix.
pub open spec fn str_ok(t: Seq<char>) -> bool {
    t.len() <= u64::MAX
}

// ---------------------------------------------------------------------------
// Splitting a buffer that holds a concatenation.
// ---------------------------------------------------------------------------

proof fn lemma_split2(s: Seq<u8>, i: int, a: Seq<u8>, b: Seq<u8>)
    requires
        0 <= i,
        i + a.len() + b.len() <= s.len(),
        s.subrange(i, i + a.len() + b.len()) == a + b,
    ensures
        s.subrange(i, i + a.len()) == a,
        s.subrange(i + a.len(), i + a.len() + b.len()) == b,
{
    let whole = s.subrange(i, i + a.len() + b.len());
    assert forall|k: int| 0 <= k < a.len() implies s.subrange(i, i + a.len())[k] == a[k] by {
        assert(whole[k] == (a + b)[k]);
    }
    assert(s.subrange(i, i + a.len()) =~= a);
    assert forall|k: int|
        0 <= k < b.len() implies s.subrange(i + a.len(), i + a.len() + b.len())[k] == b[k] by {
        assert(whole[a.len() + k] == (a + b)[a.len() + k]);
    }
    assert(s.subrange(i + a.len(), i + a.len() + b.len()) =~= b);
}

// ---------------------------------------------------------------------------
// Primitive round trips.
// ---------------------------------------------------------------------------

proof fn lemma_dec_enc_u8(s: Seq<u8>, i: int, x: u8)
    requires
        0 <= i,
        i + 1 <= s.len(),
        s.subrange(i, i + 1) == enc_u8(x),
    ensures
        dec_u8(s, i) == Some((x, i + 1)),
{
    assert(s[i] == s.subrange(i, i + 1)[0]);
}

proof fn lemma_dec_enc_u32(s: Seq<u8>, i: int, x: u32)
    requires
        0 <= i,
        i + 4 <= s.len(),
        s.subrange(i, i + 4) == enc_u32(x),
    ensures
        dec_u32(s, i) == Some((x, i + 4)),
{
    lemma_auto_spec_u32_to_from_le_bytes();
    assert(spec_u32_to_le_bytes(x).len() == 4);
    assert(spec_u32_from_le_bytes(spec_u32_to_le_bytes(x)) == x);
    assert(s.subrange(i, i + 4) == spec_u32_to_le_bytes(x));
}

proof fn lemma_dec_enc_u64(s: Seq<u8>, i: int, x: u64)
    requires
        0 <= i,
        i + 8 <= s.len(),
        s.subrange(i, i + 8) == enc_u64(x),
    ensures
        dec_u64(s, i) == Some((x, i + 8)),
{
    lemma_auto_spec_u64_to_from_le_bytes();
    assert(spec_u64_to_le_bytes(x).len() == 8);
    assert(spec_u64_from_le_bytes(spec_u64_to_le_bytes(x)) == x);
    assert(s.subrange(i, i + 8) == spec_u64_to_le_bytes(x));
}

proof fn lemma_dec_enc_i32(s: Seq<u8>, i: int, x: i32)
    requires
        0 <= i,
        i + 4 <= s.len(),
        s.subrange(i, i + 4) == enc_i32(x),
    ensures
        dec_i32(s, i) == Some((x, i + 4)),
{
    lemma_dec_enc_u32(s, i, u32_of_i32(x));
}

proof fn lemma_dec_enc_i64(s: Seq<u8>, i: int, x: i64)
    requires
        0 <= i,
        i + 8 <= s.len(),
        s.subrange(i, i + 8) == enc_i64(x),
    ensures
        dec_i64(s, i) == Some((x, i + 8)),
{
    lemma_dec_enc_u64(s, i, u64_of_i64(x));
}

proof fn lemma_enc_chars_len(t: Seq<char>)
    ensures
        enc_chars(t).len() == 4 * t.len(),
    decreases t.len(),
{
    lemma_auto_spec_u32_to_from_le_bytes();
    if t.len() > 0 {
        lemma_enc_chars_len(t.drop_first());
    }
}

proof fn lemma_dec_enc_chars(s: Seq<u8>, i: int, t: Seq<char>)
    requires
        0 <= i,
        i + 4 * t.len() <= s.len(),
        s.subrange(i, i + 4 * t.len()) == enc_chars(t),
    ensures
        dec_chars(s, i, t.len()) == Some((t, i + 4 * t.len())),
    decreases t.len(),
{
    lemma_auto_spec_u32_to_from_le_bytes();
    if t.len() == 0 {
        assert(t =~= Seq::<char>::empty());
    } else {
        let c = t[0];
        let rest = t.drop_first();
        lemma_enc_chars_len(rest);
        lemma_split2(s, i, enc_u32(c as u32), enc_chars(rest));
        lemma_dec_enc_u32(s, i, c as u32);
        vstd::utf8::char_is_scalar(c);
        assert(valid_scalar(c as u32));
        vstd::utf8::char_u32_cast(c, c as u32);
        assert((c as u32) as char == c);
        lemma_dec_enc_chars(s, i + 4, rest);
        assert(seq![c] + rest =~= t);
    }
}

proof fn lemma_dec_enc_str(s: Seq<u8>, i: int, t: Seq<char>)
    requires
        str_ok(t),
        0 <= i,
        i + enc_str(t).len() <= s.len(),
        s.subrange(i, i + enc_str(t).len()) == enc_str(t),
    ensures
        enc_str(t).len() == 8 + 4 * t.len(),
        dec_str(s, i) == Some((t, i + enc_str(t).len())),
{
    lemma_auto_spec_u64_to_from_le_bytes();
    lemma_enc_chars_len(t);
    lemma_split2(s, i, enc_u64(t.len() as u64), enc_chars(t));
    lemma_dec_enc_u64(s, i, t.len() as u64);
    assert((t.len() as u64) as nat == t.len());
    lemma_dec_enc_chars(s, i + 8, t);
}

/// A successful character-sequence parse consumes exactly four bytes per
/// character and stays inside the buffer.
proof fn lemma_dec_chars_bounds(s: Seq<u8>, i: int, n: nat)
    requires
        0 <= i <= s.len(),
        dec_chars(s, i, n) is Some,
    ensures
        dec_chars(s, i, n) matches Some((t, k)) && t.len() == n && k == i + 4 * n && k <= s.len(),
    decreases n,
{
    if n != 0 {
        let (c, j) = dec_char(s, i)->Some_0;
        lemma_dec_chars_bounds(s, j, (n - 1) as nat);
    }
}

// ---------------------------------------------------------------------------
// Primitive executable encoders.
// ---------------------------------------------------------------------------

fn enc_u8_into(out: &mut Vec<u8>, x: u8)
    ensures
        final(out)@ == old(out)@ + enc_u8(x),
{
    out.push(x);
    proof {
        assert(out@ =~= old(out)@ + enc_u8(x));
    }
}

fn enc_u32_into(out: &mut Vec<u8>, x: u32)
    ensures
        final(out)@ == old(out)@ + enc_u32(x),
{
    let mut b = u32_to_le_bytes(x);
    out.append(&mut b);
}

fn enc_u64_into(out: &mut Vec<u8>, x: u64)
    ensures
        final(out)@ == old(out)@ + enc_u64(x),
{
    let mut b = u64_to_le_bytes(x);
    out.append(&mut b);
}

fn enc_i32_into(out: &mut Vec<u8>, x: i32)
    ensures
        final(out)@ == old(out)@ + enc_i32(x),
{
    let u: u32 = if x >= 0 {
        x as u32
    } else {
        ((x as i64) + 0x1_0000_0000i64) as u32
    };
    proof {
        assert(u == u32_of_i32(x));
    }
    enc_u32_into(out, u);
}

fn enc_i64_into(out: &mut Vec<u8>, x: i64)
    ensures
        final(out)@ == old(out)@ + enc_i64(x),
{
    let u: u64 = if x >= 0 {
        x as u64
    } else {
        ((x as i128) + 0x1_0000_0000_0000_0000i128) as u64
    };
    proof {
        assert(u == u64_of_i64(x));
    }
    enc_u64_into(out, u);
}

proof fn lemma_enc_chars_push(t: Seq<char>, c: char)
    ensures
        enc_chars(t.push(c)) == enc_chars(t) + enc_u32(c as u32),
    decreases t.len(),
{
    if t.len() == 0 {
        assert(t.push(c)[0] == c);
        assert(t.push(c).drop_first() =~= Seq::<char>::empty());
        assert(enc_chars(Seq::<char>::empty()) == Seq::<u8>::empty());
        assert(enc_chars(t.push(c)) =~= enc_u32(c as u32));
        assert(enc_chars(t) + enc_u32(c as u32) =~= enc_u32(c as u32));
    } else {
        assert(t.push(c).drop_first() =~= t.drop_first().push(c));
        lemma_enc_chars_push(t.drop_first(), c);
        assert(enc_chars(t.push(c)) == enc_u32(t[0] as u32) + (enc_chars(t.drop_first())
            + enc_u32(c as u32)));
        assert(enc_u32(t[0] as u32) + (enc_chars(t.drop_first()) + enc_u32(c as u32)) =~= (enc_u32(
            t[0] as u32,
        ) + enc_chars(t.drop_first())) + enc_u32(c as u32));
    }
}

fn enc_str_into(out: &mut Vec<u8>, s: &String)
    ensures
        final(out)@ == old(out)@ + enc_str(s@),
{
    let n: usize = s.as_str().unicode_len();
    enc_u64_into(out, n as u64);
    proof {
        assert(n as u64 == s@.len() as u64);
        assert(s@.take(0) =~= Seq::<char>::empty());
        assert(out@ =~= old(out)@ + enc_u64(s@.len() as u64) + enc_chars(s@.take(0)));
    }
    let mut idx: usize = 0;
    while idx < n
        invariant
            idx <= n,
            n as nat == s@.len(),
            out@ == old(out)@ + enc_u64(s@.len() as u64) + enc_chars(s@.take(idx as int)),
        decreases n - idx,
    {
        let c = s.as_str().get_char(idx);
        proof {
            assert(s@.take(idx as int + 1) =~= s@.take(idx as int).push(s@[idx as int]));
            lemma_enc_chars_push(s@.take(idx as int), s@[idx as int]);
        }
        enc_u32_into(out, c as u32);
        idx = idx + 1;
    }
    proof {
        assert(s@.take(n as int) =~= s@);
        assert(out@ =~= old(out)@ + enc_str(s@));
    }
}

// ---------------------------------------------------------------------------
// Primitive executable decoders.
// ---------------------------------------------------------------------------

/// Relies on core::char::from_u32: Some exactly for the valid Unicode scalar
/// values, holding that code point.
#[verifier::external_body]
fn char_from_u32(u: u32) -> (r: Option<char>)
    ensures
        r == (if valid_scalar(u) {
            Some(u as char)
        } else {
            None::<char>
        }),
{
    char::from_u32(u)
}

fn dec_u8_at(buf: &[u8], pos: usize) -> (r: Option<(u8, usize)>)
    ensures
        r matches Some(p) ==> dec_u8(buf@, pos as int) == Some((p.0, p.1 as int)) && p.1
            <= buf@.len(),
        r is None ==> dec_u8(buf@, pos as int) is None,
{
    if pos < buf.len() {
        Some((*slice_index_get(buf, pos), pos + 1))
    } else {
        None
    }
}

fn dec_u32_at(buf: &[u8], pos: usize) -> (r: Option<(u32, usize)>)
    ensures
        r matches Some(p) ==> dec_u32(buf@, pos as int) == Some((p.0, p.1 as int)) && p.1
            <= buf@.len(),
        r is None ==> dec_u32(buf@, pos as int) is None,
{
    if pos <= buf.len() && buf.len() - pos >= 4 {
        let sub = slice_subrange(buf, pos, pos + 4);
        Some((u32_from_le_bytes(sub), pos + 4))
    } else {
        None
    }
}

fn dec_u64_at(buf: &[u8], pos: usize) -> (r: Option<(u64, usize)>)
    ensures
        r matches Some(p) ==> dec_u64(buf@, pos as int) == Some((p.0, p.1 as int)) && p.1
            <= buf@.len(),
        r is None ==> dec_u64(buf@, pos as int) is None,
{
    if pos <= buf.len() && buf.len() - pos >= 8 {
        let sub = slice_subrange(buf, pos, pos + 8);
        Some((u64_from_le_bytes(sub), pos + 8))
    } else {
        None
    }
}

fn dec_i32_at(buf: &[u8], pos: usize) -> (r: Option<(i32, usize)>)
    ensures
        r matches Some(p) ==> dec_i32(buf@, pos as int) == Some((p.0, p.1 as int)) && p.1
            <= buf@.len(),
        r is None ==> dec_i32(buf@, pos as int) is None,
{
    match dec_u32_at(buf, pos) {
        Some((u, j)) => {
            let x: i32 = if u < 0x8000_0000 {
                u as i32
            } else {
                ((u as i64) - 0x1_0000_0000i64) as i32
            };
            proof {
                assert(x == i32_of_u32(u));
            }
            Some((x, j))
        },
        None => None,
    }
}

fn dec_i64_at(buf: &[u8], pos: usize) -> (r: Option<(i64, usize)>)
    ensures
        r matches Some(p) ==> dec_i64(buf@, pos as int) == Some((p.0, p.1 as int)) && p.1
            <= buf@.len(),
        r is None ==> dec_i64(buf@, pos as int) is None,
{
    match dec_u64_at(buf, pos) {
        Some((u, j)) => {
            let x: i64 = if u < 0x8000_0000_0000_0000 {
                u as i64
            } else {
                ((u as i128) - 0x1_0000_0000_0000_0000i128) as i64
            };
            proof {
                assert(x == i64_of_u64(u));
            }
            Some((x, j))
        },
        None => None,
    }
}

fn dec_str_at(buf: &[u8], pos: usize) -> (r: Option<(String, usize)>)
    ensures
        r matches Some(p) ==> dec_str(buf@, pos as int) == Some((p.0@, p.1 as int)) && p.1
            <= buf@.len(),
        r is None ==> dec_str(buf@, pos as int) is None,
{
    match dec_u64_at(buf, pos) {
        Some((n, j)) => {
            if n > ((buf.len() - j) / 4) as u64 {
                proof {
                    if dec_chars(buf@, j as int, n as nat) is Some {
                        lemma_dec_chars_bounds(buf@, j as int, n as nat);
                    }
                }
                None
            } else {
                let cnt: usize = n as usize;
                let mut s = String::new();
                let mut m: usize = 0;
                let mut p: usize = j;
                proof {
                    match dec_chars(buf@, j as int, n as nat) {
                        Some((t0, _k0)) => {
                            assert(Seq::<char>::empty() + t0 =~= t0);
                        },
                        None => {},
                    }
                }
                while m < cnt
                    invariant
                        m <= cnt,
                        p <= buf@.len(),
                        cnt as nat == n as nat,
                        dec_u64(buf@, pos as int) == Some((n, j as int)),
                        dec_chars(buf@, j as int, n as nat) == (match dec_chars(
                            buf@,
                            p as int,
                            (cnt - m) as nat,
                        ) {
                            Some((t, k)) => Some((s@ + t, k)),
                            None => None::<(Seq<char>, int)>,
                        }),
                    decreases cnt - m,
                {
                    match dec_u32_at(buf, p) {
                        Some((u, p2)) => {
                            match char_from_u32(u) {
                                Some(c) => {
                                    let ghost prev = s@;
                                    push_char(&mut s, c);
                                    proof {
                                        match dec_chars(buf@, p2 as int, (cnt - m - 1) as nat) {
                                            Some((t2, _k2)) => {
                                                assert(prev + (seq![c] + t2) =~= (prev.push(c))
                                                    + t2);
                                            },
                                            None => {},
                                        }
                                    }
                                    m = m + 1;
                                    p = p2;
                                },
                                None => {
                                    proof {
                                        assert(dec_char(buf@, p as int) is None);
                                        assert(dec_chars(buf@, p as int, (cnt - m) as nat)
                                            is None);
                                    }
                                    return None;
                                },
                            }
                        },
                        None => {
                            proof {
                                assert(dec_char(buf@, p as int) is None);
                                assert(dec_chars(buf@, p as int, (cnt - m) as nat) is None);
                            }
                            return None;
                        },
                    }
                }
                proof {
                    assert(s@ + Seq::<char>::empty() =~= s@);
                }
                Some((s, p))
            }
        },
        None => None,
    }
}

// ---------------------------------------------------------------------------
// Entity encodings: each wire value is a tag (for unions) followed by its
// fields, every field in the canonical primitive form above.
// ---------------------------------------------------------------------------

pub open spec fn enc_opt_str(o: Option<Seq<char>>) -> Seq<u8> {
    match o {
        None => enc_u8(0),
        Some(t) => enc_u8(1) + enc_str(t),
    }
}

pub open spec fn dec_opt_str(s: Seq<u8>, i: int) -> Option<(Option<Seq<char>>, int)> {
    match dec_u8(s, i) {
        Some((tag, j)) => if tag == 0 {
            Some((None, j))
        } else if tag == 1 {
            match dec_str(s, j) {
                Some((t, k)) => Some((Some(t), k)),
                None => None,
            }
        } else {
            None
        },
        None => None,
    }
}

pub open spec fn enc_user(u: UserView) -> Seq<u8> {
    enc_i32(u.id) + enc_str(u.login)
}

pub open spec fn dec_user(s: Seq<u8>, i: int) -> Option<(UserView, int)> {
    match dec_i32(s, i) {
        Some((id, j)) => match dec_str(s, j) {
            Some((login, k)) => Some((UserView { id, login }, k)),
            None => None,
        },
        None => None,
    }
}

pub open spec fn enc_pm(m: PrivateMessageView) -> Seq<u8> {
    enc_str(m.text) + enc_i32(m.sender_id) + enc_i32(m.receiver_id) + enc_i64(m.raw_timestamp)
}

pub open spec fn dec_pm(s: Seq<u8>, i: int) -> Option<(PrivateMessageView, int)> {
    match dec_str(s, i) {
        Some((text, j1)) => match dec_i32(s, j1) {
            Some((sender_id, j2)) => match dec_i32(s, j2) {
                Some((receiver_id, j3)) => match dec_i64(s, j3) {
                    Some((raw_timestamp, j4)) => Some(
                        (PrivateMessageView { text, sender_id, receiver_id, raw_timestamp }, j4),
                    ),
                    None => None,
                },
                None => None,
            },
            None => None,
        },
        None => None,
    }
}

pub open spec fn enc_chat(m: ChatMessageView) -> Seq<u8> {
    enc_str(m.text) + enc_i32(m.sender_id) + enc_i32(m.chat_id) + enc_i64(m.raw_timestamp)
}

pub open spec fn dec_chat(s: Seq<u8>, i: int) -> Option<(ChatMessageView, int)> {
    match dec_str(s, i) {
        Some((text, j1)) => match dec_i32(s, j1) {
            Some((sender_id, j2)) => match dec_i32(s, j2) {
                Some((chat_id, j3)) => match dec_i64(s, j3) {
                    Some((raw_timestamp, j4)) => Some(
                        (ChatMessageView { text, sender_id, chat_id, raw_timestamp }, j4),
                    ),
                    None => None,
                },
                None => None,
            },
            None => None,
        },
        None => None,
    }
}

pub open spec fn auth_tag(e: AuthError) -> u8 {
    match e {
        AuthError::AlreadySignedUp => 0,
        AuthError::IncorrectCredentials => 1,
        AuthError::IncorrectSessionToken => 2,
    }
}

pub open spec fn enc_auth_err(e: AuthError) -> Seq<u8> {
    enc_u8(auth_tag(e))
}

pub open spec fn dec_auth_err(s: Seq<u8>, i: int) -> Option<(AuthError, int)> {
    match dec_u8(s, i) {
        Some((tag, j)) => if tag == 0 {
            Some((AuthError::AlreadySignedUp, j))
        } else if tag == 1 {
            Some((AuthError::IncorrectCredentials, j))
        } else if tag == 2 {
            Some((AuthError::IncorrectSessionToken, j))
        } else {
            None
        },
        None => None,
    }
}

pub open spec fn enc_req_err(e: RequestError) -> Seq<u8> {
    match e {
        RequestError::Auth(a) => enc_u8(0) + enc_auth_err(a),
    }
}

pub open spec fn dec_req_err(s: Seq<u8>, i: int) -> Option<(RequestError, int)> {
    match dec_u8(s, i) {
        Some((tag, j)) => if tag == 0 {
            match dec_auth_err(s, j) {
                Some((a, k)) => Some((RequestError::Auth(a), k)),
                None => None,
            }
        } else {
            None
        },
        None => None,
    }
}

pub open spec fn enc_method(v: MethodView) -> Seq<u8> {
    match v {
        MethodView::SignUp { login, password } => enc_u8(0) + enc_str(login) + enc_str(password),
        MethodView::LogIn { login, password } => enc_u8(1) + enc_str(login) + enc_str(password),
        MethodView::SendPrivateMessage { message, receiver_id } => enc_u8(2) + enc_str(message)
            + enc_i32(receiver_id),
        MethodView::GetPrivateChatMessages { second_user_id } => enc_u8(3) + enc_i32(
            second_user_id,
        ),
        MethodView::GetUsers => enc_u8(4),
        MethodView::GetAvailableChats => enc_u8(5),
    }
}

pub open spec fn dec_method(s: Seq<u8>, i: int) -> Option<(MethodView, int)> {
    match dec_u8(s, i) {
        Some((tag, j)) => if tag == 0 {
            match dec_str(s, j) {
                Some((login, j2)) => match dec_str(s, j2) {
                    Some((password, j3)) => Some((MethodView::SignUp { login, password }, j3)),
                    None => None,
                },
                None => None,
            }
        } else if tag == 1 {
            match dec_str(s, j) {
                Some((login, j2)) => match dec_str(s, j2) {
                    Some((password, j3)) => Some((MethodView::LogIn { login, password }, j3)),
                    None => None,
                },
                None => None,
            }
        } else if tag == 2 {
            match dec_str(s, j) {
                Some((message, j2)) => match dec_i32(s, j2) {
                    Some((receiver_id, j3)) => Some(
                        (MethodView::SendPrivateMessage { message, receiver_id }, j3),
                    ),
                    None => None,
                },
                None => None,
            }
        } else if tag == 3 {
            match dec_i32(s, j) {
                Some((second_user_id, j2)) => Some(
                    (MethodView::GetPrivateChatMessages { second_user_id }, j2),
                ),
                None => None,
            }
        } else if tag == 4 {
            Some((MethodView::GetUsers, j))
        } else if tag == 5 {
            Some((MethodView::GetAvailableChats, j))
        } else {
            None
        },
        None => None,
    }
}

// Counted lists.

pub open spec fn enc_pm_items(l: Seq<PrivateMessageView>) -> Seq<u8>
    decreases l.len(),
{
    if l.len() == 0 {
        Seq::empty()
    } else {
        enc_pm(l[0]) + enc_pm_items(l.drop_first())
    }
}

pub open spec fn dec_pm_items(s: Seq<u8>, i: int, n: nat) -> Option<(Seq<PrivateMessageView>, int)>
    decreases n,
{
    if n == 0 {
        Some((Seq::empty(), i))
    } else {
        match dec_pm(s, i) {
            Some((x, j)) => match dec_pm_items(s, j, (n - 1) as nat) {
                Some((t, k)) => Some((seq![x] + t, k)),
                None => None,
            },
            None => None,
        }
    }
}

pub open spec fn enc_pm_list(l: Seq<PrivateMessageView>) -> Seq<u8> {
    enc_u64(l.len() as u64) + enc_pm_items(l)
}

pub open spec fn dec_pm_list(s: Seq<u8>, i: int) -> Option<(Seq<PrivateMessageView>, int)> {
    match dec_u64(s, i) {
        Some((n, j)) => dec_pm_items(s, j, n as nat),
        None => None,
    }
}

pub open spec fn enc_user_items(l: Seq<UserView>) -> Seq<u8>
    decreases l.len(),
{
    if l.len() == 0 {
        Seq::empty()
    } else {
        enc_user(l[0]) + enc_user_items(l.drop_first())
    }
}

pub open spec fn dec_user_items(s: Seq<u8>, i: int, n: nat) -> Option<(Seq<UserView>, int)>
    decreases n,
{
    if n == 0 {
        Some((Seq::empty(), i))
    } else {
        match dec_user(s, i) {
            Some((x, j)) => match dec_user_items(s, j, (n - 1) as nat) {
                Some((t, k)) => Some((seq![x] + t, k)),
                None => None,
            },
            None => None,
        }
    }
}

pub open spec fn enc_user_list(l: Seq<UserView>) -> Seq<u8> {
    enc_u64(l.len() as u64) + enc_user_items(l)
}

pub open spec fn dec_user_list(s: Seq<u8>, i: int) -> Option<(Seq<UserView>, int)> {
    match dec_u64(s, i) {
        Some((n, j)) => dec_user_items(s, j, n as nat),
        None => None,
    }
}

pub open spec fn enc_i32_items(l: Seq<i32>) -> Seq<u8>
    decreases l.len(),
{
    if l.len() == 0 {
        Seq::empty()
    } else {
        enc_i32(l[0]) + enc_i32_items(l.drop_first())
    }
}

pub open spec fn dec_i32_items(s: Seq<u8>, i: int, n: nat) -> Option<(Seq<i32>, int)>
    decreases n,
{
    if n == 0 {
        Some((Seq::empty(), i))
    } else {
        match dec_i32(s, i) {
            Some((x, j)) => match dec_i32_items(s, j, (n - 1) as nat) {
                Some((t, k)) => Some((seq![x] + t, k)),
                None => None,
            },
            None => None,
        }
    }
}

pub open spec fn enc_i32_list(l: Seq<i32>) -> Seq<u8> {
    enc_u64(l.len() as u64) + enc_i32_items(l)
}

pub open spec fn dec_i32_list(s: Seq<u8>, i: int) -> Option<(Seq<i32>, int)> {
    match dec_u64(s, i) {
        Some((n, j)) => dec_i32_items(s, j, n as nat),
        None => None,
    }
}

pub open spec fn enc_mres(v: MethodResultView) -> Seq<u8> {
    match v {
        MethodResultView::SignUp => enc_u8(0),
        MethodResultView::LogIn { session_token } => enc_u8(1) + enc_str(session_token),
        MethodResultView::SendPrivateMessage => enc_u8(2),
        MethodResultView::GetPrivateChatMessages { messages } => enc_u8(3) + enc_pm_list(messages),
        MethodResultView::GetUsers { users } => enc_u8(4) + enc_user_list(users),
        MethodResultView::GetAvailableChats { chats } => enc_u8(5) + enc_i32_list(chats),
    }
}

pub open spec fn dec_mres(s: Seq<u8>, i: int) -> Option<(MethodResultView, int)> {
    match dec_u8(s, i) {
        Some((tag, j)) => if tag == 0 {
            Some((MethodResultView::SignUp, j))
        } else if tag == 1 {
            match dec_str(s, j) {
                Some((session_token, k)) => Some((MethodResultView::LogIn { session_token }, k)),
                None => None,
            }
        } else if tag == 2 {
            Some((MethodResultView::SendPrivateMessage, j))
        } else if tag == 3 {
            match dec_pm_list(s, j) {
                Some((messages, k)) => Some(
                    (MethodResultView::GetPrivateChatMessages { messages }, k),
                ),
                None => None,
            }
        } else if tag == 4 {
            match dec_user_list(s, j) {
                Some((users, k)) => Some((MethodResultView::GetUsers { users }, k)),
                None => None,
            }
        } else if tag == 5 {
            match dec_i32_list(s, j) {
                Some((chats, k)) => Some((MethodResultView::GetAvailableChats { chats }, k)),
                None => None,
            }
        } else {
            None
        },
        None => None,
    }
}

pub open spec fn enc_outcome(o: Result<MethodResultView, RequestError>) -> Seq<u8> {
    match o {
        Ok(v) => enc_u8(0) + enc_mres(v),
        Err(e) => enc_u8(1) + enc_req_err(e),
    }
}

pub open spec fn dec_outcome(s: Seq<u8>, i: int) -> Option<
    (Result<MethodResultView, RequestError>, int),
> {
    match dec_u8(s, i) {
        Some((tag, j)) => if tag == 0 {
            match dec_mres(s, j) {
                Some((v, k)) => Some((Ok(v), k)),
                None => None,
            }
        } else if tag == 1 {
            match dec_req_err(s, j) {
                Some((e, k)) => Some((Err(e), k)),
                None => None,
            }
        } else {
            None
        },
        None => None,
    }
}

pub open spec fn enc_request(r: RequestView) -> Seq<u8> {
    enc_u32(r.request_id) + enc_method(r.method) + enc_opt_str(r.session_token)
}

pub open spec fn dec_request(s: Seq<u8>, i: int) -> Option<(RequestView, int)> {
    match dec_u32(s, i) {
        Some((request_id, j1)) => match dec_method(s, j1) {
            Some((method, j2)) => match dec_opt_str(s, j2) {
                Some((session_token, j3)) => Some(
                    (RequestView { request_id, method, session_token }, j3),
                ),
                None => None,
            },
            None => None,
        },
        None => None,
    }
}

pub open spec fn enc_rres(r: RequestResultView) -> Seq<u8> {
    enc_u32(r.request_id) + enc_outcome(r.result)
}

pub open spec fn dec_rres(s: Seq<u8>, i: int) -> Option<(RequestResultView, int)> {
    match dec_u32(s, i) {
        Some((request_id, j1)) => match dec_outcome(s, j1) {
            Some((result, j2)) => Some((RequestResultView { request_id, result }, j2)),
            None => None,
        },
        None => None,
    }
}

pub open spec fn enc_event(e: EventView) -> Seq<u8> {
    match e {
        EventView::NewPrivateMessage(m) => enc_u8(0) + enc_pm(m),
        EventView::NewChatMessage(m) => enc_u8(1) + enc_chat(m),
    }
}

pub open spec fn dec_event(s: Seq<u8>, i: int) -> Option<(EventView, int)> {
    match dec_u8(s, i) {
        Some((tag, j)) => if tag == 0 {
            match dec_pm(s, j) {
                Some((m, k)) => Some((EventView::NewPrivateMessage(m), k)),
                None => None,
            }
        } else if tag == 1 {
            match dec_chat(s, j) {
                Some((m, k)) => Some((EventView::NewChatMessage(m), k)),
                None => None,
            }
        } else {
            None
        },
        None => None,
    }
}

/// A server-to-client payload: either the response to a request or an
/// unsolicited event, behind a top-level discriminator so a receiver can
/// demultiplex the two without ambiguity.
#[derive(Debug)]
pub enum ServerMessage {
    Response(RequestResult),
    Push(Event),
}

pub enum ServerMessageView {
    Response(RequestResultView),
    Push(EventView),
}

impl View for ServerMessage {
    type V = ServerMessageView;

    open spec fn view(&self) -> ServerMessageView {
        match self {
            ServerMessage::Response(r) => ServerMessageView::Response(r@),
            ServerMessage::Push(e) => ServerMessageView::Push(e@),
        }
    }
}

pub open spec fn enc_smsg(v: ServerMessageView) -> Seq<u8> {
    match v {
        ServerMessageView::Response(r) => enc_u8(0) + enc_rres(r),
        ServerMessageView::Push(e) => enc_u8(1) + enc_event(e),
    }
}

pub open spec fn dec_smsg(s: Seq<u8>, i: int) -> Option<(ServerMessageView, int)> {
    match dec_u8(s, i) {
        Some((tag, j)) => if tag == 0 {
            match dec_rres(s, j) {
                Some((r, k)) => Some((ServerMessageView::Response(r), k)),
                None => None,
            }
        } else if tag == 1 {
            match dec_event(s, j) {
                Some((e, k)) => Some((ServerMessageView::Push(e), k)),
                None => None,
            }
        } else {
            None
        },
        None => None,
    }
}

// ---------------------------------------------------------------------------
// Which values fit their length prefixes.
// ---------------------------------------------------------------------------

pub open spec fn user_ok(u: UserView) -> bool {
    str_ok(u.login)
}

pub open spec fn pm_ok(m: PrivateMessageView) -> bool {
    str_ok(m.text)
}

pub open spec fn chat_ok(m: ChatMessageView) -> bool {
    str_ok(m.text)
}

pub open spec fn method_ok(v: MethodView) -> bool {
    match v {
        MethodView::SignUp { login, password } => str_ok(login) && str_ok(password),
        MethodView::LogIn { login, password } => str_ok(login) && str_ok(password),
        MethodView::SendPrivateMessage { message, .. } => str_ok(message),
        _ => true,
    }
}

pub open spec fn mres_ok(v: MethodResultView) -> bool {
    match v {
        MethodResultView::LogIn { session_token } => str_ok(session_token),
        MethodResultView::GetPrivateChatMessages { messages } => messages.len() <= u64::MAX
            && forall|k: int| 0 <= k < messages.len() ==> pm_ok(#[trigger] messages[k]),
        MethodResultView::GetUsers { users } => users.len() <= u64::MAX && forall|k: int|
            0 <= k < users.len() ==> user_ok(#[trigger] users[k]),
        MethodResultView::GetAvailableChats { chats } => chats.len() <= u64::MAX,
        _ => true,
    }
}

pub open spec fn request_ok(r: RequestView) -> bool {
    method_ok(r.method) && (match r.session_token {
        Some(t) => str_ok(t),
        None => true,
    })
}

pub open spec fn rres_ok(r: RequestResultView) -> bool {
    match r.result {
        Ok(v) => mres_ok(v),
        Err(_) => true,
    }
}

pub open spec fn event_ok(e: EventView) -> bool {
    match e {
        EventView::NewPrivateMessage(m) => pm_ok(m),
        EventView::NewChatMessage(m) => chat_ok(m),
    }
}

pub open spec fn smsg_ok(v: ServerMessageView) -> bool {
    match v {
        ServerMessageView::Response(r) => rres_ok(r),
        ServerMessageView::Push(e) => event_ok(e),
    }
}

// ---------------------------------------------------------------------------
// Encoded lengths.
// ---------------------------------------------------------------------------

proof fn lemma_enc_u32_len(x: u32)
    ensures
        enc_u32(x).len() == 4,
{
    lemma_auto_spec_u32_to_from_le_bytes();
    assert(spec_u32_to_le_bytes(x).len() == 4);
}

proof fn lemma_enc_u64_len(x: u64)
    ensures
        enc_u64(x).len() == 8,
{
    lemma_auto_spec_u64_to_from_le_bytes();
    assert(spec_u64_to_le_bytes(x).len() == 8);
}

proof fn lemma_enc_str_len(t: Seq<char>)
    ensures
        enc_str(t).len() == 8 + 4 * t.len(),
{
    lemma_enc_u64_len(t.len() as u64);
    lemma_enc_chars_len(t);
}

// ---------------------------------------------------------------------------
// Entity round trips.
// ---------------------------------------------------------------------------

proof fn lemma_dec_enc_opt_str(s: Seq<u8>, i: int, o: Option<Seq<char>>)
    requires
        (o matches Some(t) ==> str_ok(t)),
        0 <= i,
        i + enc_opt_str(o).len() <= s.len(),
        s.subrange(i, i + enc_opt_str(o).len()) == enc_opt_str(o),
    ensures
        dec_opt_str(s, i) == Some((o, i + enc_opt_str(o).len())),
{
    match o {
        None => {
            lemma_dec_enc_u8(s, i, 0);
        },
        Some(t) => {
            lemma_split2(s, i, enc_u8(1), enc_str(t));
            lemma_dec_enc_u8(s, i, 1);
            lemma_dec_enc_str(s, i + 1, t);
        },
    }
}

proof fn lemma_dec_enc_user(s: Seq<u8>, i: int, u: UserView)
    requires
        user_ok(u),
        0 <= i,
        i + enc_user(u).len() <= s.len(),
        s.subrange(i, i + enc_user(u).len()) == enc_user(u),
    ensures
        dec_user(s, i) == Some((u, i + enc_user(u).len())),
{
    lemma_enc_u32_len(u32_of_i32(u.id));
    lemma_split2(s, i, enc_i32(u.id), enc_str(u.login));
    lemma_dec_enc_i32(s, i, u.id);
    lemma_dec_enc_str(s, i + 4, u.login);
}

proof fn lemma_dec_enc_pm(s: Seq<u8>, i: int, m: PrivateMessageView)
    requires
        pm_ok(m),
        0 <= i,
        i + enc_pm(m).len() <= s.len(),
        s.subrange(i, i + enc_pm(m).len()) == enc_pm(m),
    ensures
        dec_pm(s, i) == Some((m, i + enc_pm(m).len())),
{
    let a = enc_str(m.text);
    let b = enc_i32(m.sender_id);
    let c = enc_i32(m.receiver_id);
    let d = enc_i64(m.raw_timestamp);
    lemma_enc_str_len(m.text);
    lemma_enc_u32_len(u32_of_i32(m.sender_id));
    lemma_enc_u32_len(u32_of_i32(m.receiver_id));
    lemma_enc_u64_len(u64_of_i64(m.raw_timestamp));
    assert(enc_pm(m) =~= a + (b + (c + d)));
    lemma_split2(s, i, a, b + (c + d));
    lemma_split2(s, i + a.len(), b, c + d);
    lemma_split2(s, i + a.len() + 4, c, d);
    lemma_dec_enc_str(s, i, m.text);
    lemma_dec_enc_i32(s, i + a.len(), m.sender_id);
    lemma_dec_enc_i32(s, i + a.len() + 4, m.receiver_id);
    lemma_dec_enc_i64(s, i + a.len() + 8, m.raw_timestamp);
}

proof fn lemma_dec_enc_chat(s: Seq<u8>, i: int, m: ChatMessageView)
    requires
        chat_ok(m),
        0 <= i,
        i + enc_chat(m).len() <= s.len(),
        s.subrange(i, i + enc_chat(m).len()) == enc_chat(m),
    ensures
        dec_chat(s, i) == Some((m, i + enc_chat(m).len())),
{
    let a = enc_str(m.text);
    let b = enc_i32(m.sender_id);
    let c = enc_i32(m.chat_id);
    let d = enc_i64(m.raw_timestamp);
    lemma_enc_str_len(m.text);
    lemma_enc_u32_len(u32_of_i32(m.sender_id));
    lemma_enc_u32_len(u32_of_i32(m.chat_id));
    lemma_enc_u64_len(u64_of_i64(m.raw_timestamp));
    assert(enc_chat(m) =~= a + (b + (c + d)));
    lemma_split2(s, i, a, b + (c + d));
    lemma_split2(s, i + a.len(), b, c + d);
    lemma_split2(s, i + a.len() + 4, c, d);
    lemma_dec_enc_str(s, i, m.text);
    lemma_dec_enc_i32(s, i + a.len(), m.sender_id);
    lemma_dec_enc_i32(s, i + a.len() + 4, m.chat_id);
    lemma_dec_enc_i64(s, i + a.len() + 8, m.raw_timestamp);
}

proof fn lemma_dec_enc_auth_err(s: Seq<u8>, i: int, e: AuthError)
    requires
        0 <= i,
        i + 1 <= s.len(),
        s.subrange(i, i + 1) == enc_auth_err(e),
    ensures
        dec_auth_err(s, i) == Some((e, i + 1)),
{
    lemma_dec_enc_u8(s, i, auth_tag(e));
}

proof fn lemma_dec_enc_req_err(s: Seq<u8>, i: int, e: RequestError)
    requires
        0 <= i,
        i + enc_req_err(e).len() <= s.len(),
        s.subrange(i, i + enc_req_err(e).len()) == enc_req_err(e),
    ensures
        dec_req_err(s, i) == Some((e, i + enc_req_err(e).len())),
{
    match e {
        RequestError::Auth(a) => {
            lemma_split2(s, i, enc_u8(0), enc_auth_err(a));
            lemma_dec_enc_u8(s, i, 0);
            lemma_dec_enc_auth_err(s, i + 1, a);
        },
    }
}

proof fn lemma_dec_enc_method(s: Seq<u8>, i: int, v: MethodView)
    requires
        method_ok(v),
        0 <= i,
        i + enc_method(v).len() <= s.len(),
        s.subrange(i, i + enc_method(v).len()) == enc_method(v),
    ensures
        dec_method(s, i) == Some((v, i + enc_method(v).len())),
{
    match v {
        MethodView::SignUp { login, password } => {
            let a = enc_str(login);
            let b = enc_str(password);
            assert(enc_method(v) =~= enc_u8(0) + (a + b));
            lemma_split2(s, i, enc_u8(0), a + b);
            lemma_split2(s, i + 1, a, b);
            lemma_dec_enc_u8(s, i, 0);
            lemma_dec_enc_str(s, i + 1, login);
            lemma_dec_enc_str(s, i + 1 + a.len(), password);
        },
        MethodView::LogIn { login, password } => {
            let a = enc_str(login);
            let b = enc_str(password);
            assert(enc_method(v) =~= enc_u8(1) + (a + b));
            lemma_split2(s, i, enc_u8(1), a + b);
            lemma_split2(s, i + 1, a, b);
            lemma_dec_enc_u8(s, i, 1);
            lemma_dec_enc_str(s, i + 1, login);
            lemma_dec_enc_str(s, i + 1 + a.len(), password);
        },
        MethodView::SendPrivateMessage { message, receiver_id } => {
            let a = enc_str(message);
            let b = enc_i32(receiver_id);
            lemma_enc_u32_len(u32_of_i32(receiver_id));
            assert(enc_method(v) =~= enc_u8(2) + (a + b));
            lemma_split2(s, i, enc_u8(2), a + b);
            lemma_split2(s, i + 1, a, b);
            lemma_dec_enc_u8(s, i, 2);
            lemma_dec_enc_str(s, i + 1, message);
            lemma_dec_enc_i32(s, i + 1 + a.len(), receiver_id);
        },
        MethodView::GetPrivateChatMessages { second_user_id } => {
            lemma_enc_u32_len(u32_of_i32(second_user_id));
            lemma_split2(s, i, enc_u8(3), enc_i32(second_user_id));
            lemma_dec_enc_u8(s, i, 3);
            lemma_dec_enc_i32(s, i + 1, second_user_id);
        },
        MethodView::GetUsers => {
            lemma_dec_enc_u8(s, i, 4);
        },
        MethodView::GetAvailableChats => {
            lemma_dec_enc_u8(s, i, 5);
        },
    }
}

// ---------------------------------------------------------------------------
// Entity executable encoders.
// ---------------------------------------------------------------------------

fn enc_opt_str_into(out: &mut Vec<u8>, o: &Option<String>)
    ensures
        final(out)@ == old(out)@ + enc_opt_str(opt_string_view(*o)),
{
    match o {
        None => {
            enc_u8_into(out, 0);
        },
        Some(t) => {
            enc_u8_into(out, 1);
            enc_str_into(out, t);
            proof {
                assert(out@ =~= old(out)@ + enc_opt_str(opt_string_view(*o)));
            }
        },
    }
}

fn enc_user_into(out: &mut Vec<u8>, u: &User)
    ensures
        final(out)@ == old(out)@ + enc_user(u@),
{
    enc_i32_into(out, u.id);
    enc_str_into(out, &u.login);
    proof {
        assert(out@ =~= old(out)@ + enc_user(u@));
    }
}

fn enc_pm_into(out: &mut Vec<u8>, m: &PrivateMessage)
    ensures
        final(out)@ == old(out)@ + enc_pm(m@),
{
    enc_str_into(out, &m.text);
    enc_i32_into(out, m.sender_id);
    enc_i32_into(out, m.receiver_id);
    enc_i64_into(out, m.raw_timestamp);
    proof {
        assert(out@ =~= old(out)@ + enc_pm(m@));
    }
}

fn enc_chat_into(out: &mut Vec<u8>, m: &ChatMessage)
    ensures
        final(out)@ == old(out)@ + enc_chat(m@),
{
    enc_str_into(out, &m.text);
    enc_i32_into(out, m.sender_id);
    enc_i32_into(out, m.chat_id);
    enc_i64_into(out, m.raw_timestamp);
    proof {
        assert(out@ =~= old(out)@ + enc_chat(m@));
    }
}

fn enc_auth_err_into(out: &mut Vec<u8>, e: &AuthError)
    ensures
        final(out)@ == old(out)@ + enc_auth_err(*e),
{
    match e {
        AuthError::AlreadySignedUp => enc_u8_into(out, 0),
        AuthError::IncorrectCredentials => enc_u8_into(out, 1),
        AuthError::IncorrectSessionToken => enc_u8_into(out, 2),
    }
}

fn enc_req_err_into(out: &mut Vec<u8>, e: &RequestError)
    ensures
        final(out)@ == old(out)@ + enc_req_err(*e),
{
    match e {
        RequestError::Auth(a) => {
            enc_u8_into(out, 0);
            enc_auth_err_into(out, a);
            proof {
                assert(out@ =~= old(out)@ + enc_req_err(*e));
            }
        },
    }
}

fn enc_method_into(out: &mut Vec<u8>, m: &Method)
    ensures
        final(out)@ == old(out)@ + enc_method(m@),
{
    match m {
        Method::SignUp { login, password } => {
            enc_u8_into(out, 0);
            enc_str_into(out, login);
            enc_str_into(out, password);
        },
        Method::LogIn { login, password } => {
            enc_u8_into(out, 1);
            enc_str_into(out, login);
            enc_str_into(out, password);
        },
        Method::SendPrivateMessage { message, receiver_id } => {
            enc_u8_into(out, 2);
            enc_str_into(out, message);
            enc_i32_into(out, *receiver_id);
        },
        Method::GetPrivateChatMessages { second_user_id } => {
            enc_u8_into(out, 3);
            enc_i32_into(out, *second_user_id);
        },
        Method::GetUsers => {
            enc_u8_into(out, 4);
        },
        Method::GetAvailableChats => {
            enc_u8_into(out, 5);
        },
    }
    proof {
        assert(out@ =~= old(out)@ + enc_method(m@));
    }
}

// ---------------------------------------------------------------------------
// Entity executable decoders.
// ---------------------------------------------------------------------------

fn dec_opt_str_at(buf: &[u8], pos: usize) -> (r: Option<(Option<String>, usize)>)
    ensures
        r matches Some(p) ==> dec_opt_str(buf@, pos as int) == Some(
            (opt_string_view(p.0), p.1 as int),
        ) && p.1 <= buf@.len(),
        r is None ==> dec_opt_str(buf@, pos as int) is None,
{
    match dec_u8_at(buf, pos) {
        Some((tag, j)) => {
            if tag == 0 {
                Some((None, j))
            } else if tag == 1 {
                match dec_str_at(buf, j) {
                    Some((t, k)) => Some((Some(t), k)),
                    None => None,
                }
            } else {
                None
            }
        },
        None => None,
    }
}

fn dec_user_at(buf: &[u8], pos: usize) -> (r: Option<(User, usize)>)
    ensures
        r matches Some(p) ==> dec_user(buf@, pos as int) == Some((p.0@, p.1 as int)) && p.1
            <= buf@.len(),
        r is None ==> dec_user(buf@, pos as int) is None,
{
    match dec_i32_at(buf, pos) {
        Some((id, j)) => match dec_str_at(buf, j) {
            Some((login, k)) => Some((User { id, login }, k)),
            None => None,
        },
        None => None,
    }
}

fn dec_pm_at(buf: &[u8], pos: usize) -> (r: Option<(PrivateMessage, usize)>)
    ensures
        r matches Some(p) ==> dec_pm(buf@, pos as int) == Some((p.0@, p.1 as int)) && p.1
            <= buf@.len(),
        r is None ==> dec_pm(buf@, pos as int) is None,
{
    match dec_str_at(buf, pos) {
        Some((text, j1)) => match dec_i32_at(buf, j1) {
            Some((sender_id, j2)) => match dec_i32_at(buf, j2) {
                Some((receiver_id, j3)) => match dec_i64_at(buf, j3) {
                    Some((raw_timestamp, j4)) => Some(
                        (PrivateMessage { text, sender_id, receiver_id, raw_timestamp }, j4),
                    ),
                    None => None,
                },
                None => None,
            },
            None => None,
        },
        None => None,
    }
}

fn dec_chat_at(buf: &[u8], pos: usize) -> (r: Option<(ChatMessage, usize)>)
    ensures
        r matches Some(p) ==> dec_chat(buf@, pos as int) == Some((p.0@, p.1 as int)) && p.1
            <= buf@.len(),
        r is None ==> dec_chat(buf@, pos as int) is None,
{
    match dec_str_at(buf, pos) {
        Some((text, j1)) => match dec_i32_at(buf, j1) {
            Some((sender_id, j2)) => match dec_i32_at(buf, j2) {
                Some((chat_id, j3)) => match dec_i64_at(buf, j3) {
                    Some((raw_timestamp, j4)) => Some(
                        (ChatMessage { text, sender_id, chat_id, raw_timestamp }, j4),
                    ),
                    None => None,
                },
                None => None,
            },
            None => None,
        },
        None => None,
    }
}

fn dec_auth_err_at(buf: &[u8], pos: usize) -> (r: Option<(AuthError, usize)>)
    ensures
        r matches Some(p) ==> dec_auth_err(buf@, pos as int) == Some((p.0, p.1 as int)) && p.1
            <= buf@.len(),
        r is None ==> dec_auth_err(buf@, pos as int) is None,
{
    match dec_u8_at(buf, pos) {
        Some((tag, j)) => {
            if tag == 0 {
                Some((AuthError::AlreadySignedUp, j))
            } else if tag == 1 {
                Some((AuthError::IncorrectCredentials, j))
            } else if tag == 2 {
                Some((AuthError::IncorrectSessionToken, j))
            } else {
                None
            }
        },
        None => None,
    }
}

fn dec_req_err_at(buf: &[u8], pos: usize) -> (r: Option<(RequestError, usize)>)
    ensures
        r matches Some(p) ==> dec_req_err(buf@, pos as int) == Some((p.0, p.1 as int)) && p.1
            <= buf@.len(),
        r is None ==> dec_req_err(buf@, pos as int) is None,
{
    match dec_u8_at(buf, pos) {
        Some((tag, j)) => {
            if tag == 0 {
                match dec_auth_err_at(buf, j) {
                    Some((a, k)) => Some((RequestError::Auth(a), k)),
                    None => None,
                }
            } else {
                None
            }
        },
        None => None,
    }
}

fn dec_method_at(buf: &[u8], pos: usize) -> (r: Option<(Method, usize)>)
    ensures
        r matches Some(p) ==> dec_method(buf@, pos as int) == Some((p.0@, p.1 as int)) && p.1
            <= buf@.len(),
        r is None ==> dec_method(buf@, pos as int) is None,
{
    match dec_u8_at(buf, pos) {
        Some((tag, j)) => {
            if tag == 0 {
                match dec_str_at(buf, j) {
                    Some((login, j2)) => match dec_str_at(buf, j2) {
                        Some((password, j3)) => Some((Method::SignUp { login, password }, j3)),
                        None => None,
                    },
                    None => None,
                }
            } else if tag == 1 {
                match dec_str_at(buf, j) {
                    Some((login, j2)) => match dec_str_at(buf, j2) {
                        Some((password, j3)) => Some((Method::LogIn { login, password }, j3)),
                        None => None,
                    },
                    None => None,
                }
            } else if tag == 2 {
                match dec_str_at(buf, j) {
                    Some((message, j2)) => match dec_i32_at(buf, j2) {
                        Some((receiver_id, j3)) => Some(
                            (Method::SendPrivateMessage { message, receiver_id }, j3),
                        ),
                        None => None,
                    },
                    None => None,
                }
            } else if tag == 3 {
                match dec_i32_at(buf, j) {
                    Some((second_user_id, j2)) => Some(
                        (Method::GetPrivateChatMessages { second_user_id }, j2),
                    ),
                    None => None,
                }
            } else if tag == 4 {
                Some((Method::GetUsers, j))
            } else if tag == 5 {
                Some((Method::GetAvailableChats, j))
            } else {
                None
            }
        },
        None => None,
    }
}

// ---------------------------------------------------------------------------
// List round trips.
// ---------------------------------------------------------------------------

proof fn lemma_enc_pm_items_push(l: Seq<PrivateMessageView>, x: PrivateMessageView)
    ensures
        enc_pm_items(l.push(x)) == enc_pm_items(l) + enc_pm(x),
    decreases l.len(),
{
    if l.len() == 0 {
        assert(l.push(x)[0] == x);
        assert(l.push(x).drop_first() =~= Seq::<PrivateMessageView>::empty());
        assert(enc_pm_items(Seq::<PrivateMessageView>::empty()) == Seq::<u8>::empty());
        assert(enc_pm_items(l.push(x)) =~= enc_pm(x));
        assert(enc_pm_items(l) + enc_pm(x) =~= enc_pm(x));
    } else {
        assert(l.push(x).drop_first() =~= l.drop_first().push(x));
        lemma_enc_pm_items_push(l.drop_first(), x);
        assert(enc_pm(l[0]) + (enc_pm_items(l.drop_first()) + enc_pm(x)) =~= (enc_pm(l[0])
            + enc_pm_items(l.drop_first())) + enc_pm(x));
    }
}

proof fn lemma_enc_user_items_push(l: Seq<UserView>, x: UserView)
    ensures
        enc_user_items(l.push(x)) == enc_user_items(l) + enc_user(x),
    decreases l.len(),
{
    if l.len() == 0 {
        assert(l.push(x)[0] == x);
        assert(l.push(x).drop_first() =~= Seq::<UserView>::empty());
        assert(enc_user_items(Seq::<UserView>::empty()) == Seq::<u8>::empty());
        assert(enc_user_items(l.push(x)) =~= enc_user(x));
        assert(enc_user_items(l) + enc_user(x) =~= enc_user(x));
    } else {
        assert(l.push(x).drop_first() =~= l.drop_first().push(x));
        lemma_enc_user_items_push(l.drop_first(), x);
        assert(enc_user(l[0]) + (enc_user_items(l.drop_first()) + enc_user(x)) =~= (enc_user(l[0])
            + enc_user_items(l.drop_first())) + enc_user(x));
    }
}

proof fn lemma_enc_i32_items_push(l: Seq<i32>, x: i32)
    ensures
        enc_i32_items(l.push(x)) == enc_i32_items(l) + enc_i32(x),
    decreases l.len(),
{
    if l.len() == 0 {
        assert(l.push(x)[0] == x);
        assert(l.push(x).drop_first() =~= Seq::<i32>::empty());
        assert(enc_i32_items(Seq::<i32>::empty()) == Seq::<u8>::empty());
        assert(enc_i32_items(l.push(x)) =~= enc_i32(x));
        assert(enc_i32_items(l) + enc_i32(x) =~= enc_i32(x));
    } else {
        assert(l.push(x).drop_first() =~= l.drop_first().push(x));
        lemma_enc_i32_items_push(l.drop_first(), x);
        assert(enc_i32(l[0]) + (enc_i32_items(l.drop_first()) + enc_i32(x)) =~= (enc_i32(l[0])
            + enc_i32_items(l.drop_first())) + enc_i32(x));
    }
}

proof fn lemma_dec_enc_pm_items(s: Seq<u8>, i: int, l: Seq<PrivateMessageView>)
    requires
        forall|k: int| 0 <= k < l.len() ==> pm_ok(#[trigger] l[k]),
        0 <= i,
        i + enc_pm_items(l).len() <= s.len(),
        s.subrange(i, i + enc_pm_items(l).len()) == enc_pm_items(l),
    ensures
        dec_pm_items(s, i, l.len()) == Some((l, i + enc_pm_items(l).len())),
    decreases l.len(),
{
    if l.len() == 0 {
        assert(l =~= Seq::<PrivateMessageView>::empty());
    } else {
        let a = enc_pm(l[0]);
        let rest = l.drop_first();
        lemma_split2(s, i, a, enc_pm_items(rest));
        lemma_dec_enc_pm(s, i, l[0]);
        assert(forall|k: int| 0 <= k < rest.len() ==> #[trigger] rest[k] == l[k + 1]);
        lemma_dec_enc_pm_items(s, i + a.len(), rest);
        assert(seq![l[0]] + rest =~= l);
    }
}

proof fn lemma_dec_enc_user_items(s: Seq<u8>, i: int, l: Seq<UserView>)
    requires
        forall|k: int| 0 <= k < l.len() ==> user_ok(#[trigger] l[k]),
        0 <= i,
        i + enc_user_items(l).len() <= s.len(),
        s.subrange(i, i + enc_user_items(l).len()) == enc_user_items(l),
    ensures
        dec_user_items(s, i, l.len()) == Some((l, i + enc_user_items(l).len())),
    decreases l.len(),
{
    if l.len() == 0 {
        assert(l =~= Seq::<UserView>::empty());
    } else {
        let a = enc_user(l[0]);
        let rest = l.drop_first();
        lemma_split2(s, i, a, enc_user_items(rest));
        lemma_dec_enc_user(s, i, l[0]);
        assert(forall|k: int| 0 <= k < rest.len() ==> #[trigger] rest[k] == l[k + 1]);
        lemma_dec_enc_user_items(s, i + a.len(), rest);
        assert(seq![l[0]] + rest =~= l);
    }
}

proof fn lemma_dec_enc_i32_items(s: Seq<u8>, i: int, l: Seq<i32>)
    requires
        0 <= i,
        i + enc_i32_items(l).len() <= s.len(),
        s.subrange(i, i + enc_i32_items(l).len()) == enc_i32_items(l),
    ensures
        dec_i32_items(s, i, l.len()) == Some((l, i + enc_i32_items(l).len())),
    decreases l.len(),
{
    if l.len() == 0 {
        assert(l =~= Seq::<i32>::empty());
    } else {
        let a = enc_i32(l[0]);
        let rest = l.drop_first();
        lemma_enc_u32_len(u32_of_i32(l[0]));
        lemma_split2(s, i, a, enc_i32_items(rest));
        lemma_dec_enc_i32(s, i, l[0]);
        lemma_dec_enc_i32_items(s, i + a.len(), rest);
        assert(seq![l[0]] + rest =~= l);
    }
}

proof fn lemma_dec_enc_pm_list(s: Seq<u8>, i: int, l: Seq<PrivateMessageView>)
    requires
        l.len() <= u64::MAX,
        forall|k: int| 0 <= k < l.len() ==> pm_ok(#[trigger] l[k]),
        0 <= i,
        i + enc_pm_list(l).len() <= s.len(),
        s.subrange(i, i + enc_pm_list(l).len()) == enc_pm_list(l),
    ensures
        dec_pm_list(s, i) == Some((l, i + enc_pm_list(l).len())),
{
    lemma_enc_u64_len(l.len() as u64);
    lemma_split2(s, i, enc_u64(l.len() as u64), enc_pm_items(l));
    lemma_dec_enc_u64(s, i, l.len() as u64);
    assert((l.len() as u64) as nat == l.len());
    lemma_dec_enc_pm_items(s, i + 8, l);
}

proof fn lemma_dec_enc_user_list(s: Seq<u8>, i: int, l: Seq<UserView>)
    requires
        l.len() <= u64::MAX,
        forall|k: int| 0 <= k < l.len() ==> user_ok(#[trigger] l[k]),
        0 <= i,
        i + enc_user_list(l).len() <= s.len(),
        s.subrange(i, i + enc_user_list(l).len()) == enc_user_list(l),
    ensures
        dec_user_list(s, i) == Some((l, i + enc_user_list(l).len())),
{
    lemma_enc_u64_len(l.len() as u64);
    lemma_split2(s, i, enc_u64(l.len() as u64), enc_user_items(l));
    lemma_dec_enc_u64(s, i, l.len() as u64);
    assert((l.len() as u64) as nat == l.len());
    lemma_dec_enc_user_items(s, i + 8, l);
}

proof fn lemma_dec_enc_i32_list(s: Seq<u8>, i: int, l: Seq<i32>)
    requires
        l.len() <= u64::MAX,
        0 <= i,
        i + enc_i32_list(l).len() <= s.len(),
        s.subrange(i, i + enc_i32_list(l).len()) == enc_i32_list(l),
    ensures
        dec_i32_list(s, i) == Some((l, i + enc_i32_list(l).len())),
{
    lemma_enc_u64_len(l.len() as u64);
    lemma_split2(s, i, enc_u64(l.len() as u64), enc_i32_items(l));
    lemma_dec_enc_u64(s, i, l.len() as u64);
    assert((l.len() as u64) as nat == l.len());
    lemma_dec_enc_i32_items(s, i + 8, l);
}

// ---------------------------------------------------------------------------
// A successful parse advances and stays inside the buffer.
// ---------------------------------------------------------------------------

proof fn lemma_dec_str_adv(s: Seq<u8>, i: int)
    requires
        0 <= i,
        dec_str(s, i) is Some,
    ensures
        dec_str(s, i) matches Some((t, k)) && i < k <= s.len(),
{
    let (n, j) = dec_u64(s, i)->Some_0;
    lemma_dec_chars_bounds(s, j, n as nat);
}

proof fn lemma_dec_pm_adv(s: Seq<u8>, i: int)
    requires
        0 <= i,
        dec_pm(s, i) is Some,
    ensures
        dec_pm(s, i) matches Some((v, k)) && i < k <= s.len(),
{
    lemma_dec_str_adv(s, i);
}

proof fn lemma_dec_user_adv(s: Seq<u8>, i: int)
    requires
        0 <= i,
        dec_user(s, i) is Some,
    ensures
        dec_user(s, i) matches Some((v, k)) && i < k <= s.len(),
{
    lemma_dec_str_adv(s, i + 4);
}

proof fn lemma_dec_pm_items_bound(s: Seq<u8>, i: int, n: nat)
    requires
        0 <= i <= s.len(),
        dec_pm_items(s, i, n) is Some,
    ensures
        dec_pm_items(s, i, n) matches Some((l, k)) && l.len() == n && i + n <= k <= s.len(),
    decreases n,
{
    if n != 0 {
        lemma_dec_pm_adv(s, i);
        let (x, j) = dec_pm(s, i)->Some_0;
        lemma_dec_pm_items_bound(s, j, (n - 1) as nat);
    }
}

proof fn lemma_dec_user_items_bound(s: Seq<u8>, i: int, n: nat)
    requires
        0 <= i <= s.len(),
        dec_user_items(s, i, n) is Some,
    ensures
        dec_user_items(s, i, n) matches Some((l, k)) && l.len() == n && i + n <= k <= s.len(),
    decreases n,
{
    if n != 0 {
        lemma_dec_user_adv(s, i);
        let (x, j) = dec_user(s, i)->Some_0;
        lemma_dec_user_items_bound(s, j, (n - 1) as nat);
    }
}

proof fn lemma_dec_i32_items_bound(s: Seq<u8>, i: int, n: nat)
    requires
        0 <= i <= s.len(),
        dec_i32_items(s, i, n) is Some,
    ensures
        dec_i32_items(s, i, n) matches Some((l, k)) && l.len() == n && i + n <= k <= s.len(),
    decreases n,
{
    if n != 0 {
        let (x, j) = dec_i32(s, i)->Some_0;
        lemma_dec_i32_items_bound(s, j, (n - 1) as nat);
    }
}

// ---------------------------------------------------------------------------
// Envelope round trips.
// ---------------------------------------------------------------------------

proof fn lemma_dec_enc_mres(s: Seq<u8>, i: int, v: MethodResultView)
    requires
        mres_ok(v),
        0 <= i,
        i + enc_mres(v).len() <= s.len(),
        s.subrange(i, i + enc_mres(v).len()) == enc_mres(v),
    ensures
        dec_mres(s, i) == Some((v, i + enc_mres(v).len())),
{
    match v {
        MethodResultView::SignUp => {
            lemma_dec_enc_u8(s, i, 0);
        },
        MethodResultView::LogIn { session_token } => {
            lemma_split2(s, i, enc_u8(1), enc_str(session_token));
            lemma_dec_enc_u8(s, i, 1);
            lemma_dec_enc_str(s, i + 1, session_token);
        },
        MethodResultView::SendPrivateMessage => {
            lemma_dec_enc_u8(s, i, 2);
        },
        MethodResultView::GetPrivateChatMessages { messages } => {
            lemma_split2(s, i, enc_u8(3), enc_pm_list(messages));
            lemma_dec_enc_u8(s, i, 3);
            lemma_dec_enc_pm_list(s, i + 1, messages);
        },
        MethodResultView::GetUsers { users } => {
            lemma_split2(s, i, enc_u8(4), enc_user_list(users));
            lemma_dec_enc_u8(s, i, 4);
            lemma_dec_enc_user_list(s, i + 1, users);
        },
        MethodResultView::GetAvailableChats { chats } => {
            lemma_split2(s, i, enc_u8(5), enc_i32_list(chats));
            lemma_dec_enc_u8(s, i, 5);
            lemma_dec_enc_i32_list(s, i + 1, chats);
        },
    }
}

proof fn lemma_dec_enc_outcome(s: Seq<u8>, i: int, o: Result<MethodResultView, RequestError>)
    requires
        (o matches Ok(v) ==> mres_ok(v)),
        0 <= i,
        i + enc_outcome(o).len() <= s.len(),
        s.subrange(i, i + enc_outcome(o).len()) == enc_outcome(o),
    ensures
        dec_outcome(s, i) == Some((o, i + enc_outcome(o).len())),
{
    match o {
        Ok(v) => {
            lemma_split2(s, i, enc_u8(0), enc_mres(v));
            lemma_dec_enc_u8(s, i, 0);
            lemma_dec_enc_mres(s, i + 1, v);
        },
        Err(e) => {
            lemma_split2(s, i, enc_u8(1), enc_req_err(e));
            lemma_dec_enc_u8(s, i, 1);
            lemma_dec_enc_req_err(s, i + 1, e);
        },
    }
}

proof fn lemma_dec_enc_request(s: Seq<u8>, i: int, r: RequestView)
    requires
        request_ok(r),
        0 <= i,
        i + enc_request(r).len() <= s.len(),
        s.subrange(i, i + enc_request(r).len()) == enc_request(r),
    ensures
        dec_request(s, i) == Some((r, i + enc_request(r).len())),
{
    let a = enc_u32(r.request_id);
    let b = enc_method(r.method);
    let c = enc_opt_str(r.session_token);
    lemma_enc_u32_len(r.request_id);
    assert(enc_request(r) =~= a + (b + c));
    lemma_split2(s, i, a, b + c);
    lemma_split2(s, i + 4, b, c);
    lemma_dec_enc_u32(s, i, r.request_id);
    lemma_dec_enc_method(s, i + 4, r.method);
    lemma_dec_enc_opt_str(s, i + 4 + b.len(), r.session_token);
}

proof fn lemma_dec_enc_rres(s: Seq<u8>, i: int, r: RequestResultView)
    requires
        rres_ok(r),
        0 <= i,
        i + enc_rres(r).len() <= s.len(),
        s.subrange(i, i + enc_rres(r).len()) == enc_rres(r),
    ensures
        dec_rres(s, i) == Some((r, i + enc_rres(r).len())),
{
    lemma_enc_u32_len(r.request_id);
    lemma_split2(s, i, enc_u32(r.request_id), enc_outcome(r.result));
    lemma_dec_enc_u32(s, i, r.request_id);
    lemma_dec_enc_outcome(s, i + 4, r.result);
}

proof fn lemma_dec_enc_event(s: Seq<u8>, i: int, e: EventView)
    requires
        event_ok(e),
        0 <= i,
        i + enc_event(e).len() <= s.len(),
        s.subrange(i, i + enc_event(e).len()) == enc_event(e),
    ensures
        dec_event(s, i) == Some((e, i + enc_event(e).len())),
{
    match e {
        EventView::NewPrivateMessage(m) => {
            lemma_split2(s, i, enc_u8(0), enc_pm(m));
            lemma_dec_enc_u8(s, i, 0);
            lemma_dec_enc_pm(s, i + 1, m);
        },
        EventView::NewChatMessage(m) => {
            lemma_split2(s, i, enc_u8(1), enc_chat(m));
            lemma_dec_enc_u8(s, i, 1);
            lemma_dec_enc_chat(s, i + 1, m);
        },
    }
}

proof fn lemma_dec_enc_smsg(s: Seq<u8>, i: int, v: ServerMessageView)
    requires
        smsg_ok(v),
        0 <= i,
        i + enc_smsg(v).len() <= s.len(),
        s.subrange(i, i + enc_smsg(v).len()) == enc_smsg(v),
    ensures
        dec_smsg(s, i) == Some((v, i + enc_smsg(v).len())),
{
    match v {
        ServerMessageView::Response(r) => {
            lemma_split2(s, i, enc_u8(0), enc_rres(r));
            lemma_dec_enc_u8(s, i, 0);
            lemma_dec_enc_rres(s, i + 1, r);
        },
        ServerMessageView::Push(e) => {
            lemma_split2(s, i, enc_u8(1), enc_event(e));
            lemma_dec_enc_u8(s, i, 1);
            lemma_dec_enc_event(s, i + 1, e);
        },
    }
}

// ---------------------------------------------------------------------------
// List executable codecs.
// ---------------------------------------------------------------------------

fn enc_pm_list_into(out: &mut Vec<u8>, l: &Vec<PrivateMessage>)
    ensures
        final(out)@ == old(out)@ + enc_pm_list(pm_views(l@)),
{
    enc_u64_into(out, l.len() as u64);
    proof {
        assert(pm_views(l@).take(0) =~= Seq::<PrivateMessageView>::empty());
        assert(enc_pm_items(Seq::<PrivateMessageView>::empty()) == Seq::<u8>::empty());
        assert(out@ =~= old(out)@ + enc_u64(pm_views(l@).len() as u64) + enc_pm_items(
            pm_views(l@).take(0),
        ));
    }
    let mut i: usize = 0;
    while i < l.len()
        invariant
            i <= l@.len(),
            out@ == old(out)@ + enc_u64(pm_views(l@).len() as u64) + enc_pm_items(
                pm_views(l@).take(i as int),
            ),
        decreases l@.len() - i,
    {
        proof {
            assert(pm_views(l@).take(i as int + 1) =~= pm_views(l@).take(i as int).push(
                l@[i as int]@,
            ));
            lemma_enc_pm_items_push(pm_views(l@).take(i as int), l@[i as int]@);
        }
        enc_pm_into(out, &l[i]);
        i = i + 1;
    }
    proof {
        assert(pm_views(l@).take(l@.len() as int) =~= pm_views(l@));
        assert(out@ =~= old(out)@ + enc_pm_list(pm_views(l@)));
    }
}

fn enc_user_list_into(out: &mut Vec<u8>, l: &Vec<User>)
    ensures
        final(out)@ == old(out)@ + enc_user_list(user_views(l@)),
{
    enc_u64_into(out, l.len() as u64);
    proof {
        assert(user_views(l@).take(0) =~= Seq::<UserView>::empty());
        assert(enc_user_items(Seq::<UserView>::empty()) == Seq::<u8>::empty());
        assert(out@ =~= old(out)@ + enc_u64(user_views(l@).len() as u64) + enc_user_items(
            user_views(l@).take(0),
        ));
    }
    let mut i: usize = 0;
    while i < l.len()
        invariant
            i <= l@.len(),
            out@ == old(out)@ + enc_u64(user_views(l@).len() as u64) + enc_user_items(
                user_views(l@).take(i as int),
            ),
        decreases l@.len() - i,
    {
        proof {
            assert(user_views(l@).take(i as int + 1) =~= user_views(l@).take(i as int).push(
                l@[i as int]@,
            ));
            lemma_enc_user_items_push(user_views(l@).take(i as int), l@[i as int]@);
        }
        enc_user_into(out, &l[i]);
        i = i + 1;
    }
    proof {
        assert(user_views(l@).take(l@.len() as int) =~= user_views(l@));
        assert(out@ =~= old(out)@ + enc_user_list(user_views(l@)));
    }
}

fn enc_i32_list_into(out: &mut Vec<u8>, l: &Vec<i32>)
    ensures
        final(out)@ == old(out)@ + enc_i32_list(l@),
{
    enc_u64_into(out, l.len() as u64);
    proof {
        assert(l@.take(0) =~= Seq::<i32>::empty());
        assert(enc_i32_items(Seq::<i32>::empty()) == Seq::<u8>::empty());
        assert(out@ =~= old(out)@ + enc_u64(l@.len() as u64) + enc_i32_items(l@.take(0)));
    }
    let mut i: usize = 0;
    while i < l.len()
        invariant
            i <= l@.len(),
            out@ == old(out)@ + enc_u64(l@.len() as u64) + enc_i32_items(l@.take(i as int)),
        decreases l@.len() - i,
    {
        proof {
            assert(l@.take(i as int + 1) =~= l@.take(i as int).push(l@[i as int]));
            lemma_enc_i32_items_push(l@.take(i as int), l@[i as int]);
        }
        enc_i32_into(out, l[i]);
        i = i + 1;
    }
    proof {
        assert(l@.take(l@.len() as int) =~= l@);
        assert(out@ =~= old(out)@ + enc_i32_list(l@));
    }
}

fn dec_pm_list_at(buf: &[u8], pos: usize) -> (r: Option<(Vec<PrivateMessage>, usize)>)
    ensures
        r matches Some(p) ==> dec_pm_list(buf@, pos as int) == Some(
            (pm_views(p.0@), p.1 as int),
        ) && p.1 <= buf@.len(),
        r is None ==> dec_pm_list(buf@, pos as int) is None,
{
    match dec_u64_at(buf, pos) {
        Some((n, j)) => {
            if n > (buf.len() - j) as u64 {
                proof {
                    if dec_pm_items(buf@, j as int, n as nat) is Some {
                        lemma_dec_pm_items_bound(buf@, j as int, n as nat);
                    }
                }
                None
            } else {
                let cnt: usize = n as usize;
                let mut out: Vec<PrivateMessage> = Vec::new();
                let mut m: usize = 0;
                let mut p: usize = j;
                proof {
                    assert(pm_views(out@) =~= Seq::<PrivateMessageView>::empty());
                    match dec_pm_items(buf@, j as int, n as nat) {
                        Some((t0, _k0)) => {
                            assert(Seq::<PrivateMessageView>::empty() + t0 =~= t0);
                        },
                        None => {},
                    }
                }
                while m < cnt
                    invariant
                        m <= cnt,
                        p <= buf@.len(),
                        cnt as nat == n as nat,
                        dec_u64(buf@, pos as int) == Some((n, j as int)),
                        dec_pm_items(buf@, j as int, n as nat) == (match dec_pm_items(
                            buf@,
                            p as int,
                            (cnt - m) as nat,
                        ) {
                            Some((t, k)) => Some((pm_views(out@) + t, k)),
                            None => None::<(Seq<PrivateMessageView>, int)>,
                        }),
                    decreases cnt - m,
                {
                    match dec_pm_at(buf, p) {
                        Some((x, p2)) => {
                            let ghost prev = out@;
                            let ghost xv = x@;
                            out.push(x);
                            proof {
                                assert(pm_views(out@) =~= pm_views(prev).push(xv));
                                match dec_pm_items(buf@, p2 as int, (cnt - m - 1) as nat) {
                                    Some((t2, _k2)) => {
                                        assert(pm_views(prev) + (seq![xv] + t2) =~= (pm_views(
                                            prev,
                                        ).push(xv)) + t2);
                                    },
                                    None => {},
                                }
                            }
                            m = m + 1;
                            p = p2;
                        },
                        None => {
                            proof {
                                assert(dec_pm_items(buf@, p as int, (cnt - m) as nat) is None);
                            }
                            return None;
                        },
                    }
                }
                proof {
                    assert(pm_views(out@) + Seq::<PrivateMessageView>::empty() =~= pm_views(out@));
                }
                Some((out, p))
            }
        },
        None => None,
    }
}

fn dec_user_list_at(buf: &[u8], pos: usize) -> (r: Option<(Vec<User>, usize)>)
    ensures
        r matches Some(p) ==> dec_user_list(buf@, pos as int) == Some(
            (user_views(p.0@), p.1 as int),
        ) && p.1 <= buf@.len(),
        r is None ==> dec_user_list(buf@, pos as int) is None,
{
    match dec_u64_at(buf, pos) {
        Some((n, j)) => {
            if n > (buf.len() - j) as u64 {
                proof {
                    if dec_user_items(buf@, j as int, n as nat) is Some {
                        lemma_dec_user_items_bound(buf@, j as int, n as nat);
                    }
                }
                None
            } else {
                let cnt: usize = n as usize;
                let mut out: Vec<User> = Vec::new();
                let mut m: usize = 0;
                let mut p: usize = j;
                proof {
                    assert(user_views(out@) =~= Seq::<UserView>::empty());
                    match dec_user_items(buf@, j as int, n as nat) {
                        Some((t0, _k0)) => {
                            assert(Seq::<UserView>::empty() + t0 =~= t0);
                        },
                        None => {},
                    }
                }
                while m < cnt
                    invariant
                        m <= cnt,
                        p <= buf@.len(),
                        cnt as nat == n as nat,
                        dec_u64(buf@, pos as int) == Some((n, j as int)),
                        dec_user_items(buf@, j as int, n as nat) == (match dec_user_items(
                            buf@,
                            p as int,
                            (cnt - m) as nat,
                        ) {
                            Some((t, k)) => Some((user_views(out@) + t, k)),
                            None => None::<(Seq<UserView>, int)>,
                        }),
                    decreases cnt - m,
                {
                    match dec_user_at(buf, p) {
                        Some((x, p2)) => {
                            let ghost prev = out@;
                            let ghost xv = x@;
                            out.push(x);
                            proof {
                                assert(user_views(out@) =~= user_views(prev).push(xv));
                                match dec_user_items(buf@, p2 as int, (cnt - m - 1) as nat) {
                                    Some((t2, _k2)) => {
                                        assert(user_views(prev) + (seq![xv] + t2) =~= (user_views(
                                            prev,
                                        ).push(xv)) + t2);
                                    },
                                    None => {},
                                }
                            }
                            m = m + 1;
                            p = p2;
                        },
                        None => {
                            proof {
                                assert(dec_user_items(buf@, p as int, (cnt - m) as nat) is None);
                            }
                            return None;
                        },
                    }
                }
                proof {
                    assert(user_views(out@) + Seq::<UserView>::empty() =~= user_views(out@));
                }
                Some((out, p))
            }
        },
        None => None,
    }
}

fn dec_i32_list_at(buf: &[u8], pos: usize) -> (r: Option<(Vec<i32>, usize)>)
    ensures
        r matches Some(p) ==> dec_i32_list(buf@, pos as int) == Some((p.0@, p.1 as int)) && p.1
            <= buf@.len(),
        r is None ==> dec_i32_list(buf@, pos as int) is None,
{
    match dec_u64_at(buf, pos) {
        Some((n, j)) => {
            if n > (buf.len() - j) as u64 {
                proof {
                    if dec_i32_items(buf@, j as int, n as nat) is Some {
                        lemma_dec_i32_items_bound(buf@, j as int, n as nat);
                    }
                }
                None
            } else {
                let cnt: usize = n as usize;
                let mut out: Vec<i32> = Vec::new();
                let mut m: usize = 0;
                let mut p: usize = j;
                proof {
                    match dec_i32_items(buf@, j as int, n as nat) {
                        Some((t0, _k0)) => {
                            assert(Seq::<i32>::empty() + t0 =~= t0);
                        },
                        None => {},
                    }
                }
                while m < cnt
                    invariant
                        m <= cnt,
                        p <= buf@.len(),
                        cnt as nat == n as nat,
                        dec_u64(buf@, pos as int) == Some((n, j as int)),
                        dec_i32_items(buf@, j as int, n as nat) == (match dec_i32_items(
                            buf@,
                            p as int,
                            (cnt - m) as nat,
                        ) {
                            Some((t, k)) => Some((out@ + t, k)),
                            None => None::<(Seq<i32>, int)>,
                        }),
                    decreases cnt - m,
                {
                    match dec_i32_at(buf, p) {
                        Some((x, p2)) => {
                            let ghost prev = out@;
                            out.push(x);
                            proof {
                                match dec_i32_items(buf@, p2 as int, (cnt - m - 1) as nat) {
                                    Some((t2, _k2)) => {
                                        assert(prev + (seq![x] + t2) =~= (prev.push(x)) + t2);
                                    },
                                    None => {},
                                }
                            }
                            m = m + 1;
                            p = p2;
                        },
                        None => {
                            proof {
                                assert(dec_i32_items(buf@, p as int, (cnt - m) as nat) is None);
                            }
                            return None;
                        },
                    }
                }
                proof {
                    assert(out@ + Seq::<i32>::empty() =~= out@);
                }
                Some((out, p))
            }
        },
        None => None,
    }
}

// ---------------------------------------------------------------------------
// Envelope executable codecs.
// ---------------------------------------------------------------------------

fn enc_mres_into(out: &mut Vec<u8>, v: &MethodResult)
    ensures
        final(out)@ == old(out)@ + enc_mres(v@),
{
    match v {
        MethodResult::SignUp => {
            enc_u8_into(out, 0);
        },
        MethodResult::LogIn { session_token } => {
            enc_u8_into(out, 1);
            enc_str_into(out, session_token);
        },
        MethodResult::SendPrivateMessage => {
            enc_u8_into(out, 2);
        },
        MethodResult::GetPrivateChatMessages { messages } => {
            enc_u8_into(out, 3);
            enc_pm_list_into(out, messages);
        },
        MethodResult::GetUsers { users } => {
            enc_u8_into(out, 4);
            enc_user_list_into(out, users);
        },
        MethodResult::GetAvailableChats { chats } => {
            enc_u8_into(out, 5);
            enc_i32_list_into(out, chats);
        },
    }
    proof {
        assert(out@ =~= old(out)@ + enc_mres(v@));
    }
}

fn enc_outcome_into(out: &mut Vec<u8>, o: &Result<MethodResult, RequestError>)
    ensures
        final(out)@ == old(out)@ + enc_outcome(
            match o {
                Ok(v) => Ok(v@),
                Err(e) => Err(*e),
            },
        ),
{
    match o {
        Ok(v) => {
            enc_u8_into(out, 0);
            enc_mres_into(out, v);
        },
        Err(e) => {
            enc_u8_into(out, 1);
            enc_req_err_into(out, e);
        },
    }
    proof {
        assert(out@ =~= old(out)@ + enc_outcome(
            match o {
                Ok(v) => Ok(v@),
                Err(e) => Err(*e),
            },
        ));
    }
}

fn enc_request_into(out: &mut Vec<u8>, r: &Request)
    ensures
        final(out)@ == old(out)@ + enc_request(r@),
{
    enc_u32_into(out, r.request_id);
    enc_method_into(out, &r.method);
    enc_opt_str_into(out, &r.session_token);
    proof {
        assert(out@ =~= old(out)@ + enc_request(r@));
    }
}

fn enc_rres_into(out: &mut Vec<u8>, r: &RequestResult)
    ensures
        final(out)@ == old(out)@ + enc_rres(r@),
{
    enc_u32_into(out, r.request_id);
    enc_outcome_into(out, &r.result);
    proof {
        assert(out@ =~= old(out)@ + enc_rres(r@));
    }
}

fn enc_event_into(out: &mut Vec<u8>, e: &Event)
    ensures
        final(out)@ == old(out)@ + enc_event(e@),
{
    match e {
        Event::NewPrivateMessage(m) => {
            enc_u8_into(out, 0);
            enc_pm_into(out, m);
        },
        Event::NewChatMessage(m) => {
            enc_u8_into(out, 1);
            enc_chat_into(out, m);
        },
    }
    proof {
        assert(out@ =~= old(out)@ + enc_event(e@));
    }
}

fn enc_smsg_into(out: &mut Vec<u8>, v: &ServerMessage)
    ensures
        final(out)@ == old(out)@ + enc_smsg(v@),
{
    match v {
        ServerMessage::Response(r) => {
            enc_u8_into(out, 0);
            enc_rres_into(out, r);
        },
        ServerMessage::Push(e) => {
            enc_u8_into(out, 1);
            enc_event_into(out, e);
        },
    }
    proof {
        assert(out@ =~= old(out)@ + enc_smsg(v@));
    }
}

fn dec_mres_at(buf: &[u8], pos: usize) -> (r: Option<(MethodResult, usize)>)
    ensures
        r matches Some(p) ==> dec_mres(buf@, pos as int) == Some((p.0@, p.1 as int)) && p.1
            <= buf@.len(),
        r is None ==> dec_mres(buf@, pos as int) is None,
{
    match dec_u8_at(buf, pos) {
        Some((tag, j)) => {
            if tag == 0 {
                Some((MethodResult::SignUp, j))
            } else if tag == 1 {
                match dec_str_at(buf, j) {
                    Some((session_token, k)) => Some((MethodResult::LogIn { session_token }, k)),
                    None => None,
                }
            } else if tag == 2 {
                Some((MethodResult::SendPrivateMessage, j))
            } else if tag == 3 {
                match dec_pm_list_at(buf, j) {
                    Some((messages, k)) => Some(
                        (MethodResult::GetPrivateChatMessages { messages }, k),
                    ),
                    None => None,
                }
            } else if tag == 4 {
                match dec_user_list_at(buf, j) {
                    Some((users, k)) => Some((MethodResult::GetUsers { users }, k)),
                    None => None,
                }
            } else if tag == 5 {
                match dec_i32_list_at(buf, j) {
                    Some((chats, k)) => Some((MethodResult::GetAvailableChats { chats }, k)),
                    None => None,
                }
            } else {
                None
            }
        },
        None => None,
    }
}

fn dec_outcome_at(buf: &[u8], pos: usize) -> (r: Option<
    (Result<MethodResult, RequestError>, usize),
>)
    ensures
        r matches Some(p) ==> dec_outcome(buf@, pos as int) == Some(
            (
                match p.0 {
                    Ok(v) => Ok(v@),
                    Err(e) => Err(e),
                },
                p.1 as int,
            ),
        ) && p.1 <= buf@.len(),
        r is None ==> dec_outcome(buf@, pos as int) is None,
{
    match dec_u8_at(buf, pos) {
        Some((tag, j)) => {
            if tag == 0 {
                match dec_mres_at(buf, j) {
                    Some((v, k)) => Some((Ok(v), k)),
                    None => None,
                }
            } else if tag == 1 {
                match dec_req_err_at(buf, j) {
                    Some((e, k)) => Some((Err(e), k)),
                    None => None,
                }
            } else {
                None
            }
        },
        None => None,
    }
}

fn dec_request_at(buf: &[u8], pos: usize) -> (r: Option<(Request, usize)>)
    ensures
        r matches Some(p) ==> dec_request(buf@, pos as int) == Some((p.0@, p.1 as int)) && p.1
            <= buf@.len(),
        r is None ==> dec_request(buf@, pos as int) is None,
{
    match dec_u32_at(buf, pos) {
        Some((request_id, j1)) => match dec_method_at(buf, j1) {
            Some((method, j2)) => match dec_opt_str_at(buf, j2) {
                Some((session_token, j3)) => Some(
                    (Request { request_id, method, session_token }, j3),
                ),
                None => None,
            },
            None => None,
        },
        None => None,
    }
}

fn dec_rres_at(buf: &[u8], pos: usize) -> (r: Option<(RequestResult, usize)>)
    ensures
        r matches Some(p) ==> dec_rres(buf@, pos as int) == Some((p.0@, p.1 as int)) && p.1
            <= buf@.len(),
        r is None ==> dec_rres(buf@, pos as int) is None,
{
    match dec_u32_at(buf, pos) {
        Some((request_id, j1)) => match dec_outcome_at(buf, j1) {
            Some((result, j2)) => Some((RequestResult { request_id, result }, j2)),
            None => None,
        },
        None => None,
    }
}

fn dec_event_at(buf: &[u8], pos: usize) -> (r: Option<(Event, usize)>)
    ensures
        r matches Some(p) ==> dec_event(buf@, pos as int) == Some((p.0@, p.1 as int)) && p.1
            <= buf@.len(),
        r is None ==> dec_event(buf@, pos as int) is None,
{
    match dec_u8_at(buf, pos) {
        Some((tag, j)) => {
            if tag == 0 {
                match dec_pm_at(buf, j) {
                    Some((m, k)) => Some((Event::NewPrivateMessage(m), k)),
                    None => None,
                }
            } else if tag == 1 {
                match dec_chat_at(buf, j) {
                    Some((m, k)) => Some((Event::NewChatMessage(m), k)),
                    None => None,
                }
            } else {
                None
            }
        },
        None => None,
    }
}

fn dec_smsg_at(buf: &[u8], pos: usize) -> (r: Option<(ServerMessage, usize)>)
    ensures
        r matches Some(p) ==> dec_smsg(buf@, pos as int) == Some((p.0@, p.1 as int)) && p.1
            <= buf@.len(),
        r is None ==> dec_smsg(buf@, pos as int) is None,
{
    match dec_u8_at(buf, pos) {
        Some((tag, j)) => {
            if tag == 0 {
                match dec_rres_at(buf, j) {
                    Some((r0, k)) => Some((ServerMessage::Response(r0), k)),
                    None => None,
                }
            } else if tag == 1 {
                match dec_event_at(buf, j) {
                    Some((e, k)) => Some((ServerMessage::Push(e), k)),
                    None => None,
                }
            } else {
                None
            }
        },
        None => None,
    }
}

// ---------------------------------------------------------------------------
// The public face of the codec: whole-buffer encoders and decoders, and the
// round-trip laws.
// ---------------------------------------------------------------------------

/// The canonical bytes of a method invocation.
pub fn encode_method(m: &Method) -> (r: Vec<u8>)
    ensures
        r@ == enc_method(m@),
{
    let mut out: Vec<u8> = Vec::new();
    enc_method_into(&mut out, m);
    proof {
        assert(Seq::<u8>::empty() + enc_method(m@) =~= enc_method(m@));
    }
    out
}

/// Decodes a method invocation; `Some` exactly when the whole buffer is one
/// canonical method encoding.
pub fn decode_method(buf: &[u8]) -> (r: Option<Method>)
    ensures
        r matches Some(m) ==> dec_method(buf@, 0) matches Some(p) && p.0 == m@ && p.1
            == buf@.len(),
        r is None ==> !(dec_method(buf@, 0) matches Some(p) && p.1 == buf@.len()),
{
    match dec_method_at(buf, 0) {
        Some((m, k)) => {
            if k == buf.len() {
                Some(m)
            } else {
                None
            }
        },
        None => None,
    }
}

/// The canonical bytes of a request envelope.
pub fn encode_request(r: &Request) -> (out: Vec<u8>)
    ensures
        out@ == enc_request(r@),
{
    let mut out: Vec<u8> = Vec::new();
    enc_request_into(&mut out, r);
    proof {
        assert(Seq::<u8>::empty() + enc_request(r@) =~= enc_request(r@));
    }
    out
}

/// Decodes a request envelope; `Some` exactly when the whole buffer is one
/// canonical request encoding.
pub fn decode_request(buf: &[u8]) -> (r: Option<Request>)
    ensures
        r matches Some(x) ==> dec_request(buf@, 0) matches Some(p) && p.0 == x@ && p.1
            == buf@.len(),
        r is None ==> !(dec_request(buf@, 0) matches Some(p) && p.1 == buf@.len()),
{
    match dec_request_at(buf, 0) {
        Some((x, k)) => {
            if k == buf.len() {
                Some(x)
            } else {
                None
            }
        },
        None => None,
    }
}

/// The canonical bytes of a server payload, carrying the response/event
/// discriminator first so receivers can demultiplex.
pub fn encode_server_message(v: &ServerMessage) -> (r: Vec<u8>)
    ensures
        r@ == enc_smsg(v@),
{
    let mut out: Vec<u8> = Vec::new();
    enc_smsg_into(&mut out, v);
    proof {
        assert(Seq::<u8>::empty() + enc_smsg(v@) =~= enc_smsg(v@));
    }
    out
}

/// Decodes a server payload; `Some` exactly when the whole buffer is one
/// canonical server-message encoding.
pub fn decode_server_message(buf: &[u8]) -> (r: Option<ServerMessage>)
    ensures
        r matches Some(x) ==> dec_smsg(buf@, 0) matches Some(p) && p.0 == x@ && p.1 == buf@.len(),
        r is None ==> !(dec_smsg(buf@, 0) matches Some(p) && p.1 == buf@.len()),
{
    match dec_smsg_at(buf, 0) {
        Some((x, k)) => {
            if k == buf.len() {
                Some(x)
            } else {
                None
            }
        },
        None => None,
    }
}

/// Law: serializing a method and deserializing the bytes yields the original
/// value, consuming the buffer exactly.
pub proof fn lemma_method_round_trip(v: MethodView)
    requires
        method_ok(v),
    ensures
        dec_method(enc_method(v), 0) == Some((v, enc_method(v).len() as int)),
{
    let s = enc_method(v);
    assert(s.subrange(0, s.len() as int) =~= s);
    lemma_dec_enc_method(s, 0, v);
}

/// Law: serializing a request envelope and deserializing the bytes yields
/// the original value, consuming the buffer exactly.
pub proof fn lemma_request_round_trip(v: RequestView)
    requires
        request_ok(v),
    ensures
        dec_request(enc_request(v), 0) == Some((v, enc_request(v).len() as int)),
{
    let s = enc_request(v);
    assert(s.subrange(0, s.len() as int) =~= s);
    lemma_dec_enc_request(s, 0, v);
}

/// Law: serializing a server payload — a response or an event — and
/// deserializing the bytes yields the original value, so the two payload
/// kinds demultiplex without ambiguity.
pub proof fn lemma_server_message_round_trip(v: ServerMessageView)
    requires
        smsg_ok(v),
    ensures
        dec_smsg(enc_smsg(v), 0) == Some((v, enc_smsg(v).len() as int)),
{
    let s = enc_smsg(v);
    assert(s.subrange(0, s.len() as int) =~= s);
    lemma_dec_enc_smsg(s, 0, v);
}

} // verus!
