//! The control-message grammar: what the payload of each inbound frame kind
//! means.
//!
//! A `stdin` payload is the raw bytes for the terminal, and `disconnect`
//! carries none. The structured payloads use a fixed line schema:
//! a `connect` payload is `host NL port NL username NL secret`, where `NL` is
//! one newline byte, `port` is decimal, and the secret is the rest of the
//! payload (it may itself contain newlines); a `resize` payload is
//! `cols NL rows`, both decimal. A decimal field holds one or more ASCII
//! digits and denotes a value of at most 65535; leading zeros are allowed.

use vstd::prelude::*;

use crate::codec::FrameKind;
use crate::codec::DecodeError;
use crate::codec::copy_range;
use crate::codec::push_all;

verus! {

/// One decoded inbound instruction to the bridge.
#[derive(Debug)]
pub enum ControlMessage {
    /// Open the SSH connection and authenticate.
    Connect { host: Vec<u8>, port: u16, username: Vec<u8>, secret: Vec<u8> },
    /// Raw bytes for the remote terminal's input.
    Stdin { data: Vec<u8> },
    /// A new terminal geometry.
    Resize { cols: u16, rows: u16 },
    /// Close the session deliberately.
    Disconnect,
}

/// The index of the first newline at or after `i`, if any.
pub open spec fn find_nl(s: Seq<u8>, i: int) -> Option<int>
    decreases s.len() - i when 0 <= i <= s.len()
{
    if i >= s.len() {
        None
    } else if s[i] == 10 {
        Some(i)
    } else {
        find_nl(s, i + 1)
    }
}

/// No byte of the sequence is a newline.
pub open spec fn line_free(s: Seq<u8>) -> bool {
    forall|i: int| 0 <= i < s.len() ==> #[trigger] s[i] != 10
}

/// An ASCII decimal digit.
pub open spec fn is_digit(b: u8) -> bool {
    48 <= b && b <= 57
}

/// Every byte of the sequence is a decimal digit.
pub open spec fn all_digits(s: Seq<u8>) -> bool {
    forall|i: int| 0 <= i < s.len() ==> is_digit(#[trigger] s[i])
}

/// The value a digit string denotes, most significant digit first.
pub open spec fn dec_val(s: Seq<u8>) -> int
    decreases s.len(),
{
    if s.len() == 0 {
        0
    } else {
        dec_val(s.drop_last()) * 10 + (s.last() - 48)
    }
}

/// A digit string that denotes a `u16`: nonempty, all digits, value in range.
pub open spec fn valid_u16_text(s: Seq<u8>) -> bool {
    s.len() >= 1 && all_digits(s) && 0 <= dec_val(s) <= 65535
}

/// The four fields of a `connect` payload, split on its first three newlines.
pub open spec fn connect_parts(p: Seq<u8>) -> Option<(Seq<u8>, Seq<u8>, Seq<u8>, Seq<u8>)> {
    match find_nl(p, 0) {
        None => None,
        Some(n1) => match find_nl(p, n1 + 1) {
            None => None,
            Some(n2) => match find_nl(p, n2 + 1) {
                None => None,
                Some(n3) => Some(
                    (
                        p.subrange(0, n1),
                        p.subrange(n1 + 1, n2),
                        p.subrange(n2 + 1, n3),
                        p.subrange(n3 + 1, p.len() as int),
                    ),
                ),
            },
        },
    }
}

/// The two fields of a `resize` payload, split on its first newline.
pub open spec fn resize_parts(p: Seq<u8>) -> Option<(Seq<u8>, Seq<u8>)> {
    match find_nl(p, 0) {
        None => None,
        Some(n1) => Some((p.subrange(0, n1), p.subrange(n1 + 1, p.len() as int))),
    }
}

/// A digit string's value is never negative.
proof fn lemma_dec_val_nonneg(s: Seq<u8>)
    requires
        all_digits(s),
    ensures
        dec_val(s) >= 0,
    decreases s.len(),
{
    if s.len() > 0 {
        assert(all_digits(s.drop_last())) by {
            assert(forall|i: int|
                0 <= i < s.len() - 1 ==> s.drop_last()[i] == #[trigger] s[i]);
        }
        lemma_dec_val_nonneg(s.drop_last());
    }
}

/// The value of a digit-string prefix is at most the value of the whole.
proof fn lemma_dec_val_prefix_le(s: Seq<u8>, i: int)
    requires
        all_digits(s),
        0 <= i <= s.len(),
    ensures
        dec_val(s.subrange(0, i)) <= dec_val(s),
    decreases s.len() - i,
{
    if i < s.len() {
        let a = s.subrange(0, i);
        let b = s.subrange(0, i + 1);
        assert(b.drop_last() =~= a);
        assert(all_digits(a)) by {
            assert(forall|j: int| 0 <= j < i ==> a[j] == #[trigger] s[j]);
        }
        lemma_dec_val_nonneg(a);
        assert(is_digit(b.last()));
        assert(dec_val(b) == dec_val(a) * 10 + (b.last() - 48));
        assert(dec_val(a) <= dec_val(b));
        lemma_dec_val_prefix_le(s, i + 1);
        assert(s.subrange(0, s.len() as int) =~= s);
    } else {
        assert(s.subrange(0, i) =~= s);
    }
}

/// Reads a decimal `u16` field: succeeds exactly on the digit strings that
/// `valid_u16_text` admits, and then returns their value.
pub fn parse_u16(s: &[u8]) -> (r: Option<u16>)
    ensures
        r matches Some(v) ==> valid_u16_text(s@) && v as int == dec_val(s@),
        r is None ==> !valid_u16_text(s@),
{
    let n: usize = s.len();
    if n == 0 {
        return None;
    }
    let mut acc: u32 = 0;
    let mut i: usize = 0;
    while i < n
        invariant
            n == s@.len(),
            0 < n,
            i <= n,
            forall|j: int| 0 <= j < i ==> is_digit(#[trigger] s@[j]),
            acc <= 65535,
            acc as int == dec_val(s@.subrange(0, i as int)),
        decreases n - i,
    {
        let c = s[i];
        if c < 48 || c > 57 {
            return None;
        }
        let d: u32 = (c - 48) as u32;
        let next: u32 = acc * 10 + d;
        proof {
            assert(s@.subrange(0, i + 1).drop_last() =~= s@.subrange(0, i as int));
            assert(s@.subrange(0, i + 1).last() == s@[i as int]);
        }
        if next > 65535 {
            proof {
                if all_digits(s@) {
                    lemma_dec_val_prefix_le(s@, i + 1);
                }
            }
            return None;
        }
        acc = next;
        i += 1;
    }
    proof {
        assert(s@.subrange(0, n as int) =~= s@);
    }
    Some(acc as u16)
}

/// Finds the first newline of `s` at or after `start`, as `find_nl`
/// describes it.
fn scan_nl(s: &[u8], start: usize) -> (r: Option<usize>)
    requires
        start <= s@.len(),
    ensures
        r matches Some(q) ==> find_nl(s@, start as int) == Some(q as int) && start <= q < s@.len()
            && s@[q as int] == 10,
        r is None ==> find_nl(s@, start as int) is None,
{
    let n: usize = s.len();
    let mut i: usize = start;
    while i < n && s[i] != 10
        invariant
            n == s@.len(),
            start <= i <= n,
            find_nl(s@, start as int) == find_nl(s@, i as int),
        decreases n - i,
    {
        proof {
            assert(find_nl(s@, i as int) == find_nl(s@, i + 1));
        }
        i += 1;
    }
    if i < n {
        Some(i)
    } else {
        None
    }
}

/// The kinds that only ever travel outward, and so are no control message.
pub open spec fn outbound_kind(k: FrameKind) -> bool {
    k == FrameKind::Stdout || k == FrameKind::Stderr || k == FrameKind::Error
}

/// Whether a payload of kind `k` carries a control message at all: `stdin`
/// and `disconnect` always do, `connect` and `resize` exactly when the line
/// schema fits, and the outbound kinds never do.
pub open spec fn parse_ok(k: FrameKind, p: Seq<u8>) -> bool {
    match k {
        FrameKind::Stdin => true,
        FrameKind::Disconnect => true,
        FrameKind::Connect => connect_parts(p) matches Some(parts) && valid_u16_text(parts.1),
        FrameKind::Resize => resize_parts(p) matches Some(parts) && valid_u16_text(parts.0)
            && valid_u16_text(parts.1),
        FrameKind::Stdout => false,
        FrameKind::Stderr => false,
        FrameKind::Error => false,
    }
}

/// The control message a frame of kind `k` with raw payload `p` denotes,
/// related: exactly what `parse_control` may hand back.
pub open spec fn message_of(k: FrameKind, p: Seq<u8>, m: ControlMessage) -> bool {
    match m {
        ControlMessage::Stdin { data } => k == FrameKind::Stdin && data@ == p,
        ControlMessage::Disconnect => k == FrameKind::Disconnect,
        ControlMessage::Connect { host, port, username, secret } => {
            &&& k == FrameKind::Connect
            &&& (connect_parts(p) matches Some(parts) && host@ == parts.0 && valid_u16_text(
                parts.1,
            ) && port as int == dec_val(parts.1) && username@ == parts.2 && secret@ == parts.3)
        },
        ControlMessage::Resize { cols, rows } => {
            &&& k == FrameKind::Resize
            &&& (resize_parts(p) matches Some(parts) && valid_u16_text(parts.0) && cols as int
                == dec_val(parts.0) && valid_u16_text(parts.1) && rows as int == dec_val(parts.1))
        },
    }
}

/// Interprets a decoded frame as a control message. `stdin` hands its payload
/// through verbatim; `connect` and `resize` parse their line schema; the
/// outbound kinds are no instruction at all.
pub fn parse_control(kind: FrameKind, payload: &[u8]) -> (r: Result<ControlMessage, DecodeError>)
    ensures
        r is Ok <==> parse_ok(kind, payload@),
        r matches Ok(m) ==> message_of(kind, payload@, m),
        kind == FrameKind::Stdin ==> (r matches Ok(m) && m matches ControlMessage::Stdin { data }
            && data@ == payload@),
        kind == FrameKind::Disconnect ==> (r matches Ok(m) && m is Disconnect),
        kind == FrameKind::Connect ==> {
            &&& (r is Ok <==> (connect_parts(payload@) matches Some(parts) && valid_u16_text(
                parts.1,
            )))
            &&& (r matches Ok(m) ==> (connect_parts(payload@) matches Some(parts)
                && m matches ControlMessage::Connect { host, port, username, secret }
                && host@ == parts.0 && port as int == dec_val(parts.1) && username@ == parts.2
                && secret@ == parts.3))
            &&& (r is Err ==> r == Err::<ControlMessage, DecodeError>(DecodeError::BadPayload))
        },
        kind == FrameKind::Resize ==> {
            &&& (r is Ok <==> (resize_parts(payload@) matches Some(parts) && valid_u16_text(
                parts.0,
            ) && valid_u16_text(parts.1)))
            &&& (r matches Ok(m) ==> (resize_parts(payload@) matches Some(parts)
                && m matches ControlMessage::Resize { cols, rows } && cols as int == dec_val(
                parts.0,
            ) && rows as int == dec_val(parts.1)))
            &&& (r is Err ==> r == Err::<ControlMessage, DecodeError>(DecodeError::BadPayload))
        },
        (kind == FrameKind::Stdout || kind == FrameKind::Stderr || kind == FrameKind::Error)
            ==> r == Err::<ControlMessage, DecodeError>(DecodeError::UnknownKind),
{
    match kind {
        FrameKind::Stdin => {
            let data = copy_range(payload, 0, payload.len());
            proof {
                assert(payload@.subrange(0, payload@.len() as int) =~= payload@);
            }
            Ok(ControlMessage::Stdin { data })
        },
        FrameKind::Disconnect => Ok(ControlMessage::Disconnect),
        FrameKind::Connect => {
            let pn: usize = payload.len();
            let n1 = match scan_nl(payload, 0) {
                None => {
                    return Err(DecodeError::BadPayload);
                },
                Some(q) => q,
            };
            proof {
                assert(n1 < pn);
            }
            let n2 = match scan_nl(payload, n1 + 1) {
                None => {
                    return Err(DecodeError::BadPayload);
                },
                Some(q) => q,
            };
            proof {
                assert(n2 < pn);
            }
            let n3 = match scan_nl(payload, n2 + 1) {
                None => {
                    return Err(DecodeError::BadPayload);
                },
                Some(q) => q,
            };
            let port_text = copy_range(payload, n1 + 1, n2);
            let port = match parse_u16(port_text.as_slice()) {
                None => {
                    return Err(DecodeError::BadPayload);
                },
                Some(v) => v,
            };
            let host = copy_range(payload, 0, n1);
            let username = copy_range(payload, n2 + 1, n3);
            let secret = copy_range(payload, n3 + 1, payload.len());
            Ok(ControlMessage::Connect { host, port, username, secret })
        },
        FrameKind::Resize => {
            let pn: usize = payload.len();
            let n1 = match scan_nl(payload, 0) {
                None => {
                    return Err(DecodeError::BadPayload);
                },
                Some(q) => q,
            };
            proof {
                assert(n1 < pn);
            }
            let cols_text = copy_range(payload, 0, n1);
            let rows_text = copy_range(payload, n1 + 1, pn);
            let cols = match parse_u16(cols_text.as_slice()) {
                None => {
                    return Err(DecodeError::BadPayload);
                },
                Some(v) => v,
            };
            let rows = match parse_u16(rows_text.as_slice()) {
                None => {
                    return Err(DecodeError::BadPayload);
                },
                Some(v) => v,
            };
            Ok(ControlMessage::Resize { cols, rows })
        },
        FrameKind::Stdout => Err(DecodeError::UnknownKind),
        FrameKind::Stderr => Err(DecodeError::UnknownKind),
        FrameKind::Error => Err(DecodeError::UnknownKind),
    }
}

/// Where every byte of `[start, upto)` is no newline, the first newline from
/// `start` is the first newline from `upto`.
proof fn lemma_find_nl_skip(s: Seq<u8>, start: int, upto: int)
    requires
        0 <= start <= upto <= s.len(),
        forall|j: int| start <= j < upto ==> #[trigger] s[j] != 10,
    ensures
        find_nl(s, start) == find_nl(s, upto),
    decreases upto - start,
{
    if start < upto {
        lemma_find_nl_skip(s, start + 1, upto);
    }
}

/// The five-digit, zero-padded decimal text of a `u16`.
pub fn u16_text(v: u16) -> (r: Vec<u8>)
    ensures
        r@.len() == 5,
        valid_u16_text(r@),
        dec_val(r@) == v as int,
        line_free(r@),
{
    let x: u32 = v as u32;
    let q1: u32 = x / 10;
    let d0: u32 = x % 10;
    let q2: u32 = q1 / 10;
    let d1: u32 = q1 % 10;
    let q3: u32 = q2 / 10;
    let d2: u32 = q2 % 10;
    let q4: u32 = q3 / 10;
    let d3: u32 = q3 % 10;
    let d4: u32 = q4 % 10;
    let mut r: Vec<u8> = Vec::new();
    r.push((48 + d4) as u8);
    r.push((48 + d3) as u8);
    r.push((48 + d2) as u8);
    r.push((48 + d1) as u8);
    r.push((48 + d0) as u8);
    proof {
        let s = r@;
        assert(q4 < 10);
        assert(d4 == q4);
        assert(d4 < 10 && d3 < 10 && d2 < 10 && d1 < 10 && d0 < 10);
        assert(s[0] == (48 + d4) as u8 && s[1] == (48 + d3) as u8 && s[2] == (48 + d2) as u8
            && s[3] == (48 + d1) as u8 && s[4] == (48 + d0) as u8);
        assert(s[0] as int == 48 + d4 && s[1] as int == 48 + d3 && s[2] as int == 48 + d2
            && s[3] as int == 48 + d1 && s[4] as int == 48 + d0);
        let p1 = s.subrange(0, 1);
        let p2 = s.subrange(0, 2);
        let p3 = s.subrange(0, 3);
        let p4 = s.subrange(0, 4);
        assert(p1.drop_last() =~= Seq::<u8>::empty());
        assert(dec_val(Seq::<u8>::empty()) == 0);
        assert(p1.last() == s[0] && p2.last() == s[1] && p3.last() == s[2] && p4.last() == s[3]
            && s.last() == s[4]);
        assert(dec_val(p1) == d4);
        assert(p2.drop_last() =~= p1);
        assert(dec_val(p2) == dec_val(p1) * 10 + d3);
        assert(p3.drop_last() =~= p2);
        assert(dec_val(p3) == dec_val(p2) * 10 + d2);
        assert(p4.drop_last() =~= p3);
        assert(dec_val(p4) == dec_val(p3) * 10 + d1);
        assert(s.drop_last() =~= p4);
        assert(dec_val(s) == dec_val(p4) * 10 + d0);
        assert(d4 * 10 + d3 == q3);
        assert(q3 * 10 + d2 == q2);
        assert(q2 * 10 + d1 == q1);
        assert(q1 * 10 + d0 == x);
        assert(dec_val(s) == x);
    }
    r
}

/// Lays a `connect` payload out in the line schema, so that `connect_parts`
/// takes it apart into exactly the given fields. The secret is the tail of
/// the payload and so may hold newlines; host and username may not.
pub fn connect_payload(host: &[u8], port: u16, username: &[u8], secret: &[u8]) -> (r: Vec<u8>)
    requires
        line_free(host@),
        line_free(username@),
    ensures
        connect_parts(r@) matches Some(parts) && parts.0 == host@ && valid_u16_text(parts.1)
            && dec_val(parts.1) == port as int && parts.2 == username@ && parts.3 == secret@,
{
    let ptext = u16_text(port);
    let mut r: Vec<u8> = Vec::new();
    push_all(&mut r, host);
    r.push(10);
    push_all(&mut r, ptext.as_slice());
    r.push(10);
    push_all(&mut r, username);
    r.push(10);
    push_all(&mut r, secret);
    proof {
        let s = r@;
        let hl: int = host@.len() as int;
        let n2: int = hl + 6;
        let n3: int = n2 + 1 + username@.len();
        assert forall|j: int| 0 <= j < hl implies s[j] != 10 by {
            assert(s[j] == host@[j]);
        }
        assert(s[hl] == 10);
        lemma_find_nl_skip(s, 0, hl);
        assert(find_nl(s, 0) == Some(hl));
        assert forall|j: int| hl + 1 <= j < n2 implies s[j] != 10 by {
            assert(s[j] == ptext@[j - (hl + 1)]);
            assert(is_digit(ptext@[j - (hl + 1)]));
        }
        assert(s[n2] == 10);
        lemma_find_nl_skip(s, hl + 1, n2);
        assert(find_nl(s, hl + 1) == Some(n2));
        assert forall|j: int| n2 + 1 <= j < n3 implies s[j] != 10 by {
            assert(s[j] == username@[j - (n2 + 1)]);
        }
        assert(s[n3] == 10);
        lemma_find_nl_skip(s, n2 + 1, n3);
        assert(find_nl(s, n2 + 1) == Some(n3));
        assert(s.subrange(0, hl) =~= host@);
        assert(s.subrange(hl + 1, n2) =~= ptext@);
        assert(s.subrange(n2 + 1, n3) =~= username@);
        assert(s.subrange(n3 + 1, s.len() as int) =~= secret@);
    }
    r
}

/// Lays a `resize` payload out in the line schema, so that `resize_parts`
/// takes it apart into exactly the given geometry.
pub fn resize_payload(cols: u16, rows: u16) -> (r: Vec<u8>)
    ensures
        resize_parts(r@) matches Some(parts) && valid_u16_text(parts.0) && dec_val(parts.0)
            == cols as int && valid_u16_text(parts.1) && dec_val(parts.1) == rows as int,
{
    let ctext = u16_text(cols);
    let rtext = u16_text(rows);
    let mut r: Vec<u8> = Vec::new();
    push_all(&mut r, ctext.as_slice());
    r.push(10);
    push_all(&mut r, rtext.as_slice());
    proof {
        let s = r@;
        assert forall|j: int| 0 <= j < 5 implies s[j] != 10 by {
            assert(s[j] == ctext@[j]);
            assert(is_digit(ctext@[j]));
        }
        assert(s[5] == 10);
        lemma_find_nl_skip(s, 0, 5);
        assert(find_nl(s, 0) == Some(5int));
        assert(s.subrange(0, 5) =~= ctext@);
        assert(s.subrange(6, s.len() as int) =~= rtext@);
    }
    r
}

} // verus!
