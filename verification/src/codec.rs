//! Wire-frame codec for the session bridge.
//!
//! A frame is one JSON text of the fixed shape `{"type":"<kind>","data":"<base64>"}`:
//! seven frame kinds, and a payload that is base64-encoded so that arbitrary
//! bytes stay JSON-safe. `encode` builds such a frame; `decode` takes it apart
//! again, returning a typed error (never panicking) on malformed input.
//!
//! The spelling above is the wire schema, deliberately fixed byte for byte:
//! `decode` accepts no whitespace, no reordered members and no string
//! escapes, so that the accepted texts are exactly the encoder's images and
//! the round trip is provable. A JSON-equivalent variant spelling is reported
//! as `Malformed` and dropped without harm to the session, like any other
//! text that is not a frame.

use vstd::prelude::*;

use base64::Engine;

verus! {

/// The seven frame kinds of the wire protocol.
#[derive(Clone, Copy, Debug, PartialEq, Eq, Structural)]
pub enum FrameKind {
    Stdout,
    Stderr,
    Stdin,
    Connect,
    Resize,
    Disconnect,
    Error,
}

/// A decoded wire frame: its kind and its raw (base64-decoded) payload bytes.
#[derive(Debug)]
pub struct Frame {
    pub kind: FrameKind,
    pub payload: Vec<u8>,
}

/// Why a frame failed to decode.
#[derive(Clone, Copy, Debug, PartialEq, Eq, Structural)]
pub enum DecodeError {
    /// The text is not a well-formed frame envelope.
    Malformed,
    /// The envelope is well formed but the `type` field names no known kind.
    UnknownKind,
    /// The `data` field is not valid base64.
    BadPayload,
}

/// The ASCII bytes of the name of each frame kind, as it appears in the
/// `type` field on the wire.
pub open spec fn kind_name(k: FrameKind) -> Seq<u8> {
    match k {
        FrameKind::Stdout => seq![115u8, 116, 100, 111, 117, 116],
        FrameKind::Stderr => seq![115u8, 116, 100, 101, 114, 114],
        FrameKind::Stdin => seq![115u8, 116, 100, 105, 110],
        FrameKind::Connect => seq![99u8, 111, 110, 110, 101, 99, 116],
        FrameKind::Resize => seq![114u8, 101, 115, 105, 122, 101],
        FrameKind::Disconnect => seq![100u8, 105, 115, 99, 111, 110, 110, 101, 99, 116],
        FrameKind::Error => seq![101u8, 114, 114, 111, 114],
    }
}

/// The bytes of `{"type":"`.
pub open spec fn frame_pre() -> Seq<u8> {
    seq![123u8, 34, 116, 121, 112, 101, 34, 58, 34]
}

/// The bytes of `","data":"`.
pub open spec fn frame_mid() -> Seq<u8> {
    seq![34u8, 44, 34, 100, 97, 116, 97, 34, 58, 34]
}

/// The bytes of `"}`.
pub open spec fn frame_suf() -> Seq<u8> {
    seq![34u8, 125]
}

/// The frame envelope around an already-base64-encoded data segment.
pub open spec fn frame_text(k: FrameKind, data: Seq<u8>) -> Seq<u8> {
    frame_pre() + kind_name(k) + frame_mid() + data + frame_suf()
}

/// What `encode` produces from a kind and a raw payload.
pub open spec fn encoded(k: FrameKind, payload: Seq<u8>) -> Seq<u8> {
    frame_text(k, b64_enc(payload))
}

/// The bytes that may appear in standard base64 text: `A`-`Z`, `a`-`z`,
/// `0`-`9`, `+`, `/` and the padding byte `=`.
pub open spec fn is_b64_byte(b: u8) -> bool {
    (65 <= b && b <= 90) || (97 <= b && b <= 122) || (48 <= b && b <= 57) || b == 43 || b == 47
        || b == 61
}

/// Every byte of the sequence lies in the base64 alphabet.
pub open spec fn b64_text(d: Seq<u8>) -> bool {
    forall|i: int| 0 <= i < d.len() ==> is_b64_byte(#[trigger] d[i])
}

/// No byte of the sequence is a double quote.
pub open spec fn quote_free(d: Seq<u8>) -> bool {
    forall|i: int| 0 <= i < d.len() ==> #[trigger] d[i] != 34
}

/// The standard base64 encoding (with padding) of a byte sequence. Its exact
/// shape is left unstated; the trusted wrappers below say what is relied on.
pub uninterp spec fn b64_enc(b: Seq<u8>) -> Seq<u8>;

/// Relies on `base64::engine::general_purpose::STANDARD.encode`: standard
/// alphabet with `=` padding, so the result is base64 text; the encoding is
/// injective, and encoding the same bytes always yields the same text.
#[verifier::external_body]
fn b64_encode(bytes: &[u8]) -> (r: Vec<u8>)
    ensures
        r@ == b64_enc(bytes@),
        b64_text(r@),
        forall|other: Seq<u8>| #[trigger] b64_enc(other) == r@ ==> other == bytes@,
{
    base64::engine::general_purpose::STANDARD.encode(bytes).into_bytes()
}

/// Relies on `base64::engine::general_purpose::STANDARD.decode`: the engine's
/// default config demands canonical padding and rejects nonzero trailing bits,
/// so it succeeds exactly on canonical encodings, and then inverts `encode`.
#[verifier::external_body]
fn b64_decode(data: &[u8]) -> (r: Option<Vec<u8>>)
    ensures
        r matches Some(v) ==> data@ == b64_enc(v@),
        (exists|b: Seq<u8>| data@ == b64_enc(b)) ==> r is Some,
{
    match base64::engine::general_purpose::STANDARD.decode(data) {
        Ok(v) => Some(v),
        Err(_) => None,
    }
}

/// The index of the first double quote at or after `i`, if any.
pub open spec fn find_quote(s: Seq<u8>, i: int) -> Option<int>
    decreases s.len() - i when 0 <= i <= s.len()
{
    if i >= s.len() {
        None
    } else if s[i] == 34 {
        Some(i)
    } else {
        find_quote(s, i + 1)
    }
}

/// The envelope parse of a frame text: the raw `type` and `data` segments,
/// or `None` where the text does not have the frame shape.
pub open spec fn envelope(s: Seq<u8>) -> Option<(Seq<u8>, Seq<u8>)> {
    if s.len() < 21 || s.subrange(0, 9) != frame_pre() {
        None
    } else {
        match find_quote(s, 9) {
            None => None,
            Some(q1) => {
                if q1 + 10 > s.len() || s.subrange(q1, q1 + 10) != frame_mid() {
                    None
                } else {
                    match find_quote(s, q1 + 10) {
                        None => None,
                        Some(q2) => {
                            if q2 == s.len() - 2 && s[s.len() - 1] == 125 {
                                Some((s.subrange(9, q1), s.subrange(q1 + 10, q2)))
                            } else {
                                None
                            }
                        },
                    }
                }
            },
        }
    }
}

/// The kind whose wire name is `nm`, if any.
pub open spec fn kind_of_name(nm: Seq<u8>) -> Option<FrameKind> {
    if nm == kind_name(FrameKind::Stdout) {
        Some(FrameKind::Stdout)
    } else if nm == kind_name(FrameKind::Stderr) {
        Some(FrameKind::Stderr)
    } else if nm == kind_name(FrameKind::Stdin) {
        Some(FrameKind::Stdin)
    } else if nm == kind_name(FrameKind::Connect) {
        Some(FrameKind::Connect)
    } else if nm == kind_name(FrameKind::Resize) {
        Some(FrameKind::Resize)
    } else if nm == kind_name(FrameKind::Disconnect) {
        Some(FrameKind::Disconnect)
    } else if nm == kind_name(FrameKind::Error) {
        Some(FrameKind::Error)
    } else {
        None
    }
}

/// Looking a kind's own name up yields that kind back.
pub proof fn lemma_kind_of_name_id(k: FrameKind)
    ensures
        kind_of_name(kind_name(k)) == Some(k),
{
    match k {
        FrameKind::Stdout => {},
        FrameKind::Stderr => {
            assert(kind_name(FrameKind::Stderr)[3] != kind_name(FrameKind::Stdout)[3]);
        },
        FrameKind::Stdin => {
            assert(kind_name(FrameKind::Stdin).len() != kind_name(FrameKind::Stdout).len());
            assert(kind_name(FrameKind::Stdin).len() != kind_name(FrameKind::Stderr).len());
        },
        FrameKind::Connect => {
            assert(kind_name(FrameKind::Connect)[0] != kind_name(FrameKind::Stdout)[0]);
            assert(kind_name(FrameKind::Connect)[0] != kind_name(FrameKind::Stderr)[0]);
            assert(kind_name(FrameKind::Connect).len() != kind_name(FrameKind::Stdin).len());
        },
        FrameKind::Resize => {
            assert(kind_name(FrameKind::Resize)[0] != kind_name(FrameKind::Stdout)[0]);
            assert(kind_name(FrameKind::Resize)[0] != kind_name(FrameKind::Stderr)[0]);
            assert(kind_name(FrameKind::Resize).len() != kind_name(FrameKind::Stdin).len());
            assert(kind_name(FrameKind::Resize)[0] != kind_name(FrameKind::Connect)[0]);
        },
        FrameKind::Disconnect => {
            assert(kind_name(FrameKind::Disconnect)[0] != kind_name(FrameKind::Stdout)[0]);
            assert(kind_name(FrameKind::Disconnect)[0] != kind_name(FrameKind::Stderr)[0]);
            assert(kind_name(FrameKind::Disconnect).len() != kind_name(FrameKind::Stdin).len());
            assert(kind_name(FrameKind::Disconnect)[0] != kind_name(FrameKind::Connect)[0]);
            assert(kind_name(FrameKind::Disconnect)[0] != kind_name(FrameKind::Resize)[0]);
        },
        FrameKind::Error => {
            assert(kind_name(FrameKind::Error)[0] != kind_name(FrameKind::Stdout)[0]);
            assert(kind_name(FrameKind::Error)[0] != kind_name(FrameKind::Stderr)[0]);
            assert(kind_name(FrameKind::Error)[0] != kind_name(FrameKind::Stdin)[0]);
            assert(kind_name(FrameKind::Error)[0] != kind_name(FrameKind::Connect)[0]);
            assert(kind_name(FrameKind::Error)[0] != kind_name(FrameKind::Resize)[0]);
            assert(kind_name(FrameKind::Error).len() != kind_name(FrameKind::Disconnect).len());
        },
    }
}

/// No kind name contains a double quote.
pub proof fn lemma_kind_name_quote_free(k: FrameKind)
    ensures
        quote_free(kind_name(k)),
{
}

/// Where every byte of `[start, upto)` is quote-free, the first quote from
/// `start` is the first quote from `upto`.
proof fn lemma_find_quote_skip(s: Seq<u8>, start: int, upto: int)
    requires
        0 <= start <= upto <= s.len(),
        forall|j: int| start <= j < upto ==> #[trigger] s[j] != 34,
    ensures
        find_quote(s, start) == find_quote(s, upto),
    decreases upto - start,
{
    if start < upto {
        lemma_find_quote_skip(s, start + 1, upto);
    }
}

/// Appends every byte of `src` to `out`, in order.
pub(crate) fn push_all(out: &mut Vec<u8>, src: &[u8])
    ensures
        final(out)@ == old(out)@ + src@,
{
    let mut i: usize = 0;
    while i < src.len()
        invariant
            i <= src@.len(),
            out@ == old(out)@ + src@.subrange(0, i as int),
        decreases src@.len() - i,
    {
        out.push(src[i]);
        proof {
            assert(out@ =~= old(out)@ + src@.subrange(0, i + 1));
        }
        i += 1;
    }
    proof {
        assert(out@ =~= old(out)@ + src@);
    }
}

/// The executable bytes of a kind's wire name.
fn kind_name_vec(k: FrameKind) -> (r: Vec<u8>)
    ensures
        r@ == kind_name(k),
{
    let mut v: Vec<u8> = Vec::new();
    match k {
        FrameKind::Stdout => {
            v.push(115);
            v.push(116);
            v.push(100);
            v.push(111);
            v.push(117);
            v.push(116);
        },
        FrameKind::Stderr => {
            v.push(115);
            v.push(116);
            v.push(100);
            v.push(101);
            v.push(114);
            v.push(114);
        },
        FrameKind::Stdin => {
            v.push(115);
            v.push(116);
            v.push(100);
            v.push(105);
            v.push(110);
        },
        FrameKind::Connect => {
            v.push(99);
            v.push(111);
            v.push(110);
            v.push(110);
            v.push(101);
            v.push(99);
            v.push(116);
        },
        FrameKind::Resize => {
            v.push(114);
            v.push(101);
            v.push(115);
            v.push(105);
            v.push(122);
            v.push(101);
        },
        FrameKind::Disconnect => {
            v.push(100);
            v.push(105);
            v.push(115);
            v.push(99);
            v.push(111);
            v.push(110);
            v.push(110);
            v.push(101);
            v.push(99);
            v.push(116);
        },
        FrameKind::Error => {
            v.push(101);
            v.push(114);
            v.push(114);
            v.push(111);
            v.push(114);
        },
    }
    proof {
        assert(v@ =~= kind_name(k));
    }
    v
}

/// The executable bytes of `{"type":"`.
fn frame_pre_vec() -> (r: Vec<u8>)
    ensures
        r@ == frame_pre(),
{
    let mut v: Vec<u8> = Vec::new();
    v.push(123);
    v.push(34);
    v.push(116);
    v.push(121);
    v.push(112);
    v.push(101);
    v.push(34);
    v.push(58);
    v.push(34);
    proof {
        assert(v@ =~= frame_pre());
    }
    v
}

/// The executable bytes of `","data":"`.
fn frame_mid_vec() -> (r: Vec<u8>)
    ensures
        r@ == frame_mid(),
{
    let mut v: Vec<u8> = Vec::new();
    v.push(34);
    v.push(44);
    v.push(34);
    v.push(100);
    v.push(97);
    v.push(116);
    v.push(97);
    v.push(34);
    v.push(58);
    v.push(34);
    proof {
        assert(v@ =~= frame_mid());
    }
    v
}

/// Whether `s` carries exactly the bytes of `pat` starting at `at`.
fn match_at(s: &[u8], at: usize, pat: &[u8]) -> (r: bool)
    requires
        at <= s@.len(),
    ensures
        r <==> (at + pat@.len() <= s@.len() && s@.subrange(
            at as int,
            at as int + pat@.len() as int,
        ) == pat@),
{
    let n: usize = s.len();
    if n - at < pat.len() {
        return false;
    }
    let mut i: usize = 0;
    while i < pat.len()
        invariant
            n == s@.len(),
            at + pat@.len() <= n,
            i <= pat@.len(),
            forall|j: int| 0 <= j < i ==> s@[at + j] == #[trigger] pat@[j],
        decreases pat@.len() - i,
    {
        if s[at + i] != pat[i] {
            proof {
                let sub = s@.subrange(at as int, at as int + pat@.len() as int);
                assert(sub[i as int] == s@[at + i]);
            }
            return false;
        }
        i += 1;
    }
    proof {
        assert(s@.subrange(at as int, at as int + pat@.len() as int) =~= pat@);
    }
    true
}

/// A fresh vector holding the bytes of `s` from `a` (inclusive) to `b`
/// (exclusive).
pub(crate) fn copy_range(s: &[u8], a: usize, b: usize) -> (r: Vec<u8>)
    requires
        a <= b <= s@.len(),
    ensures
        r@ == s@.subrange(a as int, b as int),
{
    let mut v: Vec<u8> = Vec::new();
    let mut i: usize = a;
    while i < b
        invariant
            a <= i <= b <= s@.len(),
            v@ == s@.subrange(a as int, i as int),
        decreases b - i,
    {
        v.push(s[i]);
        proof {
            assert(v@ =~= s@.subrange(a as int, i + 1));
        }
        i += 1;
    }
    v
}

/// Whether two byte strings hold the same bytes.
pub(crate) fn bytes_eq(a: &[u8], b: &[u8]) -> (r: bool)
    ensures
        r <==> a@ == b@,
{
    if a.len() != b.len() {
        proof {
            assert(a@ != b@);
        }
        return false;
    }
    let r = match_at(a, 0, b);
    proof {
        if r {
            assert(a@.subrange(0, a@.len() as int) =~= a@);
        } else {
            assert(a@.subrange(0, a@.len() as int) =~= a@);
        }
    }
    r
}

/// The executable counterpart of `kind_of_name`.
fn kind_from_name(nm: &[u8]) -> (r: Option<FrameKind>)
    ensures
        r == kind_of_name(nm@),
{
    let stdout_n = kind_name_vec(FrameKind::Stdout);
    if bytes_eq(nm, stdout_n.as_slice()) {
        return Some(FrameKind::Stdout);
    }
    let stderr_n = kind_name_vec(FrameKind::Stderr);
    if bytes_eq(nm, stderr_n.as_slice()) {
        return Some(FrameKind::Stderr);
    }
    let stdin_n = kind_name_vec(FrameKind::Stdin);
    if bytes_eq(nm, stdin_n.as_slice()) {
        return Some(FrameKind::Stdin);
    }
    let connect_n = kind_name_vec(FrameKind::Connect);
    if bytes_eq(nm, connect_n.as_slice()) {
        return Some(FrameKind::Connect);
    }
    let resize_n = kind_name_vec(FrameKind::Resize);
    if bytes_eq(nm, resize_n.as_slice()) {
        return Some(FrameKind::Resize);
    }
    let disconnect_n = kind_name_vec(FrameKind::Disconnect);
    if bytes_eq(nm, disconnect_n.as_slice()) {
        return Some(FrameKind::Disconnect);
    }
    let error_n = kind_name_vec(FrameKind::Error);
    if bytes_eq(nm, error_n.as_slice()) {
        return Some(FrameKind::Error);
    }
    None
}

/// Finds the first double quote of `s` at or after `start`, as `find_quote`
/// describes it.
fn scan_quote(s: &[u8], start: usize) -> (r: Option<usize>)
    requires
        start <= s@.len(),
    ensures
        r matches Some(q) ==> find_quote(s@, start as int) == Some(q as int) && start <= q
            < s@.len() && s@[q as int] == 34,
        r is None ==> find_quote(s@, start as int) is None,
{
    let n: usize = s.len();
    let mut i: usize = start;
    while i < n && s[i] != 34
        invariant
            n == s@.len(),
            start <= i <= n,
            find_quote(s@, start as int) == find_quote(s@, i as int),
        decreases n - i,
    {
        proof {
            assert(find_quote(s@, i as int) == find_quote(s@, i + 1));
        }
        i += 1;
    }
    if i < n {
        Some(i)
    } else {
        None
    }
}

/// Takes a wire frame apart: checks the envelope, recognizes the kind, and
/// base64-decodes the data segment. Never panics; every failure comes back as
/// a `DecodeError`, and each error variant comes exactly when its clause says.
pub fn decode(s: &[u8]) -> (r: Result<Frame, DecodeError>)
    ensures
        r matches Ok(f) ==> s@ == frame_text(f.kind, b64_enc(f.payload@)) && envelope(s@)
            == Some((kind_name(f.kind), b64_enc(f.payload@))),
        r is Ok <==> (envelope(s@) matches Some(nd) && kind_of_name(nd.0) is Some && (exists|
            b: Seq<u8>,
        | nd.1 == b64_enc(b))),
        r == Err::<Frame, DecodeError>(DecodeError::Malformed) <==> envelope(s@) is None,
        r == Err::<Frame, DecodeError>(DecodeError::UnknownKind) <==> (envelope(s@) matches Some(
            nd,
        ) && kind_of_name(nd.0) is None),
        r == Err::<Frame, DecodeError>(DecodeError::BadPayload) <==> (envelope(s@) matches Some(
            nd,
        ) && kind_of_name(nd.0) is Some && !(exists|b: Seq<u8>| nd.1 == b64_enc(b))),
{
    let n: usize = s.len();
    let pre = frame_pre_vec();
    if n < 21 || !match_at(s, 0, pre.as_slice()) {
        return Err(DecodeError::Malformed);
    }
    let q1 = match scan_quote(s, 9) {
        None => {
            return Err(DecodeError::Malformed);
        },
        Some(q) => q,
    };
    let mid = frame_mid_vec();
    if !match_at(s, q1, mid.as_slice()) {
        return Err(DecodeError::Malformed);
    }
    let q2 = match scan_quote(s, q1 + 10) {
        None => {
            return Err(DecodeError::Malformed);
        },
        Some(q) => q,
    };
    if !(q2 == n - 2 && s[n - 1] == 125) {
        return Err(DecodeError::Malformed);
    }
    let name = copy_range(s, 9, q1);
    let kind = match kind_from_name(name.as_slice()) {
        None => {
            return Err(DecodeError::UnknownKind);
        },
        Some(k) => k,
    };
    let data = copy_range(s, q1 + 10, q2);
    match b64_decode(data.as_slice()) {
        None => Err(DecodeError::BadPayload),
        Some(payload) => {
            proof {
                assert(name@ == kind_name(kind));
                assert(s@.subrange(0, 9) == frame_pre());
                assert(s@.subrange(q1 as int, q1 + 10) == frame_mid());
                assert(s@.subrange(n - 2, n as int) =~= frame_suf());
                assert(s@ =~= s@.subrange(0, 9) + s@.subrange(9, q1 as int) + s@.subrange(
                    q1 as int,
                    q1 + 10,
                ) + s@.subrange(q1 + 10, n - 2) + s@.subrange(n - 2, n as int));
            }
            Ok(Frame { kind, payload })
        },
    }
}

/// Builds the wire frame for a kind and a raw payload: the payload is
/// base64-encoded and wrapped in the JSON envelope.
pub fn encode(kind: FrameKind, payload: &[u8]) -> (r: Vec<u8>)
    ensures
        r@ == encoded(kind, payload@),
        b64_text(b64_enc(payload@)),
        forall|other: Seq<u8>| #[trigger] b64_enc(other) == b64_enc(payload@) ==> other == payload@,
{
    let data = b64_encode(payload);
    let mut out: Vec<u8> = Vec::new();
    let pre = frame_pre_vec();
    push_all(&mut out, pre.as_slice());
    let nm = kind_name_vec(kind);
    push_all(&mut out, nm.as_slice());
    let mid = frame_mid_vec();
    push_all(&mut out, mid.as_slice());
    push_all(&mut out, data.as_slice());
    out.push(34);
    out.push(125);
    proof {
        assert(out@ =~= encoded(kind, payload@));
    }
    out
}

/// A frame envelope around a quote-free data segment parses back to exactly
/// its kind's name and that segment.
pub proof fn lemma_envelope_of_frame(k: FrameKind, d: Seq<u8>)
    requires
        quote_free(d),
    ensures
        envelope(frame_text(k, d)) == Some((kind_name(k), d)),
{
    let s = frame_text(k, d);
    let nm = kind_name(k);
    let el: int = nm.len() as int;
    assert(s.len() == 21 + el + d.len());
    assert(s.subrange(0, 9) =~= frame_pre());
    lemma_kind_name_quote_free(k);
    assert forall|j: int| 9 <= j < 9 + el implies s[j] != 34 by {
        assert(s[j] == nm[j - 9]);
    }
    lemma_find_quote_skip(s, 9, 9 + el);
    assert(s[9 + el] == frame_mid()[0]);
    assert(find_quote(s, 9 + el) == Some(9 + el));
    assert(s.subrange(9 + el, 9 + el + 10) =~= frame_mid());
    let ds: int = 9 + el + 10;
    assert forall|j: int| ds <= j < ds + d.len() implies s[j] != 34 by {
        assert(s[j] == d[j - ds]);
    }
    lemma_find_quote_skip(s, ds, ds + d.len());
    assert(s[ds + d.len()] == frame_suf()[0]);
    assert(find_quote(s, ds) == Some(ds + d.len()));
    assert(s[s.len() - 1] == frame_suf()[1]);
    assert(s.subrange(9, 9 + el) =~= nm);
    assert(s.subrange(ds, ds + d.len()) =~= d);
}

/// Two frame envelopes over quote-free data segments are equal only if their
/// kinds and their data segments are.
pub proof fn lemma_frame_text_injective(k1: FrameKind, d1: Seq<u8>, k2: FrameKind, d2: Seq<u8>)
    requires
        quote_free(d1),
        quote_free(d2),
        frame_text(k1, d1) == frame_text(k2, d2),
    ensures
        k1 == k2,
        d1 == d2,
{
    lemma_envelope_of_frame(k1, d1);
    lemma_envelope_of_frame(k2, d2);
    lemma_kind_of_name_id(k1);
    lemma_kind_of_name_id(k2);
}

/// What `find_quote` returns really is the first quote: everything before it,
/// from the start of the search, is another byte.
pub proof fn lemma_find_quote_first(s: Seq<u8>, i: int)
    requires
        0 <= i <= s.len(),
    ensures
        find_quote(s, i) matches Some(q) ==> i <= q < s.len() && s[q] == 34 && (forall|j: int|
            i <= j < q ==> #[trigger] s[j] != 34),
        find_quote(s, i) is None ==> forall|j: int| i <= j < s.len() ==> #[trigger] s[j] != 34,
    decreases s.len() - i,
{
    if i < s.len() && s[i] != 34 {
        lemma_find_quote_first(s, i + 1);
    }
}

/// The round trip of the codec: whatever frame `decode` accepts back from the
/// text `encode(k, b)` produced carries exactly the kind `k` and the payload
/// `b`. The two premises are what `encode`'s own contract supplies about its
/// base64 segment, and the equation is what `decode`'s contract supplies about
/// an accepted frame.
pub proof fn lemma_round_trip(k: FrameKind, b: Seq<u8>, fk: FrameKind, fb: Seq<u8>)
    requires
        b64_text(b64_enc(b)),
        forall|other: Seq<u8>| #[trigger] b64_enc(other) == b64_enc(b) ==> other == b,
        frame_text(fk, b64_enc(fb)) == frame_text(k, b64_enc(b)),
    ensures
        fk == k,
        fb == b,
{
    let d1 = b64_enc(b);
    let d2 = b64_enc(fb);
    let nm1 = kind_name(k);
    let nm2 = kind_name(fk);
    let l1: int = nm1.len() as int;
    let l2: int = nm2.len() as int;
    let s = frame_text(k, d1);
    assert(quote_free(d1));
    // in the first layout, the first quote from index 9 is right after the name
    lemma_kind_name_quote_free(k);
    lemma_kind_name_quote_free(fk);
    assert forall|j: int| 9 <= j < 9 + l1 implies s[j] != 34 by {
        assert(s[j] == nm1[j - 9]);
    }
    lemma_find_quote_skip(s, 9, 9 + l1);
    assert(s[9 + l1] == frame_mid()[0]);
    assert(find_quote(s, 9) == Some(9 + l1));
    lemma_find_quote_first(s, 9);
    // the second layout puts a quote right after its name as well, and none
    // inside the name, so the two names span the same bytes
    assert(s[9 + l2] == frame_mid()[0]) by {
        assert(s == frame_text(fk, d2));
        assert(frame_text(fk, d2)[9 + l2] == frame_mid()[0]);
    }
    if l2 < l1 {
        assert(s[9 + l2] != 34);
        assert(false);
    }
    if l1 < l2 {
        assert(s[9 + l1] == nm2[l1]) by {
            assert(frame_text(fk, d2)[9 + l1] == nm2[l1]);
        }
        assert(false);
    }
    assert(l1 == l2);
    assert(nm1 =~= nm2) by {
        assert forall|j: int| 0 <= j < l1 implies nm1[j] == nm2[j] by {
            assert(s[9 + j] == nm1[j]);
            assert(frame_text(fk, d2)[9 + j] == nm2[j]);
        }
    }
    lemma_kind_of_name_id(k);
    lemma_kind_of_name_id(fk);
    assert(fk == k);
    assert(s.len() == 21 + l1 + d1.len());
    assert(s.len() == 21 + l2 + d2.len());
    assert(d1 =~= d2) by {
        assert forall|j: int| 0 <= j < d1.len() implies d1[j] == d2[j] by {
            assert(s[9 + l1 + 10 + j] == d1[j]);
            assert(frame_text(fk, d2)[9 + l2 + 10 + j] == d2[j]);
        }
    }
    assert(b64_enc(fb) == b64_enc(b));
}

} // verus!
