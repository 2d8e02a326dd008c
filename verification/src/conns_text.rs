//! Parsing of the textual encoding of an observed knock set.
//!
//! The sequence view hands the controller, for each unresolved address pair,
//! the distinct (protocol, port) pairs as text: a list of two-element lists,
//! for example `[["tcp",22],["udp",53]]`.  Whitespace may stand between
//! tokens; a port is a plain decimal number without a leading zero, at most
//! 65535.  `parse_conns` turns such text into a `Conns` value and returns
//! `None` on anything else; `lemma_parse_inverts_encode` shows that the
//! grammar it accepts gives every encoded list back unchanged.

use vstd::prelude::*;
use vstd::string::StrSliceExecFns;
use vstd::string::StringSliceAdditionalSpecFns;

use crate::knock::Conns;
use crate::knock::InetProto;

verus! {

/// Whitespace accepted between tokens.
pub open spec fn is_ws(b: u8) -> bool {
    b == 32 || b == 9 || b == 10 || b == 13
}

/// A decimal digit.
pub open spec fn is_digit(b: u8) -> bool {
    48 <= b <= 57
}

/// First index at or after `i` that holds a non-whitespace byte (or the end).
pub open spec fn skip_ws(s: Seq<u8>, i: int) -> int
    decreases s.len() - i,
{
    if 0 <= i < s.len() && is_ws(s[i]) {
        skip_ws(s, i + 1)
    } else {
        i
    }
}

pub proof fn lemma_skip_ws_bounds(s: Seq<u8>, i: int)
    requires
        0 <= i <= s.len(),
    ensures
        i <= skip_ws(s, i) <= s.len(),
    decreases s.len() - i,
{
    if i < s.len() && is_ws(s[i]) {
        lemma_skip_ws_bounds(s, i + 1);
    }
}

/// First index at or after `i` that holds a non-digit byte (or the end).
pub open spec fn digits_end(s: Seq<u8>, i: int) -> int
    decreases s.len() - i,
{
    if 0 <= i < s.len() && is_digit(s[i]) {
        digits_end(s, i + 1)
    } else {
        i
    }
}

pub proof fn lemma_digits_end_bounds(s: Seq<u8>, i: int)
    requires
        0 <= i <= s.len(),
    ensures
        i <= digits_end(s, i) <= s.len(),
        forall|k: int| i <= k < digits_end(s, i) ==> is_digit(s[k]),
    decreases s.len() - i,
{
    if i < s.len() && is_digit(s[i]) {
        lemma_digits_end_bounds(s, i + 1);
    }
}

/// Value of the decimal digits `s[i..end)`.
pub open spec fn digits_val(s: Seq<u8>, i: int, end: int) -> int
    decreases end - i,
{
    if i < end {
        digits_val(s, i, end - 1) * 10 + (s[end - 1] - 48)
    } else {
        0
    }
}

pub proof fn lemma_digits_val_nonneg(s: Seq<u8>, i: int, end: int)
    requires
        forall|k: int| i <= k < end ==> is_digit(s[k]),
    ensures
        digits_val(s, i, end) >= 0,
    decreases end - i,
{
    if i < end {
        lemma_digits_val_nonneg(s, i, end - 1);
    }
}

pub proof fn lemma_digits_val_monotone(s: Seq<u8>, i: int, e1: int, e2: int)
    requires
        i <= e1 <= e2,
        forall|k: int| i <= k < e2 ==> is_digit(s[k]),
    ensures
        digits_val(s, i, e2) >= digits_val(s, i, e1),
    decreases e2 - e1,
{
    if e1 < e2 {
        lemma_digits_val_monotone(s, i, e1, e2 - 1);
        lemma_digits_val_nonneg(s, i, e2 - 1);
    }
}

/// The quoted protocol name, as bytes.
pub open spec fn proto_bytes(p: InetProto) -> Seq<u8> {
    match p {
        InetProto::Tcp => seq![34u8, 116u8, 99u8, 112u8, 34u8],
        InetProto::Udp => seq![34u8, 117u8, 100u8, 112u8, 34u8],
        InetProto::Icmp => seq![34u8, 105u8, 99u8, 109u8, 112u8, 34u8],
    }
}

/// Do the bytes of `pat` stand in `s` at `i`?
pub open spec fn bytes_at(s: Seq<u8>, i: int, pat: Seq<u8>) -> bool {
    &&& 0 <= i
    &&& i + pat.len() <= s.len()
    &&& s.subrange(i, i + pat.len()) == pat
}

/// A quoted protocol name at `i`: the protocol and the index after it.
pub open spec fn spec_parse_proto(s: Seq<u8>, i: int) -> Option<(InetProto, int)> {
    if bytes_at(s, i, proto_bytes(InetProto::Tcp)) {
        Some((InetProto::Tcp, i + 5))
    } else if bytes_at(s, i, proto_bytes(InetProto::Udp)) {
        Some((InetProto::Udp, i + 5))
    } else if bytes_at(s, i, proto_bytes(InetProto::Icmp)) {
        Some((InetProto::Icmp, i + 6))
    } else {
        None
    }
}

/// A port at `i`: one or more decimal digits, no leading zero unless the
/// number is exactly `0`, value at most 65535.
pub open spec fn spec_parse_port(s: Seq<u8>, i: int) -> Option<(u16, int)> {
    let end = digits_end(s, i);
    if i < end && (s[i] != 48 || end == i + 1) && digits_val(s, i, end) <= 65535 {
        Some((digits_val(s, i, end) as u16, end))
    } else {
        None
    }
}

/// One `["proto",port]` pair at `i`, whitespace allowed between tokens.
pub open spec fn spec_parse_pair(s: Seq<u8>, i: int) -> Option<((InetProto, u16), int)> {
    if 0 <= i < s.len() && s[i] == 91 {
        let j = skip_ws(s, i + 1);
        match spec_parse_proto(s, j) {
            Some((proto, k)) => {
                let l = skip_ws(s, k);
                if l < s.len() && s[l] == 44 {
                    let m = skip_ws(s, l + 1);
                    match spec_parse_port(s, m) {
                        Some((port, n)) => {
                            let o = skip_ws(s, n);
                            if o < s.len() && s[o] == 93 {
                                Some(((proto, port), o + 1))
                            } else {
                                None
                            }
                        },
                        None => None,
                    }
                } else {
                    None
                }
            },
            None => None,
        }
    } else {
        None
    }
}

pub proof fn lemma_parse_pair_advances(s: Seq<u8>, i: int)
    ensures
        spec_parse_pair(s, i) matches Some((p, n)) ==> i < n <= s.len(),
{
    if spec_parse_pair(s, i) matches Some((p, n)) {
        lemma_skip_ws_bounds(s, i + 1);
        let j = skip_ws(s, i + 1);
        let (proto, k) = spec_parse_proto(s, j)->Some_0;
        lemma_skip_ws_bounds(s, k);
        let l = skip_ws(s, k);
        let m = skip_ws(s, l + 1);
        lemma_skip_ws_bounds(s, l + 1);
        let (port, n0) = spec_parse_port(s, m)->Some_0;
        lemma_digits_end_bounds(s, m);
        lemma_skip_ws_bounds(s, n0);
    }
}

/// The tail of a pair list, after a first pair has been read and gathered
/// into `acc`: zero or more `, pair` items and the closing bracket.
pub open spec fn spec_parse_rest(s: Seq<u8>, i: int, acc: Seq<(InetProto, u16)>) -> Option<
    (Seq<(InetProto, u16)>, int),
>
    decreases s.len() - i,
    via spec_parse_rest_decreases
{
    let j = skip_ws(s, i);
    if j < s.len() && s[j] == 93 {
        Some((acc, j + 1))
    } else if j < s.len() && s[j] == 44 {
        let k = skip_ws(s, j + 1);
        match spec_parse_pair(s, k) {
            Some((p, n)) => spec_parse_rest(s, n, acc.push(p)),
            None => None,
        }
    } else {
        None
    }
}

#[via_fn]
proof fn spec_parse_rest_decreases(s: Seq<u8>, i: int, acc: Seq<(InetProto, u16)>) {
    let j = skip_ws(s, i);
    if 0 <= i <= s.len() {
        lemma_skip_ws_bounds(s, i);
    }
    if j < s.len() && s[j] == 44 {
        if 0 <= j + 1 <= s.len() {
            lemma_skip_ws_bounds(s, j + 1);
        }
        let k = skip_ws(s, j + 1);
        lemma_parse_pair_advances(s, k);
    }
}

/// A complete encoding: whitespace, a bracketed list of pairs, whitespace,
/// and nothing after it.
pub open spec fn spec_parse_conns(s: Seq<u8>) -> Option<Seq<(InetProto, u16)>> {
    let i = skip_ws(s, 0);
    if i < s.len() && s[i] == 91 {
        let j = skip_ws(s, i + 1);
        if j < s.len() && s[j] == 93 {
            if skip_ws(s, j + 1) == s.len() {
                Some(Seq::empty())
            } else {
                None
            }
        } else {
            match spec_parse_pair(s, j) {
                Some((p, n)) => match spec_parse_rest(s, n, seq![p]) {
                    Some((ps, m)) => if skip_ws(s, m) == s.len() {
                        Some(ps)
                    } else {
                        None
                    },
                    None => None,
                },
                None => None,
            }
        }
    } else {
        None
    }
}

/// How a partial parse ends: the list is done once the tail parse succeeds
/// and only whitespace follows it.
pub open spec fn spec_finish(s: Seq<u8>, r: Option<(Seq<(InetProto, u16)>, int)>) -> Option<
    Seq<(InetProto, u16)>,
> {
    match r {
        Some((ps, m)) => if skip_ws(s, m) == s.len() {
            Some(ps)
        } else {
            None
        },
        None => None,
    }
}

/// First non-whitespace index at or after `i`.
fn ws_end(s: &Vec<u8>, i: usize) -> (r: usize)
    requires
        i <= s@.len(),
    ensures
        r == skip_ws(s@, i as int),
        i <= r <= s@.len(),
{
    let mut j = i;
    while j < s.len() && (s[j] == 32 || s[j] == 9 || s[j] == 10 || s[j] == 13)
        invariant
            i <= j <= s@.len(),
            skip_ws(s@, i as int) == skip_ws(s@, j as int),
        decreases s@.len() - j,
    {
        j += 1;
    }
    j
}

fn parse_proto(s: &Vec<u8>, i: usize) -> (r: Option<(InetProto, usize)>)
    requires
        i <= s@.len(),
    ensures
        match r {
            Some((p, n)) => spec_parse_proto(s@, i as int) == Some((p, n as int)),
            None => spec_parse_proto(s@, i as int) is None,
        },
{
    let n = s.len();
    if n - i >= 5 && s[i] == 34 && s[i + 1] == 116 && s[i + 2] == 99 && s[i + 3] == 112 && s[i + 4]
        == 34 {
        proof {
            assert(s@.subrange(i as int, i as int + 5) =~= proto_bytes(InetProto::Tcp));
        }
        Some((InetProto::Tcp, i + 5))
    } else if n - i >= 5 && s[i] == 34 && s[i + 1] == 117 && s[i + 2] == 100 && s[i + 3] == 112 && s[i
        + 4] == 34 {
        proof {
            assert(s@.subrange(i as int, i as int + 5) =~= proto_bytes(InetProto::Udp));
            assert(!bytes_at(s@, i as int, proto_bytes(InetProto::Tcp)));
        }
        Some((InetProto::Udp, i + 5))
    } else if n - i >= 6 && s[i] == 34 && s[i + 1] == 105 && s[i + 2] == 99 && s[i + 3] == 109 && s[i
        + 4] == 112 && s[i + 5] == 34 {
        proof {
            assert(s@.subrange(i as int, i as int + 6) =~= proto_bytes(InetProto::Icmp));
            assert(!bytes_at(s@, i as int, proto_bytes(InetProto::Tcp)));
            assert(!bytes_at(s@, i as int, proto_bytes(InetProto::Udp)));
        }
        Some((InetProto::Icmp, i + 6))
    } else {
        proof {
            assert(!bytes_at(s@, i as int, proto_bytes(InetProto::Tcp)));
            assert(!bytes_at(s@, i as int, proto_bytes(InetProto::Udp)));
            assert(!bytes_at(s@, i as int, proto_bytes(InetProto::Icmp)));
        }
        None
    }
}

fn parse_port(s: &Vec<u8>, i: usize) -> (r: Option<(u16, usize)>)
    requires
        i <= s@.len(),
    ensures
        match r {
            Some((v, n)) => spec_parse_port(s@, i as int) == Some((v, n as int)),
            None => spec_parse_port(s@, i as int) is None,
        },
{
    proof {
        lemma_digits_end_bounds(s@, i as int);
    }
    let ghost end = digits_end(s@, i as int);
    let mut j = i;
    while j < s.len() && 48 <= s[j] && s[j] <= 57
        invariant
            i <= j <= s@.len(),
            digits_end(s@, i as int) == digits_end(s@, j as int),
        decreases s@.len() - j,
    {
        j += 1;
    }
    // j is the end of the digit run
    assert(j == end);
    if j == i {
        return None;
    }
    if s[i] == 48 && j > i + 1 {
        return None;
    }
    let mut v: u32 = 0;
    let mut k = i;
    while k < j
        invariant
            i <= k <= j <= s@.len(),
            end == digits_end(s@, i as int),
            j == end,
            v == digits_val(s@, i as int, k as int),
            v <= 65535,
        decreases j - k,
    {
        proof {
            lemma_digits_end_bounds(s@, i as int);
        }
        let d = s[k] - 48;
        let v2: u32 = v * 10 + (d as u32);
        assert(v2 == digits_val(s@, i as int, k as int + 1));
        if v2 > 65535 {
            proof {
                lemma_digits_end_bounds(s@, i as int);
                lemma_digits_val_monotone(s@, i as int, k as int + 1, end);
            }
            return None;
        }
        v = v2;
        k += 1;
    }
    Some((v as u16, j))
}

fn parse_pair(s: &Vec<u8>, i: usize) -> (r: Option<((InetProto, u16), usize)>)
    requires
        i <= s@.len(),
    ensures
        match r {
            Some((p, n)) => spec_parse_pair(s@, i as int) == Some((p, n as int)) && i < n <= s@.len(),
            None => spec_parse_pair(s@, i as int) is None,
        },
{
    if !(i < s.len() && s[i] == 91) {
        return None;
    }
    let j = ws_end(s, i + 1);
    let (proto, k) = match parse_proto(s, j) {
        Some(pk) => pk,
        None => {
            return None;
        },
    };
    assert(k <= s@.len()) by {
        lemma_parse_pair_advances(s@, i as int);
    }
    let l = ws_end(s, k);
    if !(l < s.len() && s[l] == 44) {
        return None;
    }
    let m = ws_end(s, l + 1);
    let (port, n) = match parse_port(s, m) {
        Some(pn) => pn,
        None => {
            return None;
        },
    };
    assert(n <= s@.len()) by {
        lemma_digits_end_bounds(s@, m as int);
    }
    let o = ws_end(s, n);
    if o < s.len() && s[o] == 93 {
        Some(((proto, port), o + 1))
    } else {
        None
    }
}

/// Parse the textual encoding of an observed knock set.
///
/// The result is exactly what the grammar in `spec_parse_conns` gives for the
/// bytes of `s`: `None` on any text that is not a complete, well-formed
/// encoding.
pub fn parse_conns(s: &str) -> (r: Option<Conns>)
    ensures
        match r {
            Some(c) => spec_parse_conns(s.spec_bytes()) == Some(c@),
            None => spec_parse_conns(s.spec_bytes()) is None,
        },
{
    let bytes: Vec<u8> = s.as_bytes_vec();
    let i = ws_end(&bytes, 0);
    if !(i < bytes.len() && bytes[i] == 91) {
        return None;
    }
    let j = ws_end(&bytes, i + 1);
    if j < bytes.len() && bytes[j] == 93 {
        let k = ws_end(&bytes, j + 1);
        if k == bytes.len() {
            let empty: Vec<(InetProto, u16)> = Vec::new();
            assert(empty@ =~= Seq::<(InetProto, u16)>::empty());
            return Some(Conns(empty));
        } else {
            return None;
        }
    }
    let (first, n0) = match parse_pair(&bytes, j) {
        Some(pn) => pn,
        None => {
            return None;
        },
    };
    let mut result: Vec<(InetProto, u16)> = Vec::new();
    result.push(first);
    assert(result@ =~= seq![first]);
    let mut cur = n0;
    let ghost target = spec_parse_conns(bytes@);
    assert(target == spec_finish(bytes@, spec_parse_rest(bytes@, n0 as int, seq![first])));
    loop
        invariant
            cur <= bytes@.len(),
            target == spec_parse_conns(bytes@),
            target == spec_finish(bytes@, spec_parse_rest(bytes@, cur as int, result@)),
            bytes@ == s.spec_bytes(),
        decreases bytes@.len() - cur,
    {
        let l = ws_end(&bytes, cur);
        if l < bytes.len() && bytes[l] == 93 {
            let k = ws_end(&bytes, l + 1);
            if k == bytes.len() {
                return Some(Conns(result));
            } else {
                return None;
            }
        } else if l < bytes.len() && bytes[l] == 44 {
            let m = ws_end(&bytes, l + 1);
            match parse_pair(&bytes, m) {
                Some((p, n)) => {
                    result.push(p);
                    cur = n;
                },
                None => {
                    return None;
                },
            }
        } else {
            return None;
        }
    }
}

/// The decimal digits of a port, without leading zeros.
pub open spec fn spec_digits(n: int) -> Seq<u8>
    decreases n,
{
    if n < 10 {
        seq![(48 + n) as u8]
    } else {
        spec_digits(n / 10).push((48 + (n % 10)) as u8)
    }
}

/// The canonical encoding of one pair, without whitespace.
pub open spec fn spec_encode_pair(p: (InetProto, u16)) -> Seq<u8> {
    seq![91u8] + proto_bytes(p.0) + seq![44u8] + spec_digits(p.1 as int) + seq![93u8]
}

/// What follows a list's first pair in the canonical encoding: the
/// remaining pairs, each after a comma, and the closing bracket.
pub open spec fn spec_encode_tail(c: Seq<(InetProto, u16)>) -> Seq<u8>
    decreases c.len(),
{
    if c.len() == 0 {
        seq![93u8]
    } else {
        seq![44u8] + spec_encode_pair(c.first()) + spec_encode_tail(c.drop_first())
    }
}

/// The canonical encoding of a knock list, without whitespace.
pub open spec fn spec_encode(c: Seq<(InetProto, u16)>) -> Seq<u8> {
    if c.len() == 0 {
        seq![91u8, 93u8]
    } else {
        seq![91u8] + spec_encode_pair(c.first()) + spec_encode_tail(c.drop_first())
    }
}

proof fn lemma_digits_props(n: int)
    requires
        0 <= n,
    ensures
        spec_digits(n).len() >= 1,
        forall|k: int| 0 <= k < spec_digits(n).len() ==> is_digit(#[trigger] spec_digits(n)[k]),
        spec_digits(n)[0] == 48 ==> n == 0,
    decreases n,
{
    if n >= 10 {
        lemma_digits_props(n / 10);
    }
}

proof fn lemma_digits_end_run(s: Seq<u8>, i: int, k: int)
    requires
        0 <= i,
        0 <= k,
        i + k <= s.len(),
        forall|j: int| i <= j < i + k ==> is_digit(#[trigger] s[j]),
        i + k == s.len() || !is_digit(s[i + k]),
    ensures
        digits_end(s, i) == i + k,
    decreases k,
{
    if k > 0 {
        lemma_digits_end_run(s, i + 1, k - 1);
    }
}

proof fn lemma_digits_val_run(s: Seq<u8>, i: int, n: int)
    requires
        0 <= i,
        0 <= n,
        i + spec_digits(n).len() <= s.len(),
        s.subrange(i, i + spec_digits(n).len() as int) == spec_digits(n),
    ensures
        digits_val(s, i, i + spec_digits(n).len() as int) == n,
    decreases n,
{
    let d = spec_digits(n);
    let e = i + d.len() as int;
    if n < 10 {
        assert(d.len() == 1);
        assert(s.subrange(i, e)[0] == d[0]);
        assert(s[i] == (48 + n) as u8);
        assert(digits_val(s, i, i) == 0);
        assert(digits_val(s, i, e) == digits_val(s, i, e - 1) * 10 + (s[e - 1] - 48));
    } else {
        let p = spec_digits(n / 10);
        lemma_digits_props(n / 10);
        assert(d == p.push((48 + (n % 10)) as u8));
        assert(s.subrange(i, e)[d.len() - 1] == d[d.len() - 1]);
        assert(s[e - 1] == (48 + (n % 10)) as u8);
        assert(s.subrange(i, i + p.len() as int) =~= p) by {
            assert forall|t: int| 0 <= t < p.len() implies s.subrange(i, i + p.len() as int)[t]
                == p[t] by {
                assert(s.subrange(i, e)[t] == d[t]);
                assert(s.subrange(i, i + p.len() as int)[t] == s[i + t]);
                assert(s.subrange(i, e)[t] == s[i + t]);
            }
        }
        lemma_digits_val_run(s, i, n / 10);
        assert(digits_val(s, i, e) == digits_val(s, i, e - 1) * 10 + (s[e - 1] - 48));
        assert(digits_val(s, i, e) == (n / 10) * 10 + n % 10);
    }
}

proof fn lemma_parse_proto_at(s: Seq<u8>, i: int, p: InetProto)
    requires
        0 <= i,
        i + proto_bytes(p).len() <= s.len(),
        s.subrange(i, i + proto_bytes(p).len() as int) == proto_bytes(p),
    ensures
        spec_parse_proto(s, i) == Some((p, i + proto_bytes(p).len() as int)),
{
    let pb = proto_bytes(p);
    assert forall|t: int| 0 <= t < pb.len() implies s[i + t] == pb[t] by {
        assert(s.subrange(i, i + pb.len() as int)[t] == pb[t]);
    }
    match p {
        InetProto::Tcp => {},
        InetProto::Udp => {
            assert(s[i + 1] == 117);
            assert(!bytes_at(s, i, proto_bytes(InetProto::Tcp))) by {
                if bytes_at(s, i, proto_bytes(InetProto::Tcp)) {
                    assert(s.subrange(i, i + 5)[1] == proto_bytes(InetProto::Tcp)[1]);
                }
            }
        },
        InetProto::Icmp => {
            assert(s[i + 1] == 105);
            assert(!bytes_at(s, i, proto_bytes(InetProto::Tcp))) by {
                if bytes_at(s, i, proto_bytes(InetProto::Tcp)) {
                    assert(s.subrange(i, i + 5)[1] == proto_bytes(InetProto::Tcp)[1]);
                }
            }
            assert(!bytes_at(s, i, proto_bytes(InetProto::Udp))) by {
                if bytes_at(s, i, proto_bytes(InetProto::Udp)) {
                    assert(s.subrange(i, i + 5)[1] == proto_bytes(InetProto::Udp)[1]);
                }
            }
        },
    }
    assert(bytes_at(s, i, pb));
}

proof fn lemma_parse_pair_encoded(s: Seq<u8>, i: int, p: (InetProto, u16))
    requires
        0 <= i,
        i + spec_encode_pair(p).len() <= s.len(),
        s.subrange(i, i + spec_encode_pair(p).len() as int) == spec_encode_pair(p),
    ensures
        spec_parse_pair(s, i) == Some((p, i + spec_encode_pair(p).len() as int)),
{
    let ep = spec_encode_pair(p);
    let pb = proto_bytes(p.0);
    let dg = spec_digits(p.1 as int);
    let pl = pb.len() as int;
    let dl = dg.len() as int;
    lemma_digits_props(p.1 as int);
    assert(ep.len() == 3 + pl + dl);
    assert forall|t: int| 0 <= t < ep.len() implies s[i + t] == ep[t] by {
        assert(s.subrange(i, i + ep.len() as int)[t] == ep[t]);
    }
    assert(ep[0] == 91);
    assert forall|t: int| 0 <= t < pl implies ep[1 + t] == pb[t] by {}
    assert(ep[1 + pl] == 44);
    assert forall|t: int| 0 <= t < dl implies ep[2 + pl + t] == dg[t] by {}
    assert(ep[2 + pl + dl] == 93);

    // '[' then the protocol name, which begins with a quote
    assert(pb[0] == 34);
    assert(s[i + 1] == 34);
    assert(skip_ws(s, i + 1) == i + 1);
    assert(s.subrange(i + 1, i + 1 + pl) =~= pb) by {
        assert forall|t: int| 0 <= t < pl implies s.subrange(i + 1, i + 1 + pl)[t] == pb[t] by {
            assert(s[i + 1 + t] == ep[1 + t]);
        }
    }
    lemma_parse_proto_at(s, i + 1, p.0);

    // the comma, then the digits
    let k = i + 1 + pl;
    assert(s[k] == 44);
    assert(skip_ws(s, k) == k);
    let m = k + 1;
    assert(s[m] == dg[0]);
    assert(is_digit(dg[0]));
    assert(skip_ws(s, m) == m);
    assert(s.subrange(m, m + dl) =~= dg) by {
        assert forall|t: int| 0 <= t < dl implies s.subrange(m, m + dl)[t] == dg[t] by {
            assert(s[m + t] == ep[2 + pl + t]);
        }
    }
    assert forall|j: int| m <= j < m + dl implies is_digit(#[trigger] s[j]) by {
        assert(s[j] == dg[j - m]);
    }
    assert(s[m + dl] == 93);
    lemma_digits_end_run(s, m, dl);
    lemma_digits_val_run(s, m, p.1 as int);
    assert(spec_parse_port(s, m) == Some((p.1, m + dl))) by {
        assert(s[m] == 48 ==> dg[0] == 48);
        assert(digits_val(s, m, m + dl) == p.1 as int);
    }

    // the closing bracket
    let o = m + dl;
    assert(skip_ws(s, o) == o);
    assert(o + 1 == i + ep.len());
}

proof fn lemma_parse_rest_encoded(
    s: Seq<u8>,
    i: int,
    rest: Seq<(InetProto, u16)>,
    acc: Seq<(InetProto, u16)>,
)
    requires
        0 <= i <= s.len(),
        s.subrange(i, s.len() as int) == spec_encode_tail(rest),
    ensures
        spec_parse_rest(s, i, acc) == Some((acc + rest, s.len() as int)),
    decreases rest.len(),
{
    let tail = spec_encode_tail(rest);
    let n = s.len() as int;
    assert(s.subrange(i, n).len() == tail.len());
    if rest.len() == 0 {
        assert(n == i + 1);
        assert(s.subrange(i, n)[0] == tail[0]);
        assert(s[i] == 93);
        assert(skip_ws(s, i) == i);
        assert(acc + rest =~= acc);
    } else {
        let ep = spec_encode_pair(rest.first());
        let el = ep.len() as int;
        let tail2 = spec_encode_tail(rest.drop_first());
        assert(tail == seq![44u8] + ep + tail2);
        assert(tail.len() == 1 + el + tail2.len());
        assert(s.subrange(i, n)[0] == tail[0]);
        assert(tail[0] == 44);
        assert(s[i] == 44);
        assert(skip_ws(s, i) == i);
        assert(s.subrange(i, n)[1] == tail[1]);
        assert(tail[1] == ep[0]);
        assert(ep[0] == 91);
        assert(s[i + 1] == 91);
        assert(skip_ws(s, i + 1) == i + 1);
        assert(s.subrange(i + 1, i + 1 + el) =~= ep) by {
            assert forall|t: int| 0 <= t < el implies s.subrange(i + 1, i + 1 + el)[t] == ep[t] by {
                assert(s.subrange(i + 1, i + 1 + el)[t] == s[i + 1 + t]);
                assert(s.subrange(i, n)[1 + t] == tail[1 + t]);
                assert(s.subrange(i, n)[1 + t] == s[i + 1 + t]);
                assert(tail[1 + t] == ep[t]);
            }
        }
        lemma_parse_pair_encoded(s, i + 1, rest.first());
        let next = i + 1 + el;
        assert(s.subrange(next, n) =~= tail2) by {
            assert forall|t: int| 0 <= t < n - next implies s.subrange(next, n)[t] == tail2[t] by {
                assert(s.subrange(next, n)[t] == s[next + t]);
                assert(s.subrange(i, n)[1 + el + t] == tail[1 + el + t]);
                assert(s.subrange(i, n)[1 + el + t] == s[next + t]);
                assert(tail[1 + el + t] == tail2[t]);
            }
        }
        lemma_parse_rest_encoded(s, next, rest.drop_first(), acc.push(rest.first()));
        assert(acc.push(rest.first()) + rest.drop_first() =~= acc + rest);
    }
}

/// Parsing the canonical encoding of a knock list gives the list back: the
/// grammar `parse_conns` accepts is faithful to the encoding the target
/// configuration and the sequence view write.
pub proof fn lemma_parse_inverts_encode(c: Seq<(InetProto, u16)>)
    ensures
        spec_parse_conns(spec_encode(c)) == Some(c),
{
    let s = spec_encode(c);
    if c.len() == 0 {
        assert(s == seq![91u8, 93u8]);
        assert(s[0] == 91 && s[1] == 93);
        assert(skip_ws(s, 0) == 0);
        assert(skip_ws(s, 1) == 1);
        assert(skip_ws(s, 2) == 2);
        assert(c =~= Seq::<(InetProto, u16)>::empty());
    } else {
        let ep = spec_encode_pair(c.first());
        let el = ep.len() as int;
        let tail = spec_encode_tail(c.drop_first());
        let n = s.len() as int;
        assert(s == seq![91u8] + ep + tail);
        assert(n == 1 + el + tail.len());
        assert(s[0] == 91);
        assert(skip_ws(s, 0) == 0);
        assert(s[1] == ep[0]);
        assert(ep[0] == 91);
        assert(skip_ws(s, 1) == 1);
        assert(s.subrange(1, 1 + el) =~= ep) by {
            assert forall|t: int| 0 <= t < el implies s.subrange(1, 1 + el)[t] == ep[t] by {
                assert(s.subrange(1, 1 + el)[t] == s[1 + t]);
                assert(s[1 + t] == ep[t]);
            }
        }
        lemma_parse_pair_encoded(s, 1, c.first());
        let next = 1 + el;
        assert(s.subrange(next, n) =~= tail) by {
            assert forall|t: int| 0 <= t < n - next implies s.subrange(next, n)[t] == tail[t] by {
                assert(s.subrange(next, n)[t] == s[next + t]);
                assert(s[next + t] == tail[t]);
            }
        }
        lemma_parse_rest_encoded(s, next, c.drop_first(), seq![c.first()]);
        assert(seq![c.first()] + c.drop_first() =~= c);
        assert(skip_ws(s, n) == n);
    }
}

/// Read the target sequence from its configured encoding.
///
/// The target is matched as a set; an empty target would grant access on
/// an empty observed set and is a configuration error, so only a
/// non-empty, well-formed encoding is accepted.
pub fn parse_target(s: &str) -> (r: Option<Conns>)
    ensures
        match r {
            Some(c) => spec_parse_conns(s.spec_bytes()) == Some(c@) && c@.len() > 0,
            None => spec_parse_conns(s.spec_bytes()) is None || spec_parse_conns(s.spec_bytes())
                == Some(Seq::<(InetProto, u16)>::empty()),
        },
{
    match parse_conns(s) {
        Some(c) => {
            if c.0.len() > 0 {
                Some(c)
            } else {
                proof {
                    assert(c@ =~= Seq::<(InetProto, u16)>::empty());
                }
                None
            }
        },
        None => None,
    }
}

} // verus!
