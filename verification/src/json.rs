//! Byte-level JSON primitives for the cache file format: string escaping,
//! whitespace skipping, and string-literal parsing, each with a
//! specification-level model and a proof that parsing inverts rendering.
//!
//! Everything here works on UTF-8 bytes. Content bytes at or above 0x20 other
//! than `"` and `\` pass through escaping unchanged, so multi-byte UTF-8
//! sequences survive a round trip byte for byte.

use vstd::prelude::*;
use vstd::utf8::{encode_scalar, is_scalar};

verus! {

/// JSON insignificant whitespace: space, tab, line feed, carriage return.
pub open spec fn is_ws(b: u8) -> bool {
    b == 0x20 || b == 0x09 || b == 0x0A || b == 0x0D
}

/// The lowercase hex digit for a nibble.
pub open spec fn spec_hex_digit(n: u8) -> u8 {
    if n < 10 {
        (0x30 + n) as u8
    } else {
        (0x57 + n) as u8
    }
}

/// The value of a hex digit byte (either case), or `None`.
pub open spec fn spec_hex_val(b: u8) -> Option<u8> {
    if 0x30 <= b && b <= 0x39 {
        Some((b - 0x30) as u8)
    } else if 0x61 <= b && b <= 0x66 {
        Some((b - 0x61 + 10) as u8)
    } else if 0x41 <= b && b <= 0x46 {
        Some((b - 0x41 + 10) as u8)
    } else {
        None
    }
}

/// How one content byte is written inside a JSON string literal: quote and
/// backslash get a backslash escape, control bytes become `\u00XX`, and
/// everything else stands for itself.
pub open spec fn esc_byte(b: u8) -> Seq<u8> {
    if b == 0x22 {
        seq![0x5Cu8, 0x22u8]
    } else if b == 0x5C {
        seq![0x5Cu8, 0x5Cu8]
    } else if b < 0x20 {
        seq![0x5Cu8, 0x75u8, 0x30u8, 0x30u8, spec_hex_digit(b / 16), spec_hex_digit(b % 16)]
    } else {
        seq![b]
    }
}

/// The escaped form of a whole byte sequence.
pub open spec fn esc_bytes(s: Seq<u8>) -> Seq<u8>
    decreases s.len(),
{
    if s.len() == 0 {
        Seq::empty()
    } else {
        esc_byte(s[0]) + esc_bytes(s.drop_first())
    }
}

pub proof fn lemma_esc_bytes_concat(a: Seq<u8>, b: Seq<u8>)
    ensures
        esc_bytes(a + b) == esc_bytes(a) + esc_bytes(b),
    decreases a.len(),
{
    if a.len() == 0 {
        assert(a + b =~= b);
        assert(esc_bytes(a) + esc_bytes(b) =~= esc_bytes(b));
    } else {
        lemma_esc_bytes_concat(a.drop_first(), b);
        assert((a + b).drop_first() =~= a.drop_first() + b);
        assert(esc_byte(a[0]) + (esc_bytes(a.drop_first()) + esc_bytes(b)) =~= (esc_byte(a[0])
            + esc_bytes(a.drop_first())) + esc_bytes(b));
    }
}

/// A byte sequence that needs no escaping renders as itself.
pub proof fn lemma_esc_bytes_plain(s: Seq<u8>)
    requires
        forall|k: int| 0 <= k < s.len() ==> s[k] >= 0x20 && s[k] != 0x22 && s[k] != 0x5C,
    ensures
        esc_bytes(s) == s,
    decreases s.len(),
{
    if s.len() > 0 {
        lemma_esc_bytes_plain(s.drop_first());
        assert(esc_bytes(s) =~= s);
    }
}

/// The first index at or after `i` that does not hold whitespace.
pub open spec fn spec_skip_ws(s: Seq<u8>, i: int) -> int
    decreases s.len() - i,
{
    if 0 <= i < s.len() && is_ws(s[i]) {
        spec_skip_ws(s, i + 1)
    } else {
        i
    }
}

/// Whitespace before the stopping point does not change where skipping ends.
pub proof fn lemma_skip_ws_congruence(s: Seq<u8>, i: int, i2: int)
    requires
        0 <= i <= i2 <= s.len(),
        forall|k: int| i <= k < i2 ==> is_ws(s[k]),
    ensures
        spec_skip_ws(s, i) == spec_skip_ws(s, i2),
    decreases i2 - i,
{
    if i < i2 {
        lemma_skip_ws_congruence(s, i + 1, i2);
    }
}

/// Skipping a known run of whitespace lands on the first byte after it.
pub proof fn lemma_skip_ws_run(s: Seq<u8>, i: int, j: int)
    requires
        0 <= i <= j <= s.len(),
        forall|k: int| i <= k < j ==> is_ws(s[k]),
        j == s.len() || !is_ws(s[j]),
    ensures
        spec_skip_ws(s, i) == j,
    decreases j - i,
{
    if i < j {
        lemma_skip_ws_run(s, i + 1, j);
    }
}

/// The body of a JSON string literal, starting just after the opening quote:
/// the decoded content bytes and the index just after the closing quote.
/// Escaped code points above 0x7F decode to their UTF-8 bytes; surrogate
/// escapes and raw control bytes are rejected.
pub open spec fn spec_parse_string_body(s: Seq<u8>, i: int) -> Option<(Seq<u8>, int)>
    decreases s.len() - i,
{
    if i < 0 || i >= s.len() {
        None
    } else if s[i] == 0x22 {
        Some((Seq::empty(), i + 1))
    } else if s[i] == 0x5C {
        if i + 1 >= s.len() {
            None
        } else {
            let e = s[i + 1];
            if e == 0x22 || e == 0x5C || e == 0x2F {
                match spec_parse_string_body(s, i + 2) {
                    Some((v, j)) => Some((seq![e] + v, j)),
                    None => None,
                }
            } else if e == 0x62 || e == 0x66 || e == 0x6E || e == 0x72 || e == 0x74 {
                let d: u8 = if e == 0x62 {
                    0x08
                } else if e == 0x66 {
                    0x0C
                } else if e == 0x6E {
                    0x0A
                } else if e == 0x72 {
                    0x0D
                } else {
                    0x09
                };
                match spec_parse_string_body(s, i + 2) {
                    Some((v, j)) => Some((seq![d] + v, j)),
                    None => None,
                }
            } else if e == 0x75 {
                if i + 6 > s.len() {
                    None
                } else {
                    match (
                        spec_hex_val(s[i + 2]),
                        spec_hex_val(s[i + 3]),
                        spec_hex_val(s[i + 4]),
                        spec_hex_val(s[i + 5]),
                    ) {
                        (Some(h3), Some(h2), Some(h1), Some(h0)) => {
                            let cp: u32 = ((h3 as u32) * 0x1000 + (h2 as u32) * 0x100 + (h1
                                as u32) * 0x10 + (h0 as u32)) as u32;
                            if is_scalar(cp) {
                                match spec_parse_string_body(s, i + 6) {
                                    Some((v, j)) => Some((encode_scalar(cp) + v, j)),
                                    None => None,
                                }
                            } else {
                                None
                            }
                        },
                        _ => None,
                    }
                }
            } else {
                None
            }
        }
    } else if s[i] < 0x20 {
        None
    } else {
        match spec_parse_string_body(s, i + 1) {
            Some((v, j)) => Some((seq![s[i]] + v, j)),
            None => None,
        }
    }
}

/// The nibbles of a control byte survive the hex round trip.
proof fn lemma_hex_digit_val(n: u8)
    requires
        n < 16,
    ensures
        spec_hex_val(spec_hex_digit(n)) == Some(n),
{
}

/// Parsing a rendered string body yields the unescaped content: if the bytes
/// from `i` onward begin with the escaped content followed by a closing
/// quote, the parse returns exactly that content and stops just after the
/// quote.
pub proof fn lemma_string_body_round_trip(s: Seq<u8>, i: int, v: Seq<u8>, j: int)
    requires
        0 <= i,
        j == i + esc_bytes(v).len() + 1,
        j <= s.len(),
        s.subrange(i, j) == esc_bytes(v) + seq![0x22u8],
    ensures
        spec_parse_string_body(s, i) == Some((v, j)),
    decreases v.len(),
{
    if v.len() == 0 {
        assert(s[i] == (esc_bytes(v) + seq![0x22u8])[0]);
        assert(s[i] == 0x22);
    } else {
        let b = v[0];
        let tail = v.drop_first();
        let eb = esc_byte(b);
        let w = eb.len();
        assert(esc_bytes(v) == eb + esc_bytes(tail));
        assert(esc_bytes(v).len() == w + esc_bytes(tail).len());
        assert(j - i == esc_bytes(v).len() + 1);
        // the bytes at i..j line up with eb, then esc_bytes(tail), then a quote
        assert forall|k: int| 0 <= k < w implies s[i + k] == eb[k] by {
            assert(0 <= k < j - i);
            assert(s.subrange(i, j)[k] == s[i + k]);
            assert((esc_bytes(v) + seq![0x22u8])[k] == esc_bytes(v)[k]);
            assert(esc_bytes(v)[k] == (eb + esc_bytes(tail))[k]);
            assert((eb + esc_bytes(tail))[k] == eb[k]);
            assert(s.subrange(i, j) == esc_bytes(v) + seq![0x22u8]);
        }
        assert(s.subrange(i + w, j) =~= esc_bytes(tail) + seq![0x22u8]) by {
            assert forall|k: int| 0 <= k < j - (i + w) implies s.subrange(i + w, j)[k] == (esc_bytes(
                tail,
            ) + seq![0x22u8])[k] by {
                assert(s.subrange(i, j)[w + k] == (esc_bytes(v) + seq![0x22u8])[w + k]);
                assert((esc_bytes(v) + seq![0x22u8])[w + k] == (esc_bytes(tail) + seq![0x22u8])[k]);
            }
        }
        lemma_string_body_round_trip(s, i + w, tail, j);
        if b == 0x22 {
            assert(s[i] == 0x5C && s[i + 1] == 0x22);
            assert(seq![b] + tail =~= v);
        } else if b == 0x5C {
            assert(s[i] == 0x5C && s[i + 1] == 0x5C);
            assert(seq![b] + tail =~= v);
        } else if b < 0x20 {
            assert(s[i] == 0x5C && s[i + 1] == 0x75 && s[i + 2] == 0x30 && s[i + 3] == 0x30);
            assert(s[i + 4] == spec_hex_digit(b / 16) && s[i + 5] == spec_hex_digit(b % 16));
            lemma_hex_digit_val(b / 16);
            lemma_hex_digit_val(b % 16);
            let cp: u32 = (((b / 16) as u32) * 0x10 + ((b % 16) as u32)) as u32;
            assert(cp == b as u32);
            assert(is_scalar(cp));
            assert(cp & 0x7F == cp && cp <= 0x7F) by (bit_vector)
                requires
                    cp < 0x20,
            ;
            assert((cp & 0x7F) as u8 == b);
            assert(encode_scalar(cp) =~= seq![b]);
            assert(encode_scalar(cp) + tail =~= v);
        } else {
            assert(s[i + 0] == eb[0]);
            assert(s[i] == b);
            assert(seq![b] + tail =~= v);
        }
    }
}

/// The lowercase hex digit for a nibble.
pub fn hex_digit(n: u8) -> (r: u8)
    requires
        n < 16,
    ensures
        r == spec_hex_digit(n),
{
    if n < 10 {
        0x30 + n
    } else {
        0x57 + n
    }
}

/// The value of a hex digit byte (either case), or `None`.
pub fn hex_val(b: u8) -> (r: Option<u8>)
    ensures
        r == spec_hex_val(b),
{
    if 0x30 <= b && b <= 0x39 {
        Some(b - 0x30)
    } else if 0x61 <= b && b <= 0x66 {
        Some(b - 0x61 + 10)
    } else if 0x41 <= b && b <= 0x46 {
        Some(b - 0x41 + 10)
    } else {
        None
    }
}

/// Append the escaped form of `s` to `out`.
pub fn push_esc_bytes(out: &mut Vec<u8>, s: &[u8])
    ensures
        final(out)@ == old(out)@ + esc_bytes(s@),
{
    let mut i: usize = 0;
    while i < s.len()
        invariant
            i <= s.len(),
            out@ == old(out)@ + esc_bytes(s@.take(i as int)),
        decreases s.len() - i,
    {
        let b = s[i];
        proof {
            lemma_esc_bytes_concat(s@.take(i as int), seq![s@[i as int]]);
            assert(s@.take(i as int + 1) =~= s@.take(i as int) + seq![s@[i as int]]);
            assert(seq![s@[i as int]].drop_first() =~= Seq::<u8>::empty());
            assert(esc_bytes(Seq::<u8>::empty()) =~= Seq::<u8>::empty());
            assert(esc_bytes(seq![s@[i as int]]) =~= esc_byte(s@[i as int]));
        }
        if b == 0x22 {
            out.push(0x5C);
            out.push(0x22);
        } else if b == 0x5C {
            out.push(0x5C);
            out.push(0x5C);
        } else if b < 0x20 {
            out.push(0x5C);
            out.push(0x75);
            out.push(0x30);
            out.push(0x30);
            out.push(hex_digit(b / 16));
            out.push(hex_digit(b % 16));
        } else {
            out.push(b);
        }
        assert(out@ =~= old(out)@ + esc_bytes(s@.take(i as int + 1)));
        i += 1;
    }
    assert(s@.take(s@.len() as int) =~= s@);
}

/// The first index at or after `i` that does not hold whitespace.
pub fn skip_ws_at(s: &[u8], i: usize) -> (j: usize)
    requires
        i <= s.len(),
    ensures
        i <= j <= s.len(),
        spec_skip_ws(s@, i as int) == j as int,
{
    let mut j: usize = i;
    while j < s.len() && (s[j] == 0x20 || s[j] == 0x09 || s[j] == 0x0A || s[j] == 0x0D)
        invariant
            i <= j <= s.len(),
            spec_skip_ws(s@, i as int) == spec_skip_ws(s@, j as int),
        decreases s.len() - j,
    {
        j += 1;
    }
    j
}

/// Append the UTF-8 encoding of a Unicode scalar to `out`.
pub fn push_scalar_utf8(out: &mut Vec<u8>, cp: u32)
    requires
        is_scalar(cp),
    ensures
        final(out)@ == old(out)@ + encode_scalar(cp),
{
    if cp <= 0x7F {
        out.push((cp & 0x7F) as u8);
    } else if cp <= 0x7FF {
        out.push(0xC0u8 | (((cp >> 6) & 0x1F) as u8));
        out.push(0x80u8 | ((cp & 0x3F) as u8));
    } else if cp <= 0xFFFF {
        out.push(0xE0u8 | (((cp >> 12) & 0x0F) as u8));
        out.push(0x80u8 | (((cp >> 6) & 0x3F) as u8));
        out.push(0x80u8 | ((cp & 0x3F) as u8));
    } else {
        out.push(0xF0u8 | (((cp >> 18) & 0x7) as u8));
        out.push(0x80u8 | (((cp >> 12) & 0x3F) as u8));
        out.push(0x80u8 | (((cp >> 6) & 0x3F) as u8));
        out.push(0x80u8 | ((cp & 0x3F) as u8));
    }
    assert(out@ =~= old(out)@ + encode_scalar(cp));
}

/// Parse a JSON string literal body starting just after the opening quote,
/// appending the decoded content to `out`; on success the result is the index
/// just after the closing quote. On failure the content appended so far
/// stays in `out` and is meaningless.
pub fn parse_string_body_at(s: &[u8], i: usize, out: &mut Vec<u8>) -> (r: Option<usize>)
    requires
        i <= s.len(),
    ensures
        r is Some ==> {
            let (v, e) = spec_parse_string_body(s@, i as int)->0;
            &&& spec_parse_string_body(s@, i as int) is Some
            &&& i <= r->0 <= s.len()
            &&& final(out)@ == old(out)@ + v
            &&& e == r->0 as int
        },
        r is None ==> spec_parse_string_body(s@, i as int) is None,
{
    let ghost orig: int = i as int;
    let ghost base: Seq<u8> = out@;
    let mut p: usize = i;
    loop
        invariant
            i <= p <= s.len(),
            base.is_prefix_of(out@),
            base == old(out)@,
            spec_parse_string_body(s@, orig) is Some <==> spec_parse_string_body(
                s@,
                p as int,
            ) is Some,
            spec_parse_string_body(s@, p as int) is Some ==> {
                let (v0, e0) = spec_parse_string_body(s@, orig)->0;
                let (v1, e1) = spec_parse_string_body(s@, p as int)->0;
                &&& v0 == out@.skip(base.len() as int) + v1
                &&& e0 == e1
            },
            orig == i as int,
        decreases s.len() - p,
    {
        let ghost acc = out@.skip(base.len() as int);
        if p == s.len() {
            assert(spec_parse_string_body(s@, p as int) is None);
            return None;
        }
        let b = s[p];
        if b == 0x22 {
            assert(spec_parse_string_body(s@, p as int) == Some((Seq::<u8>::empty(), p + 1)));
            assert(out@.skip(base.len() as int) + Seq::<u8>::empty() =~= out@.skip(
                base.len() as int,
            ));
            assert(out@ =~= base + out@.skip(base.len() as int));
            return Some(p + 1);
        } else if b == 0x5C {
            if p + 1 >= s.len() {
                assert(spec_parse_string_body(s@, p as int) is None);
                return None;
            }
            let e = s[p + 1];
            if e == 0x22 || e == 0x5C || e == 0x2F {
                out.push(e);
                proof {
                    lift_one(s@, p as int, p as int + 2, seq![e], orig, acc);
                    assert(out@.skip(base.len() as int) =~= acc + seq![e]);
                }
                p = p + 2;
            } else if e == 0x62 || e == 0x66 || e == 0x6E || e == 0x72 || e == 0x74 {
                let d: u8 = if e == 0x62 {
                    0x08
                } else if e == 0x66 {
                    0x0C
                } else if e == 0x6E {
                    0x0A
                } else if e == 0x72 {
                    0x0D
                } else {
                    0x09
                };
                out.push(d);
                proof {
                    lift_one(s@, p as int, p as int + 2, seq![d], orig, acc);
                    assert(out@.skip(base.len() as int) =~= acc + seq![d]);
                }
                p = p + 2;
            } else if e == 0x75 {
                if s.len() - p < 6 {
                    assert(spec_parse_string_body(s@, p as int) is None);
                    return None;
                }
                let h3 = hex_val(s[p + 2]);
                let h2 = hex_val(s[p + 3]);
                let h1 = hex_val(s[p + 4]);
                let h0 = hex_val(s[p + 5]);
                if h3.is_none() || h2.is_none() || h1.is_none() || h0.is_none() {
                    assert(spec_parse_string_body(s@, p as int) is None);
                    return None;
                }
                let cp: u32 = (h3.unwrap() as u32) * 0x1000 + (h2.unwrap() as u32) * 0x100 + (
                h1.unwrap() as u32) * 0x10 + (h0.unwrap() as u32);
                if 0xD800 <= cp && cp <= 0xDFFF {
                    assert(!is_scalar(cp));
                    assert(spec_parse_string_body(s@, p as int) is None);
                    return None;
                }
                assert(is_scalar(cp));
                push_scalar_utf8(out, cp);
                proof {
                    lift_one(s@, p as int, p as int + 6, encode_scalar(cp), orig, acc);
                    assert(out@.skip(base.len() as int) =~= acc + encode_scalar(cp));
                }
                p = p + 6;
            } else {
                assert(spec_parse_string_body(s@, p as int) is None);
                return None;
            }
        } else if b < 0x20 {
            assert(spec_parse_string_body(s@, p as int) is None);
            return None;
        } else {
            out.push(b);
            proof {
                lift_one(s@, p as int, p as int + 1, seq![s@[p as int]], orig, acc);
                assert(out@.skip(base.len() as int) =~= acc + seq![s@[p as int]]);
            }
            p = p + 1;
        }
    }
}

/// One step of string-body parsing: consuming the piece at `p` that decodes
/// to `piece` carries the lifting invariant from `p` to `q`.
proof fn lift_one(s: Seq<u8>, p: int, q: int, piece: Seq<u8>, orig: int, acc: Seq<u8>)
    requires
        spec_parse_string_body(s, p) == match spec_parse_string_body(s, q) {
            Some((v, j)) => Some::<(Seq<u8>, int)>((piece + v, j)),
            None => None::<(Seq<u8>, int)>,
        },
        spec_parse_string_body(s, orig) is Some <==> spec_parse_string_body(s, p) is Some,
        spec_parse_string_body(s, p) is Some ==> {
            let (v0, e0) = spec_parse_string_body(s, orig)->0;
            let (v1, e1) = spec_parse_string_body(s, p)->0;
            &&& v0 == acc + v1
            &&& e0 == e1
        },
    ensures
        spec_parse_string_body(s, orig) is Some <==> spec_parse_string_body(s, q) is Some,
        spec_parse_string_body(s, q) is Some ==> {
            let (v0, e0) = spec_parse_string_body(s, orig)->0;
            let (v1, e1) = spec_parse_string_body(s, q)->0;
            &&& v0 == (acc + piece) + v1
            &&& e0 == e1
        },
{
    if spec_parse_string_body(s, q) is Some {
        let (v0, e0) = spec_parse_string_body(s, orig)->0;
        let (v1, e1) = spec_parse_string_body(s, q)->0;
        assert(v0 == acc + (piece + v1));
        assert(acc + (piece + v1) =~= (acc + piece) + v1);
    }
}

} // verus!
