//! The persisted device cache: a pretty-printed JSON array of
//! `{"name": ..., "address": ...}` objects, with a verified renderer and
//! parser and a proof that loading what was saved gives the list back.
//!
//! The grammar accepted here is the cache file's own: an array of objects
//! whose two members are `name` and `address` (in either order), with JSON
//! string escapes and arbitrary whitespace between tokens.

use crate::device::{device_views, DeviceInfo, DeviceView};
use crate::json::{
    esc_bytes, is_ws, lemma_esc_bytes_plain, lemma_skip_ws_congruence, lemma_skip_ws_run,
    lemma_string_body_round_trip, parse_string_body_at, push_esc_bytes, skip_ws_at,
    spec_parse_string_body, spec_skip_ws,
};
use vstd::prelude::*;
use vstd::utf8::{
    decode_utf8, encode_utf8, encode_utf8_decode_utf8, encode_utf8_valid_utf8, valid_utf8,
};

verus! {

/// The bytes of the member key `name`.
pub open spec fn name_key() -> Seq<u8> {
    seq![0x6Eu8, 0x61u8, 0x6Du8, 0x65u8]
}

/// The bytes of the member key `address`.
pub open spec fn address_key() -> Seq<u8> {
    seq![0x61u8, 0x64u8, 0x64u8, 0x72u8, 0x65u8, 0x73u8, 0x73u8]
}

/// A quoted JSON string starting at `i`: its content and the index after the
/// closing quote.
pub open spec fn spec_parse_quoted(s: Seq<u8>, i: int) -> Option<(Seq<u8>, int)> {
    if 0 <= i < s.len() && s[i] == 0x22 {
        spec_parse_string_body(s, i + 1)
    } else {
        None
    }
}

/// One object member: a quoted key, a colon, a quoted value, with optional
/// whitespace around each token. The result gives the key and value contents
/// and the index just after the value's closing quote.
pub open spec fn spec_parse_member(s: Seq<u8>, i: int) -> Option<((Seq<u8>, Seq<u8>), int)> {
    let b = spec_skip_ws(s, i);
    match spec_parse_quoted(s, b) {
        Some((k, c)) => {
            let d = spec_skip_ws(s, c);
            if d < s.len() && s[d] == 0x3A {
                let e = spec_skip_ws(s, d + 1);
                match spec_parse_quoted(s, e) {
                    Some((v, f)) => Some(((k, v), f)),
                    None => None,
                }
            } else {
                None
            }
        },
        None => None,
    }
}

/// One cache record: an object with members `name` and `address` in either
/// order. The result pairs the name content with the address content and
/// gives the index just after the closing brace.
pub open spec fn spec_parse_record(s: Seq<u8>, i: int) -> Option<((Seq<u8>, Seq<u8>), int)> {
    let a = spec_skip_ws(s, i);
    if a < s.len() && s[a] == 0x7B {
        match spec_parse_member(s, a + 1) {
            Some(((k1, v1), f)) => {
                let g = spec_skip_ws(s, f);
                if g < s.len() && s[g] == 0x2C {
                    match spec_parse_member(s, g + 1) {
                        Some(((k2, v2), u)) => {
                            let w = spec_skip_ws(s, u);
                            if w < s.len() && s[w] == 0x7D {
                                if k1 == name_key() && k2 == address_key() {
                                    Some(((v1, v2), w + 1))
                                } else if k1 == address_key() && k2 == name_key() {
                                    Some(((v2, v1), w + 1))
                                } else {
                                    None
                                }
                            } else {
                                None
                            }
                        },
                        None => None,
                    }
                } else {
                    None
                }
            },
            None => None,
        }
    } else {
        None
    }
}

/// One or more records separated by commas, ended by the closing bracket of
/// the surrounding array; the index points just after that bracket.
pub open spec fn spec_parse_records(s: Seq<u8>, i: int) -> Option<(Seq<(Seq<u8>, Seq<u8>)>, int)>
    decreases s.len() - i,
{
    match spec_parse_record(s, i) {
        Some((rec, j)) => {
            let g = spec_skip_ws(s, j);
            if g < s.len() && s[g] == 0x2C {
                if i < g + 1 {
                    match spec_parse_records(s, g + 1) {
                        Some((l, k)) => Some((seq![rec] + l, k)),
                        None => None,
                    }
                } else {
                    None
                }
            } else if g < s.len() && s[g] == 0x5D {
                Some((seq![rec], g + 1))
            } else {
                None
            }
        },
        None => None,
    }
}

/// A whole cache file: a JSON array of records with nothing but whitespace
/// after it. The empty array parses to the empty list.
pub open spec fn spec_parse_devices(s: Seq<u8>) -> Option<Seq<(Seq<u8>, Seq<u8>)>> {
    let a = spec_skip_ws(s, 0);
    if a < s.len() && s[a] == 0x5B {
        let b = spec_skip_ws(s, a + 1);
        if b < s.len() && s[b] == 0x5D {
            if spec_skip_ws(s, b + 1) == s.len() {
                Some(Seq::empty())
            } else {
                None
            }
        } else {
            match spec_parse_records(s, a + 1) {
                Some((l, k)) => if spec_skip_ws(s, k) == s.len() {
                    Some(l)
                } else {
                    None
                },
                None => None,
            }
        }
    } else {
        None
    }
}

/// The rendered form of one object member: `"key": "value"` with the value
/// escaped.
pub open spec fn member_render(key: Seq<u8>, v: Seq<u8>) -> Seq<u8> {
    seq![0x22u8] + key + seq![0x22u8, 0x3Au8, 0x20u8, 0x22u8] + esc_bytes(v) + seq![0x22u8]
}

/// One rendered record, name first, both values escaped:
/// `  {"name": ..., "address": ...}`.
pub open spec fn spec_render_record(name: Seq<u8>, addr: Seq<u8>) -> Seq<u8> {
    seq![0x20u8, 0x20u8, 0x7Bu8] + member_render(name_key(), name) + seq![0x2Cu8, 0x20u8]
        + member_render(address_key(), addr) + seq![0x7Du8]
}

/// Rendered records joined by `,` and a line break.
pub open spec fn spec_render_records(l: Seq<(Seq<u8>, Seq<u8>)>) -> Seq<u8>
    decreases l.len(),
{
    if l.len() == 0 {
        Seq::empty()
    } else if l.len() == 1 {
        spec_render_record(l[0].0, l[0].1)
    } else {
        spec_render_record(l[0].0, l[0].1) + seq![0x2Cu8, 0x0Au8] + spec_render_records(
            l.drop_first(),
        )
    }
}

/// The whole rendered cache file: a pretty-printed JSON array.
pub open spec fn spec_render_devices(l: Seq<(Seq<u8>, Seq<u8>)>) -> Seq<u8> {
    if l.len() == 0 {
        seq![0x5Bu8, 0x5Du8]
    } else {
        seq![0x5Bu8, 0x0Au8] + spec_render_records(l) + seq![0x0Au8, 0x5Du8]
    }
}

/// Parsing a rendered quoted string yields its content.
proof fn lemma_parse_quoted_at(s: Seq<u8>, i: int, v: Seq<u8>, j: int)
    requires
        0 <= i,
        j == i + 1 + esc_bytes(v).len() + 1,
        j <= s.len(),
        s.subrange(i, j) == seq![0x22u8] + esc_bytes(v) + seq![0x22u8],
    ensures
        spec_parse_quoted(s, i) == Some((v, j)),
{
    assert(s[i] == (seq![0x22u8] + esc_bytes(v) + seq![0x22u8])[0]);
    assert(s.subrange(i + 1, j) =~= esc_bytes(v) + seq![0x22u8]) by {
        assert forall|k: int| 0 <= k < j - i - 1 implies s.subrange(i + 1, j)[k] == (esc_bytes(v)
            + seq![0x22u8])[k] by {
            assert(s.subrange(i, j)[k + 1] == (seq![0x22u8] + esc_bytes(v) + seq![0x22u8])[k + 1]);
            assert(s.subrange(i + 1, j)[k] == s[i + 1 + k]);
            assert(s.subrange(i, j)[k + 1] == s[i + 1 + k]);
            assert((seq![0x22u8] + esc_bytes(v) + seq![0x22u8])[k + 1] == (esc_bytes(v) + seq![
                0x22u8,
            ])[k]);
        }
    }
    lemma_string_body_round_trip(s, i + 1, v, j);
}

/// Parsing a rendered member yields its key and value.
proof fn lemma_member_at(s: Seq<u8>, i: int, qpos: int, key: Seq<u8>, v: Seq<u8>, j: int)
    requires
        0 <= qpos,
        spec_skip_ws(s, i) == qpos,
        esc_bytes(key) == key,
        j == qpos + key.len() + 6 + esc_bytes(v).len(),
        j <= s.len(),
        s.subrange(qpos, j) == member_render(key, v),
    ensures
        spec_parse_member(s, i) == Some(((key, v), j)),
{
    let kl = key.len() as int;
    let ev = esc_bytes(v).len() as int;
    let mr = member_render(key, v);
    assert(mr.len() == kl + 6 + ev);
    assert forall|k: int| qpos <= k < j implies s[k] == mr[k - qpos] by {
        assert(s.subrange(qpos, j)[k - qpos] == mr[k - qpos]);
    }
    // the key
    assert(s.subrange(qpos, qpos + kl + 2) =~= seq![0x22u8] + esc_bytes(key) + seq![0x22u8]) by {
        assert forall|k: int| 0 <= k < kl + 2 implies s.subrange(qpos, qpos + kl + 2)[k] == (seq![
            0x22u8,
        ] + esc_bytes(key) + seq![0x22u8])[k] by {
            assert(s.subrange(qpos, qpos + kl + 2)[k] == s[qpos + k]);
            assert(s[qpos + k] == mr[k]);
        }
    }
    lemma_parse_quoted_at(s, qpos, key, qpos + kl + 2);
    // colon and space
    assert(s[qpos + kl + 2] == mr[kl + 2] && mr[kl + 2] == 0x3A);
    lemma_skip_ws_run(s, qpos + kl + 2, qpos + kl + 2);
    assert(s[qpos + kl + 3] == mr[kl + 3] && mr[kl + 3] == 0x20);
    assert(s[qpos + kl + 4] == mr[kl + 4] && mr[kl + 4] == 0x22);
    lemma_skip_ws_run(s, qpos + kl + 3, qpos + kl + 4);
    // the value
    assert(s.subrange(qpos + kl + 4, j) =~= seq![0x22u8] + esc_bytes(v) + seq![0x22u8]) by {
        assert forall|k: int| 0 <= k < 2 + ev implies s.subrange(qpos + kl + 4, j)[k] == (seq![
            0x22u8,
        ] + esc_bytes(v) + seq![0x22u8])[k] by {
            assert(s.subrange(qpos + kl + 4, j)[k] == s[qpos + kl + 4 + k]);
            assert(s[qpos + kl + 4 + k] == mr[kl + 4 + k]);
            assert(mr[kl + 4 + k] == (seq![0x22u8] + esc_bytes(v) + seq![0x22u8])[k]);
        }
    }
    lemma_parse_quoted_at(s, qpos + kl + 4, v, j);
}

/// Parsing a rendered record yields its two member values.
#[verifier::rlimit(100)]
#[verifier::spinoff_prover]
proof fn lemma_record_at(s: Seq<u8>, i: int, name: Seq<u8>, addr: Seq<u8>, j: int)
    requires
        0 <= i,
        j == i + 29 + esc_bytes(name).len() + esc_bytes(addr).len(),
        j <= s.len(),
        s.subrange(i, j) == spec_render_record(name, addr),
    ensures
        spec_parse_record(s, i) == Some(((name, addr), j)),
{
    let en = esc_bytes(name).len() as int;
    let ea = esc_bytes(addr).len() as int;
    let rr = spec_render_record(name, addr);
    let m1 = member_render(name_key(), name);
    let m2 = member_render(address_key(), addr);
    let m0 = i + 12 + en;
    assert(m1.len() == 10 + en);
    assert(m2.len() == 13 + ea);
    assert(rr.len() == 29 + en + ea);
    // the two leading spaces, then the brace
    assert(s[i] == 0x20) by {
        assert(s.subrange(i, j)[0] == rr[0]);
    }
    assert(s[i + 1] == 0x20) by {
        assert(s.subrange(i, j)[1] == rr[1]);
    }
    assert(s[i + 2] == 0x7B) by {
        assert(s.subrange(i, j)[2] == rr[2]);
    }
    lemma_skip_ws_run(s, i, i + 2);
    // first member: the name, at the quote right after the brace
    assert(s[i + 3] == 0x22) by {
        assert(s.subrange(i, j)[3] == rr[3]);
        assert(rr[3] == m1[0]);
    }
    lemma_skip_ws_run(s, i + 3, i + 3);
    assert(esc_bytes(name_key()) == name_key()) by {
        lemma_esc_bytes_plain(name_key());
    }
    assert(s.subrange(i + 3, i + 13 + en) =~= m1) by {
        assert forall|k: int| 0 <= k < 10 + en implies s.subrange(i + 3, i + 13 + en)[k]
            == m1[k] by {
            assert(s.subrange(i + 3, i + 13 + en)[k] == s[i + 3 + k]);
            assert(s[i + 3 + k] == s.subrange(i, j)[3 + k]);
            assert(rr[3 + k] == m1[k]);
        }
    }
    lemma_member_at(s, i + 3, i + 3, name_key(), name, i + 13 + en);
    // the comma and space between the members
    assert(s[m0 + 1] == 0x2C) by {
        assert(s.subrange(i, j)[13 + en] == rr[13 + en]);
    }
    lemma_skip_ws_run(s, m0 + 1, m0 + 1);
    assert(s[m0 + 2] == 0x20) by {
        assert(s.subrange(i, j)[14 + en] == rr[14 + en]);
    }
    assert(s[m0 + 3] == 0x22) by {
        assert(s.subrange(i, j)[15 + en] == rr[15 + en]);
        assert(rr[15 + en] == m2[0]);
    }
    lemma_skip_ws_run(s, m0 + 2, m0 + 3);
    // second member: the address
    assert(esc_bytes(address_key()) == address_key()) by {
        lemma_esc_bytes_plain(address_key());
    }
    assert(s.subrange(m0 + 3, m0 + 16 + ea) =~= m2) by {
        assert forall|k: int| 0 <= k < 13 + ea implies s.subrange(m0 + 3, m0 + 16 + ea)[k]
            == m2[k] by {
            assert(s.subrange(m0 + 3, m0 + 16 + ea)[k] == s[m0 + 3 + k]);
            assert(s[m0 + 3 + k] == s.subrange(i, j)[15 + en + k]);
            assert(rr[15 + en + k] == m2[k]);
        }
    }
    lemma_member_at(s, m0 + 2, m0 + 3, address_key(), addr, m0 + 16 + ea);
    // the closing brace
    assert(s[m0 + 16 + ea] == 0x7D) by {
        assert(s.subrange(i, j)[28 + en + ea] == rr[28 + en + ea]);
    }
    lemma_skip_ws_run(s, m0 + 16 + ea, m0 + 16 + ea);
    assert(m0 + 16 + ea + 1 == j);
}

/// Leading whitespace does not change how a record parses.
proof fn lemma_parse_record_ws_prefix(s: Seq<u8>, i: int, i2: int)
    requires
        0 <= i <= i2 <= s.len(),
        forall|k: int| i <= k < i2 ==> is_ws(s[k]),
    ensures
        spec_parse_record(s, i) == spec_parse_record(s, i2),
{
    lemma_skip_ws_congruence(s, i, i2);
}

/// Parsing a rendered record list (preceded by its line break and followed
/// by the closing line break and bracket) yields the list.
proof fn lemma_records_at(s: Seq<u8>, i: int, l: Seq<(Seq<u8>, Seq<u8>)>, j: int)
    requires
        0 <= i,
        l.len() >= 1,
        j == i + 1 + spec_render_records(l).len() + 2,
        j <= s.len(),
        s.subrange(i, j) == seq![0x0Au8] + spec_render_records(l) + seq![0x0Au8, 0x5Du8],
    ensures
        spec_parse_records(s, i) == Some((l, j)),
    decreases l.len(),
{
    let rl = spec_render_records(l);
    let r0 = spec_render_record(l[0].0, l[0].1);
    let re = i + 1 + r0.len();
    assert(r0.len() == 29 + esc_bytes(l[0].0).len() + esc_bytes(l[0].1).len());
    assert forall|k: int| 0 <= k < rl.len() implies rl[k] == (if l.len() == 1 {
        r0[k]
    } else {
        (r0 + seq![0x2Cu8, 0x0Au8] + spec_render_records(l.drop_first()))[k]
    }) by {}
    assert(s[i] == 0x0A) by {
        assert(s.subrange(i, j)[0] == (seq![0x0Au8] + rl + seq![0x0Au8, 0x5Du8])[0]);
    }
    assert(s.subrange(i + 1, re) =~= r0) by {
        assert forall|k: int| 0 <= k < r0.len() implies s.subrange(i + 1, re)[k] == r0[k] by {
            assert(s.subrange(i + 1, re)[k] == s[i + 1 + k]);
            assert(s[i + 1 + k] == s.subrange(i, j)[1 + k]);
            assert((seq![0x0Au8] + rl + seq![0x0Au8, 0x5Du8])[1 + k] == rl[k]);
        }
    }
    lemma_record_at(s, i + 1, l[0].0, l[0].1, re);
    lemma_parse_record_ws_prefix(s, i, i + 1);
    assert(spec_parse_record(s, i) == Some(((l[0].0, l[0].1), re)));
    if l.len() == 1 {
        assert(s[re] == 0x0A) by {
            assert(s.subrange(i, j)[re - i] == (seq![0x0Au8] + rl + seq![0x0Au8, 0x5Du8])[re - i]);
        }
        assert(s[re + 1] == 0x5D) by {
            assert(s.subrange(i, j)[re + 1 - i] == (seq![0x0Au8] + rl + seq![0x0Au8, 0x5Du8])[re + 1
                - i]);
        }
        lemma_skip_ws_run(s, re, re + 1);
        assert(seq![(l[0].0, l[0].1)] =~= l);
        assert(re + 2 == j);
    } else {
        let ld = l.drop_first();
        let rd = spec_render_records(ld);
        assert(rl == r0 + seq![0x2Cu8, 0x0Au8] + rd);
        assert(s[re] == 0x2C) by {
            assert(s.subrange(i, j)[re - i] == (seq![0x0Au8] + rl + seq![0x0Au8, 0x5Du8])[re - i]);
            assert((seq![0x0Au8] + rl + seq![0x0Au8, 0x5Du8])[re - i] == rl[r0.len() as int]);
        }
        lemma_skip_ws_run(s, re, re);
        assert(s.subrange(re + 1, j) =~= seq![0x0Au8] + rd + seq![0x0Au8, 0x5Du8]) by {
            assert forall|k: int| 0 <= k < j - re - 1 implies s.subrange(re + 1, j)[k] == (seq![
                0x0Au8,
            ] + rd + seq![0x0Au8, 0x5Du8])[k] by {
                assert(s.subrange(re + 1, j)[k] == s[re + 1 + k]);
                assert(s[re + 1 + k] == s.subrange(i, j)[re + 1 + k - i]);
                assert((seq![0x0Au8] + rl + seq![0x0Au8, 0x5Du8])[re + 1 + k - i] == (seq![0x0Au8]
                    + rd + seq![0x0Au8, 0x5Du8])[k]) by {
                    if k < 1 + rd.len() {
                        assert((seq![0x0Au8] + rl + seq![0x0Au8, 0x5Du8])[re + 1 + k - i] == rl[
                            r0.len() as int + 1 + k]);
                        if k == 0 {
                            assert(rl[r0.len() as int + 1] == 0x0A);
                        } else {
                            assert(rl[r0.len() as int + 1 + k] == rd[k - 1]);
                        }
                    }
                }
            }
        }
        lemma_records_at(s, re + 1, ld, j);
        assert(seq![(l[0].0, l[0].1)] + ld =~= l);
    }
}

/// Parsing a rendered cache file yields the very list that was rendered:
/// the cache round trip at the byte level.
#[verifier::rlimit(100)]
#[verifier::spinoff_prover]
pub proof fn lemma_devices_round_trip(l: Seq<(Seq<u8>, Seq<u8>)>)
    ensures
        spec_parse_devices(spec_render_devices(l)) == Some(l),
{
    let s = spec_render_devices(l);
    if l.len() == 0 {
        assert(s[0] == 0x5B && s[1] == 0x5D && s.len() == 2);
        lemma_skip_ws_run(s, 0, 0);
        lemma_skip_ws_run(s, 1, 1);
        assert(spec_skip_ws(s, 2) == 2);
        assert(spec_parse_devices(s) == Some(Seq::<(Seq<u8>, Seq<u8>)>::empty()));
    } else {
        let rl = spec_render_records(l);
        let r0 = spec_render_record(l[0].0, l[0].1);
        assert(rl.len() >= 3) by {
            assert(rl[0] == r0[0] && rl[1] == r0[1] && rl[2] == r0[2]);
        }
        assert(s.len() == rl.len() + 4);
        assert(s[0] == 0x5B && s[1] == 0x0A);
        assert(s[2] == rl[0] && s[3] == rl[1] && s[4] == rl[2]);
        assert(rl[0] == 0x20 && rl[1] == 0x20 && rl[2] == 0x7B) by {
            assert(rl[0] == r0[0] && rl[1] == r0[1] && rl[2] == r0[2]);
        }
        lemma_skip_ws_run(s, 0, 0);
        lemma_skip_ws_run(s, 1, 4);
        assert(s.subrange(1, s.len() as int) =~= seq![0x0Au8] + rl + seq![0x0Au8, 0x5Du8]);
        lemma_records_at(s, 1, l, s.len() as int);
        assert(spec_skip_ws(s, s.len() as int) == s.len());
    }
}

/// Why a cache file could not be read back: it is not a well-formed record
/// array, or a decoded string is not valid UTF-8.
#[derive(Debug, PartialEq, Eq, Clone, Copy)]
pub enum CacheError {
    Malformed,
    InvalidUtf8,
}

/// The byte contents of each record of a device list.
pub open spec fn byte_pairs(l: Seq<DeviceView>) -> Seq<(Seq<u8>, Seq<u8>)> {
    l.map_values(|d: DeviceView| (encode_utf8(d.name), encode_utf8(d.address)))
}

/// What `save_devices` writes for a device list.
pub open spec fn spec_save_devices(l: Seq<DeviceView>) -> Seq<u8> {
    spec_render_devices(byte_pairs(l))
}

/// Every record's bytes decode as UTF-8.
pub open spec fn pairs_utf8_valid(l: Seq<(Seq<u8>, Seq<u8>)>) -> bool {
    forall|i: int| 0 <= i < l.len() ==> valid_utf8(#[trigger] l[i].0) && valid_utf8(l[i].1)
}

/// The device list denoted by parsed record contents.
pub open spec fn decode_pairs(l: Seq<(Seq<u8>, Seq<u8>)>) -> Seq<DeviceView> {
    l.map_values(|p: (Seq<u8>, Seq<u8>)| DeviceView { name: decode_utf8(p.0), address: decode_utf8(p.1) })
}

/// What `load_devices` yields for given file bytes.
pub open spec fn spec_load_devices(b: Seq<u8>) -> Result<Seq<DeviceView>, CacheError> {
    match spec_parse_devices(b) {
        None => Err(CacheError::Malformed),
        Some(l) => if pairs_utf8_valid(l) {
            Ok(decode_pairs(l))
        } else {
            Err(CacheError::InvalidUtf8)
        },
    }
}

/// The cache round trip: loading the bytes saved for any device list yields
/// exactly that list.
pub proof fn lemma_cache_round_trip(devs: Seq<DeviceView>)
    ensures
        spec_load_devices(spec_save_devices(devs)) == Ok::<Seq<DeviceView>, CacheError>(devs),
{
    let bp = byte_pairs(devs);
    lemma_devices_round_trip(bp);
    assert forall|i: int| 0 <= i < bp.len() implies valid_utf8(#[trigger] bp[i].0) && valid_utf8(
        bp[i].1,
    ) by {
        encode_utf8_valid_utf8(devs[i].name);
        encode_utf8_valid_utf8(devs[i].address);
    }
    assert(decode_pairs(bp) =~= devs) by {
        assert forall|i: int| 0 <= i < devs.len() implies decode_pairs(bp)[i] == devs[i] by {
            encode_utf8_decode_utf8(devs[i].name);
            encode_utf8_decode_utf8(devs[i].address);
        }
    }
}

/// The bytes of the key `name`, for building output.
fn name_key_bytes() -> (r: Vec<u8>)
    ensures
        r@ == name_key(),
{
    let mut r: Vec<u8> = Vec::new();
    r.push(0x6E);
    r.push(0x61);
    r.push(0x6D);
    r.push(0x65);
    assert(r@ =~= name_key());
    r
}

/// The bytes of the key `address`, for building output.
fn address_key_bytes() -> (r: Vec<u8>)
    ensures
        r@ == address_key(),
{
    let mut r: Vec<u8> = Vec::new();
    r.push(0x61);
    r.push(0x64);
    r.push(0x64);
    r.push(0x72);
    r.push(0x65);
    r.push(0x73);
    r.push(0x73);
    assert(r@ =~= address_key());
    r
}

/// Append one rendered member to `out`.
fn push_member(out: &mut Vec<u8>, key: &[u8], value: &[u8])
    ensures
        final(out)@ == old(out)@ + member_render(key@, value@),
{
    out.push(0x22);
    let mut i: usize = 0;
    while i < key.len()
        invariant
            i <= key.len(),
            out@ == old(out)@ + seq![0x22u8] + key@.take(i as int),
        decreases key.len() - i,
    {
        out.push(key[i]);
        assert(key@.take(i as int + 1) =~= key@.take(i as int).push(key@[i as int]));
        assert(out@ =~= old(out)@ + seq![0x22u8] + key@.take(i as int + 1));
        i += 1;
    }
    assert(key@.take(key@.len() as int) =~= key@);
    out.push(0x22);
    out.push(0x3A);
    out.push(0x20);
    out.push(0x22);
    push_esc_bytes(out, value);
    out.push(0x22);
    assert(out@ =~= old(out)@ + member_render(key@, value@));
}

/// Append one rendered record to `out`.
fn push_record(out: &mut Vec<u8>, d: &DeviceInfo)
    ensures
        final(out)@ == old(out)@ + spec_render_record(
            encode_utf8(d@.name),
            encode_utf8(d@.address),
        ),
{
    out.push(0x20);
    out.push(0x20);
    out.push(0x7B);
    let nk = name_key_bytes();
    push_member(out, nk.as_slice(), d.name.as_str().as_bytes());
    out.push(0x2C);
    out.push(0x20);
    let ak = address_key_bytes();
    push_member(out, ak.as_slice(), d.address.as_str().as_bytes());
    out.push(0x7D);
    assert(out@ =~= old(out)@ + spec_render_record(encode_utf8(d@.name), encode_utf8(d@.address)));
}

/// Appending one more record to a non-empty rendered list appends a comma,
/// a line break and the record.
proof fn lemma_render_records_push(l: Seq<(Seq<u8>, Seq<u8>)>, x: (Seq<u8>, Seq<u8>))
    requires
        l.len() >= 1,
    ensures
        spec_render_records(l.push(x)) == spec_render_records(l) + seq![0x2Cu8, 0x0Au8]
            + spec_render_record(x.0, x.1),
    decreases l.len(),
{
    if l.len() == 1 {
        assert(l.push(x).drop_first() =~= seq![x]);
        assert(spec_render_records(seq![x]) == spec_render_record(x.0, x.1));
        assert(l.push(x)[0] == l[0]);
        assert(spec_render_records(l.push(x)) =~= spec_render_records(l) + seq![0x2Cu8, 0x0Au8]
            + spec_render_record(x.0, x.1));
    } else {
        lemma_render_records_push(l.drop_first(), x);
        assert(l.push(x).drop_first() =~= l.drop_first().push(x));
        assert(l.push(x)[0] == l[0]);
        assert(spec_render_records(l.push(x)) =~= spec_render_records(l) + seq![0x2Cu8, 0x0Au8]
            + spec_render_record(x.0, x.1));
    }
}

/// Render the cache file for a device list: a pretty-printed JSON array of
/// `{"name", "address"}` records. The caller persists the bytes.
pub fn save_devices(devices: &Vec<DeviceInfo>) -> (r: Vec<u8>)
    ensures
        r@ == spec_save_devices(device_views(devices@)),
{
    let ghost all = byte_pairs(device_views(devices@));
    let mut out: Vec<u8> = Vec::new();
    if devices.len() == 0 {
        out.push(0x5B);
        out.push(0x5D);
        assert(out@ =~= spec_save_devices(device_views(devices@)));
        return out;
    }
    out.push(0x5B);
    out.push(0x0A);
    let mut i: usize = 0;
    while i < devices.len()
        invariant
            i <= devices.len(),
            devices.len() > 0,
            all == byte_pairs(device_views(devices@)),
            all.len() == devices.len(),
            i == 0 ==> out@ == seq![0x5Bu8, 0x0Au8],
            i >= 1 ==> out@ == seq![0x5Bu8, 0x0Au8] + spec_render_records(all.take(i as int)),
        decreases devices.len() - i,
    {
        let ghost pre = out@;
        if i > 0 {
            out.push(0x2C);
            out.push(0x0A);
        }
        push_record(&mut out, &devices[i]);
        proof {
            assert(all[i as int] == (encode_utf8(devices@[i as int]@.name), encode_utf8(
                devices@[i as int]@.address,
            )));
            assert(all.take(i as int + 1) =~= all.take(i as int).push(all[i as int]));
            if i == 0 {
                assert(all.take(1) =~= seq![all[0]]);
                assert(spec_render_records(seq![all[0]]) == spec_render_record(
                    all[0].0,
                    all[0].1,
                ));
                assert(out@ =~= seq![0x5Bu8, 0x0Au8] + spec_render_records(all.take(1)));
            } else {
                lemma_render_records_push(all.take(i as int), all[i as int]);
                assert(out@ =~= seq![0x5Bu8, 0x0Au8] + spec_render_records(
                    all.take(i as int + 1),
                ));
            }
        }
        i += 1;
    }
    out.push(0x0A);
    out.push(0x5D);
    proof {
        assert(all.take(all.len() as int) =~= all);
        assert(out@ =~= spec_save_devices(device_views(devices@)));
    }
    out
}

/// The bytes that clear the cache: what `save_devices` writes for an empty
/// device list.
pub fn clear_cache() -> (r: Vec<u8>)
    ensures
        r@ == spec_save_devices(Seq::empty()),
{
    let empty: Vec<DeviceInfo> = Vec::new();
    let r = save_devices(&empty);
    proof {
        assert(device_views(empty@) =~= Seq::<DeviceView>::empty());
    }
    r
}

/// Parse a quoted string at `i`, appending its content to `out`; on success
/// the result is the index just after the closing quote.
fn parse_quoted_at(s: &[u8], i: usize, out: &mut Vec<u8>) -> (r: Option<usize>)
    requires
        i <= s.len(),
    ensures
        r is Some ==> {
            let (v, e) = spec_parse_quoted(s@, i as int)->0;
            &&& spec_parse_quoted(s@, i as int) is Some
            &&& i < r->0 <= s.len()
            &&& final(out)@ == old(out)@ + v
            &&& e == r->0 as int
        },
        r is None ==> spec_parse_quoted(s@, i as int) is None,
{
    if i < s.len() && s[i] == 0x22 {
        parse_string_body_at(s, i + 1, out)
    } else {
        None
    }
}

/// Parse one object member at `i`: its key and value contents and the index
/// just after the value.
fn parse_member_at(s: &[u8], i: usize) -> (r: Option<(Vec<u8>, Vec<u8>, usize)>)
    requires
        i <= s.len(),
    ensures
        r is Some ==> ({
            let (kv, vv, e) = r->0;
            spec_parse_member(s@, i as int) == Some(((kv@, vv@), e as int)) && i <= e <= s.len()
        }),
        r is None ==> spec_parse_member(s@, i as int) is None,
{
    let b = skip_ws_at(s, i);
    let mut key: Vec<u8> = Vec::new();
    let c = match parse_quoted_at(s, b, &mut key) {
        Some(c) => c,
        None => {
            return None;
        },
    };
    let d = skip_ws_at(s, c);
    if d >= s.len() || s[d] != 0x3A {
        return None;
    }
    let e = skip_ws_at(s, d + 1);
    let mut value: Vec<u8> = Vec::new();
    let f = match parse_quoted_at(s, e, &mut value) {
        Some(f) => f,
        None => {
            return None;
        },
    };
    Some((key, value, f))
}

/// Whether parsed key bytes are exactly `name`.
fn is_name_key(k: &Vec<u8>) -> (b: bool)
    ensures
        b == (k@ == name_key()),
{
    let b = k.len() == 4 && k[0] == 0x6E && k[1] == 0x61 && k[2] == 0x6D && k[3] == 0x65;
    proof {
        if b {
            assert(k@ =~= name_key());
        } else {
            if k@ == name_key() {
                assert(k@.len() == 4);
                assert(k@[0] == 0x6E && k@[1] == 0x61 && k@[2] == 0x6D && k@[3] == 0x65);
            }
        }
    }
    b
}

/// Whether parsed key bytes are exactly `address`.
fn is_address_key(k: &Vec<u8>) -> (b: bool)
    ensures
        b == (k@ == address_key()),
{
    let b = k.len() == 7 && k[0] == 0x61 && k[1] == 0x64 && k[2] == 0x64 && k[3] == 0x72 && k[4]
        == 0x65 && k[5] == 0x73 && k[6] == 0x73;
    proof {
        if b {
            assert(k@ =~= address_key());
        } else {
            if k@ == address_key() {
                assert(k@.len() == 7);
                assert(k@[0] == 0x61 && k@[1] == 0x64 && k@[2] == 0x64 && k@[3] == 0x72 && k@[4]
                    == 0x65 && k@[5] == 0x73 && k@[6] == 0x73);
            }
        }
    }
    b
}

/// Parse one record at `i`: its name and address contents and the index just
/// after the closing brace.
fn parse_record_at(s: &[u8], i: usize) -> (r: Option<(Vec<u8>, Vec<u8>, usize)>)
    requires
        i <= s.len(),
    ensures
        r is Some ==> ({
            let (nv, av, e) = r->0;
            spec_parse_record(s@, i as int) == Some(((nv@, av@), e as int)) && i <= e <= s.len()
        }),
        r is None ==> spec_parse_record(s@, i as int) is None,
{
    let a = skip_ws_at(s, i);
    if a >= s.len() || s[a] != 0x7B {
        return None;
    }
    let m1 = match parse_member_at(s, a + 1) {
        Some(m) => m,
        None => {
            return None;
        },
    };
    let g = skip_ws_at(s, m1.2);
    if g >= s.len() || s[g] != 0x2C {
        return None;
    }
    let m2 = match parse_member_at(s, g + 1) {
        Some(m) => m,
        None => {
            return None;
        },
    };
    let w = skip_ws_at(s, m2.2);
    if w >= s.len() || s[w] != 0x7D {
        return None;
    }
    if is_name_key(&m1.0) && is_address_key(&m2.0) {
        Some((m1.1, m2.1, w + 1))
    } else if is_address_key(&m1.0) && is_name_key(&m2.0) {
        Some((m2.1, m1.1, w + 1))
    } else {
        None
    }
}

/// The byte contents of each parsed record pair.
pub open spec fn pairs_view(v: Seq<(Vec<u8>, Vec<u8>)>) -> Seq<(Seq<u8>, Seq<u8>)> {
    v.map_values(|p: (Vec<u8>, Vec<u8>)| (p.0@, p.1@))
}

/// Parse a whole cache file into raw record contents.
fn parse_devices_bytes(s: &[u8]) -> (r: Option<Vec<(Vec<u8>, Vec<u8>)>>)
    ensures
        r is Some ==> spec_parse_devices(s@) == Some(pairs_view(r->0@)),
        r is None ==> spec_parse_devices(s@) is None,
{
    let a = skip_ws_at(s, 0);
    if a >= s.len() || s[a] != 0x5B {
        return None;
    }
    let b = skip_ws_at(s, a + 1);
    if b < s.len() && s[b] == 0x5D {
        let c = skip_ws_at(s, b + 1);
        if c == s.len() {
            let empty: Vec<(Vec<u8>, Vec<u8>)> = Vec::new();
            assert(pairs_view(empty@) =~= Seq::<(Seq<u8>, Seq<u8>)>::empty());
            return Some(empty);
        } else {
            return None;
        }
    }
    let ghost a0: int = a as int + 1;
    let mut acc: Vec<(Vec<u8>, Vec<u8>)> = Vec::new();
    let mut p: usize = a + 1;
    loop
        invariant
            a as int + 1 <= p as int <= s.len(),
            a0 == a as int + 1,
            a as int == spec_skip_ws(s@, 0),
            (a as int) < s.len() && s@[a as int] == 0x5B,
            !(spec_skip_ws(s@, a0) < s.len() && s@[spec_skip_ws(s@, a0)] == 0x5D),
            match spec_parse_records(s@, p as int) {
                Some((l, k)) => spec_parse_records(s@, a0) == Some((pairs_view(acc@) + l, k)),
                None => spec_parse_records(s@, a0) is None,
            },
        decreases s.len() - p,
    {
        let rec = match parse_record_at(s, p) {
            Some(m) => m,
            None => {
                return None;
            },
        };
        let g = skip_ws_at(s, rec.2);
        let ghost accv = pairs_view(acc@);
        let ghost recv = (rec.0@, rec.1@);
        if g < s.len() && s[g] == 0x2C {
            acc.push((rec.0, rec.1));
            proof {
                assert(pairs_view(acc@) =~= accv.push(recv));
                match spec_parse_records(s@, g as int + 1) {
                    Some((l, k)) => {
                        assert(spec_parse_records(s@, p as int) == Some((seq![recv] + l, k)));
                        assert(accv + (seq![recv] + l) =~= accv.push(recv) + l);
                    },
                    None => {
                        assert(spec_parse_records(s@, p as int) is None);
                    },
                }
            }
            p = g + 1;
        } else if g < s.len() && s[g] == 0x5D {
            acc.push((rec.0, rec.1));
            proof {
                assert(pairs_view(acc@) =~= accv.push(recv));
                assert(spec_parse_records(s@, p as int) == Some((seq![recv], g as int + 1)));
                assert(accv + seq![recv] =~= accv.push(recv));
            }
            let c = skip_ws_at(s, g + 1);
            if c == s.len() {
                return Some(acc);
            } else {
                return None;
            }
        } else {
            return None;
        }
    }
}

/// Relies on `String::from_utf8`: it returns `Ok` exactly when the bytes are
/// valid UTF-8, and the returned string is backed by those very bytes.
#[verifier::external_body]
fn string_from_utf8(v: &Vec<u8>) -> (r: Option<String>)
    ensures
        r is Some <==> valid_utf8(v@),
        r is Some ==> encode_utf8(r->0@) == v@,
{
    String::from_utf8(v.clone()).ok()
}

/// Read a device list back from cache file bytes. A missing file (`None`)
/// is an empty list, not an error; bytes that do not hold a well-formed
/// record array, or strings that are not valid UTF-8, are errors.
pub fn load_devices(content: Option<&[u8]>) -> (r: Result<Vec<DeviceInfo>, CacheError>)
    ensures
        content is None ==> r is Ok && device_views(r->Ok_0@) == Seq::<DeviceView>::empty(),
        content is Some ==> match spec_load_devices(content->0@) {
            Ok(dv) => r is Ok && device_views(r->Ok_0@) == dv,
            Err(e) => r is Err && r->Err_0 == e,
        },
{
    let bytes = match content {
        None => {
            let empty: Vec<DeviceInfo> = Vec::new();
            assert(device_views(empty@) =~= Seq::<DeviceView>::empty());
            return Ok(empty);
        },
        Some(b) => b,
    };
    assert(content == Some(bytes));
    let pairs = match parse_devices_bytes(bytes) {
        None => {
            return Err(CacheError::Malformed);
        },
        Some(p) => p,
    };
    let ghost pv = pairs_view(pairs@);
    let mut out: Vec<DeviceInfo> = Vec::new();
    let mut i: usize = 0;
    while i < pairs.len()
        invariant
            i <= pairs.len(),
            content == Some(bytes),
            pv == pairs_view(pairs@),
            pv.len() == pairs.len(),
            spec_parse_devices(bytes@) == Some(pv),
            out@.len() == i,
            forall|k: int| 0 <= k < i ==> valid_utf8(#[trigger] pv[k].0) && valid_utf8(pv[k].1),
            device_views(out@) == decode_pairs(pv.take(i as int)),
        decreases pairs.len() - i,
    {
        assert(pv[i as int] == (pairs@[i as int].0@, pairs@[i as int].1@));
        let name = match string_from_utf8(&pairs[i].0) {
            None => {
                assert(!valid_utf8(pv[i as int].0));
                assert(!pairs_utf8_valid(pv));
                return Err(CacheError::InvalidUtf8);
            },
            Some(n) => n,
        };
        let address = match string_from_utf8(&pairs[i].1) {
            None => {
                assert(!valid_utf8(pv[i as int].1));
                assert(!pairs_utf8_valid(pv));
                return Err(CacheError::InvalidUtf8);
            },
            Some(a) => a,
        };
        proof {
            encode_utf8_decode_utf8(name@);
            encode_utf8_decode_utf8(address@);
            assert(decode_utf8(pv[i as int].0) == name@);
            assert(decode_utf8(pv[i as int].1) == address@);
            assert(valid_utf8(pv[i as int].0) && valid_utf8(pv[i as int].1));
        }
        let ghost out_pre = out@;
        out.push(DeviceInfo { name, address });
        proof {
            assert(out@.len() == out_pre.len() + 1);
            assert(device_views(out@).len() == i + 1);
            assert(decode_pairs(pv.take(i as int + 1)).len() == i + 1);
            assert forall|k: int| 0 <= k < i + 1 implies device_views(out@)[k] == decode_pairs(
                pv.take(i as int + 1),
            )[k] by {
                if k < i {
                    assert(device_views(out@)[k] == out@[k]@);
                    assert(out@[k] == out_pre[k]);
                    assert(device_views(out_pre)[k] == decode_pairs(pv.take(i as int))[k]);
                    assert(decode_pairs(pv.take(i as int))[k] == decode_pairs(
                        pv.take(i as int + 1),
                    )[k]);
                } else {
                    assert(device_views(out@)[k] == DeviceView {
                        name: name@,
                        address: address@,
                    });
                    assert(decode_pairs(pv.take(i as int + 1))[k] == DeviceView {
                        name: decode_utf8(pv[i as int].0),
                        address: decode_utf8(pv[i as int].1),
                    });
                }
            }
            assert(device_views(out@) =~= decode_pairs(pv.take(i as int + 1)));
            assert forall|k: int| 0 <= k < i + 1 implies valid_utf8(#[trigger] pv[k].0)
                && valid_utf8(pv[k].1) by {
                if k == i as int {
                    assert(valid_utf8(pv[k].0) && valid_utf8(pv[k].1));
                }
            }
        }
        i += 1;
    }
    proof {
        assert(pv.take(pv.len() as int) =~= pv);
        assert forall|k: int| 0 <= k < pv.len() implies valid_utf8(#[trigger] pv[k].0)
            && valid_utf8(pv[k].1) by {}
        assert(pairs_utf8_valid(pv));
    }
    Ok(out)
}

} // verus!