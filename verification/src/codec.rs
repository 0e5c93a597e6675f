//! Primitive wire encodings: base-128 varints, zigzag signed integers, and
//! length-prefixed byte strings.  Every envelope encoding is built from these.
//!
//! The encoding of a value is given by a spec function; the writer appends
//! exactly those bytes, and the reader accepts exactly the encodings: it
//! returns `Some` if and only if the input starts with the encoding of some
//! value, and then returns that value.  This makes every composite decoder
//! both sound (whatever it accepts re-encodes to the input) and complete
//! (whatever was encoded is decoded back unchanged).

use vstd::prelude::*;

verus! {

/// Little-endian base-128 encoding; every byte but the last has the high bit
/// set, and the last group is never zero, so each value has exactly one
/// encoding.
pub open spec fn enc_u64(v: u64) -> Seq<u8>
    decreases v,
{
    if v < 128 {
        seq![v as u8]
    } else {
        seq![(128 + (v % 128)) as u8] + enc_u64(v / 128)
    }
}

pub proof fn lemma_enc_u64_len(v: u64)
    ensures
        1 <= enc_u64(v).len(),
    decreases v,
{
    if v >= 128 {
        lemma_enc_u64_len(v / 128);
    }
}

/// Maps a signed value onto an unsigned one, small magnitudes first.
pub open spec fn zigzag(v: i64) -> u64 {
    if v >= 0 {
        (2 * v) as u64
    } else {
        (-(2 * v) - 1) as u64
    }
}

pub proof fn lemma_zigzag_injective(a: i64, b: i64)
    ensures
        zigzag(a) == zigzag(b) ==> a == b,
{
}

pub open spec fn enc_i64(v: i64) -> Seq<u8> {
    enc_u64(zigzag(v))
}

/// Length prefix followed by the raw bytes.
pub open spec fn enc_byte_str(s: Seq<u8>) -> Seq<u8> {
    enc_u64(s.len() as u64) + s
}

pub fn write_u64(out: &mut Vec<u8>, v: u64)
    ensures
        final(out)@ == old(out)@ + enc_u64(v),
    decreases v,
{
    if v < 128 {
        out.push(v as u8);
        assert(final(out)@ =~= old(out)@ + enc_u64(v));
    } else {
        let b: u8 = 128 + (v % 128) as u8;
        out.push(b);
        write_u64(out, v / 128);
        assert(final(out)@ =~= old(out)@ + enc_u64(v));
    }
}

pub fn zigzag_enc(v: i64) -> (r: u64)
    ensures
        r == zigzag(v),
{
    if v >= 0 {
        (v as u64) * 2
    } else {
        (-(v + 1)) as u64 * 2 + 1
    }
}

pub fn zigzag_dec(u: u64) -> (r: i64)
    ensures
        zigzag(r) == u,
{
    if u % 2 == 0 {
        (u / 2) as i64
    } else {
        -((u / 2) as i64) - 1
    }
}

pub fn write_i64(out: &mut Vec<u8>, v: i64)
    ensures
        final(out)@ == old(out)@ + enc_i64(v),
{
    let z = zigzag_enc(v);
    write_u64(out, z);
}

pub fn write_byte_str(out: &mut Vec<u8>, s: &Vec<u8>)
    ensures
        final(out)@ == old(out)@ + enc_byte_str(s@),
{
    write_u64(out, s.len() as u64);
    let mut i: usize = 0;
    while i < s.len()
        invariant
            i <= s@.len(),
            s@.len() <= u64::MAX,
            out@ == old(out)@ + enc_u64(s@.len() as u64) + s@.take(i as int),
        decreases s@.len() - i,
    {
        out.push(s[i]);
        assert(s@.take(i + 1) =~= s@.take(i as int) + seq![s@[i as int]]);
        i = i + 1;
    }
    assert(s@.take(s@.len() as int) =~= s@);
    assert(final(out)@ =~= old(out)@ + enc_byte_str(s@));
}

/// Reads one varint starting at `pos`.  Accepts exactly the byte strings that
/// start with `enc_u64` of some value.
pub fn read_u64(buf: &[u8], pos: usize) -> (r: Option<(u64, usize)>)
    requires
        pos <= buf@.len(),
    ensures
        (r matches Some(p) ==> pos < p.1 <= buf@.len() && buf@.skip(pos as int) == enc_u64(p.0)
            + buf@.skip(p.1 as int)),
        forall|v: u64, rest: Seq<u8>|
            buf@.skip(pos as int) == enc_u64(v) + rest ==> (r matches Some(p) && p.0 == v
                && buf@.skip(p.1 as int) == rest),
    decreases buf@.len() - pos,
{
    if pos == buf.len() {
        assert(buf@.skip(pos as int).len() == 0);
        assert forall|v: u64, rest: Seq<u8>| (#[trigger] (enc_u64(v) + rest)).len() >= 1 by {
            lemma_enc_u64_len(v);
        }
        return None;
    }
    let b = *vstd::slice::slice_index_get(buf, pos);
    assert(buf@.skip(pos as int) =~= seq![buf@[pos as int]] + buf@.skip(pos + 1));
    if b < 128 {
        assert(buf@.skip(pos as int) == enc_u64(b as u64) + buf@.skip(pos + 1));
        assert(forall|v: u64, rest: Seq<u8>|
            buf@.skip(pos as int) == enc_u64(v) + rest ==> v == b as u64 && rest == buf@.skip(
                pos + 1,
            )) by {
            assert forall|v: u64, rest: Seq<u8>|
                buf@.skip(pos as int) == enc_u64(v) + rest implies v == b as u64 && rest
                == buf@.skip(pos + 1) by {
                if v < 128 {
                    assert((enc_u64(v) + rest)[0] == v as u8);
                    assert(rest =~= buf@.skip(pos as int).skip(1));
                    assert(buf@.skip(pos as int).skip(1) =~= buf@.skip(pos + 1));
                } else {
                    assert((enc_u64(v) + rest)[0] == (128 + (v % 128)) as u8);
                }
            }
        }
        Some((b as u64, pos + 1))
    } else {
        let low: u64 = (b - 128) as u64;
        match read_u64(buf, pos + 1) {
            None => {
                assert forall|v: u64, rest: Seq<u8>|
                    buf@.skip(pos as int) != enc_u64(v) + rest by {
                    if buf@.skip(pos as int) == enc_u64(v) + rest {
                        assert(v >= 128) by {
                            if v < 128 {
                                assert((enc_u64(v) + rest)[0] == v as u8);
                            }
                        }
                        assert(buf@.skip(pos + 1) =~= buf@.skip(pos as int).skip(1));
                        assert(enc_u64(v) + rest =~= seq![(128 + (v % 128)) as u8] + (enc_u64(
                            v / 128,
                        ) + rest));
                        assert((enc_u64(v) + rest).skip(1) =~= enc_u64(v / 128) + rest);
                        assert(buf@.skip(pos + 1) == enc_u64(v / 128) + rest);
                    }
                }
                None
            },
            Some((hi, p2)) => {
                if hi == 0 || hi > (u64::MAX - low) / 128 {
                    assert forall|v: u64, rest: Seq<u8>|
                        buf@.skip(pos as int) != enc_u64(v) + rest by {
                        if buf@.skip(pos as int) == enc_u64(v) + rest {
                            assert(v >= 128) by {
                                if v < 128 {
                                    assert((enc_u64(v) + rest)[0] == v as u8);
                                }
                            }
                            assert((enc_u64(v) + rest)[0] == (128 + (v % 128)) as u8);
                            assert(buf@.skip(pos + 1) =~= buf@.skip(pos as int).skip(1));
                            assert((enc_u64(v) + rest).skip(1) =~= enc_u64(v / 128) + rest);
                            assert(hi == v / 128 && low == v % 128);
                            assert(v / 128 >= 1);
                            assert(128 * (v / 128) + v % 128 == v) by (nonlinear_arith);
                            assert(v / 128 <= (u64::MAX - low) / 128) by (nonlinear_arith)
                                requires
                                    128 * (v / 128) + low == v,
                                    v <= u64::MAX,
                            ;
                        }
                    }
                    None
                } else {
                    proof {
                        assert(128 * hi <= u64::MAX - low) by (nonlinear_arith)
                            requires
                                hi <= (u64::MAX - low) / 128,
                                low < 128,
                        ;
                    }
                    let w: u64 = low + 128 * hi;
                    proof {
                        assert(w % 128 == low && w / 128 == hi) by (nonlinear_arith)
                            requires
                                w == low + 128 * hi,
                                low < 128,
                                hi >= 0,
                        ;
                        assert(w >= 128) by (nonlinear_arith)
                            requires
                                w == low + 128 * hi,
                                hi >= 1,
                        ;
                        assert(enc_u64(w) =~= seq![(128 + low) as u8] + enc_u64(hi));
                        assert(buf@.skip(pos as int) =~= enc_u64(w) + buf@.skip(p2 as int));
                        assert forall|v: u64, rest: Seq<u8>|
                            buf@.skip(pos as int) == enc_u64(v) + rest implies v == w && rest
                            == buf@.skip(p2 as int) by {
                            assert(v >= 128) by {
                                if v < 128 {
                                    assert((enc_u64(v) + rest)[0] == v as u8);
                                }
                            }
                            assert((enc_u64(v) + rest)[0] == (128 + (v % 128)) as u8);
                            assert(buf@.skip(pos + 1) =~= buf@.skip(pos as int).skip(1));
                            assert((enc_u64(v) + rest).skip(1) =~= enc_u64(v / 128) + rest);
                            assert(buf@.skip(pos + 1) == enc_u64(v / 128) + rest);
                            assert(hi == v / 128 && low == v % 128 && rest == buf@.skip(p2 as int));
                            assert(v == 128 * (v / 128) + v % 128) by (nonlinear_arith);
                        }
                    }
                    Some((w, p2))
                }
            },
        }
    }
}

/// Reads one zigzag-encoded signed value.
pub fn read_i64(buf: &[u8], pos: usize) -> (r: Option<(i64, usize)>)
    requires
        pos <= buf@.len(),
    ensures
        (r matches Some(p) ==> pos < p.1 <= buf@.len() && buf@.skip(pos as int) == enc_i64(p.0)
            + buf@.skip(p.1 as int)),
        forall|v: i64, rest: Seq<u8>|
            buf@.skip(pos as int) == enc_i64(v) + rest ==> (r matches Some(p) && p.0 == v
                && buf@.skip(p.1 as int) == rest),
{
    match read_u64(buf, pos) {
        None => None,
        Some((u, p2)) => {
            let v = zigzag_dec(u);
            proof {
                assert forall|w: i64, rest: Seq<u8>|
                    buf@.skip(pos as int) == enc_i64(w) + rest implies v == w && rest == buf@.skip(
                    p2 as int,
                ) by {
                    lemma_zigzag_injective(v, w);
                }
            }
            Some((v, p2))
        },
    }
}

/// Reads one length-prefixed byte string.
pub fn read_byte_str(buf: &[u8], pos: usize) -> (r: Option<(Vec<u8>, usize)>)
    requires
        pos <= buf@.len(),
    ensures
        (r matches Some(p) ==> pos < p.1 <= buf@.len() && buf@.skip(pos as int) == enc_byte_str(
            p.0@,
        ) + buf@.skip(p.1 as int)),
        forall|s: Seq<u8>, rest: Seq<u8>|
            #[trigger] (enc_byte_str(s) + rest) == buf@.skip(pos as int) ==> (r matches Some(p)
                && p.0@ == s && buf@.skip(p.1 as int) == rest),
{
    match read_u64(buf, pos) {
        None => {
            proof {
                assert forall|s: Seq<u8>, rest: Seq<u8>|
                    #[trigger] (enc_byte_str(s) + rest) != buf@.skip(pos as int) by {
                    if enc_byte_str(s) + rest == buf@.skip(pos as int) {
                        assert(enc_byte_str(s) + rest =~= enc_u64(s.len() as u64) + (s + rest));
                    }
                }
            }
            None
        },
        Some((n, p2)) => {
            if n > (buf.len() - p2) as u64 {
                proof {
                    assert forall|s: Seq<u8>, rest: Seq<u8>|
                        #[trigger] (enc_byte_str(s) + rest) != buf@.skip(pos as int) by {
                        if enc_byte_str(s) + rest == buf@.skip(pos as int) {
                            assert(enc_byte_str(s) + rest =~= enc_u64(s.len() as u64) + (s + rest));
                            assert(buf@.skip(p2 as int) == s + rest);
                            assert(s.len() <= buf@.len() - p2);
                        }
                    }
                }
                None
            } else {
                let nn = n as usize;
                let part = vstd::slice::slice_subrange(buf, p2, p2 + nn);
                let v = vstd::slice::slice_to_vec(part);
                proof {
                    assert(v@ =~= buf@.skip(p2 as int).take(n as int));
                    assert(buf@.skip(pos as int) =~= enc_byte_str(v@) + buf@.skip(p2 + n));
                    assert forall|s: Seq<u8>, rest: Seq<u8>|
                        #[trigger] (enc_byte_str(s) + rest) == buf@.skip(pos as int) implies v@ == s
                        && buf@.skip(p2 + nn) == rest by {
                        assert(enc_byte_str(s) + rest =~= enc_u64(s.len() as u64) + (s + rest));
                        assert(buf@.skip(p2 as int) == s + rest);
                        assert(s.len() as u64 == n);
                        assert(s =~= buf@.skip(p2 as int).take(n as int));
                        assert(rest =~= buf@.skip(p2 as int).skip(n as int));
                        assert(buf@.skip(p2 as int).skip(n as int) =~= buf@.skip(p2 + nn));
                    }
                }
                Some((v, p2 + nn))
            }
        },
    }
}

} // verus!
