//! The self-delimiting wire encoding, organised as a pair of traits.
//!
//! `WireEnc` gives a type its encoding (a spec function) and a writer that
//! appends exactly those bytes.  `Wire` adds a reader whose contract makes it
//! sound (anything accepted is the encoding of the returned value) and
//! complete (any input that starts with the encoding of a value yields that
//! value).  Lists and options are encoded generically over these traits.

use vstd::prelude::*;
use crate::codec::{enc_byte_str, enc_i64, enc_u64, read_byte_str, read_i64, read_u64,
    write_byte_str, write_i64, write_u64};

verus! {

pub trait WireEnc: Sized {
    /// The bytes that stand for `self` on the wire.
    spec fn enc(&self) -> Seq<u8>;

    /// Appends exactly `self.enc()` to `out`.
    fn write(&self, out: &mut Vec<u8>)
        ensures
            final(out)@ == old(out)@ + self.enc(),
    ;
}

pub trait Wire: WireEnc {
    /// Reads one value starting at `pos`.  Sound: whatever is accepted
    /// re-encodes to exactly the consumed bytes.  Complete: an input that
    /// starts with the encoding of a value is accepted, consumes exactly that
    /// encoding, and yields a value with the same encoding.
    fn read(buf: &[u8], pos: usize) -> (r: Option<(Self, usize)>)
        requires
            pos <= buf@.len(),
        ensures
            (r matches Some(p) ==> pos <= p.1 <= buf@.len() && buf@.skip(pos as int) == p.0.enc()
                + buf@.skip(p.1 as int)),
            forall|v: Self, rest: Seq<u8>|
                #[trigger] (v.enc() + rest) == buf@.skip(pos as int) ==> (r matches Some(p)
                    && p.0.enc() == v.enc() && buf@.skip(p.1 as int) == rest),
    ;
}

impl WireEnc for Vec<u8> {
    open spec fn enc(&self) -> Seq<u8> {
        enc_byte_str(self@)
    }

    fn write(&self, out: &mut Vec<u8>) {
        write_byte_str(out, self);
    }
}

impl Wire for Vec<u8> {
    fn read(buf: &[u8], pos: usize) -> (r: Option<(Self, usize)>) {
        read_byte_str(buf, pos)
    }
}

impl WireEnc for u64 {
    open spec fn enc(&self) -> Seq<u8> {
        enc_u64(*self)
    }

    fn write(&self, out: &mut Vec<u8>) {
        write_u64(out, *self);
    }
}

impl Wire for u64 {
    fn read(buf: &[u8], pos: usize) -> (r: Option<(Self, usize)>) {
        read_u64(buf, pos)
    }
}

impl WireEnc for i64 {
    open spec fn enc(&self) -> Seq<u8> {
        enc_i64(*self)
    }

    fn write(&self, out: &mut Vec<u8>) {
        write_i64(out, *self);
    }
}

impl Wire for i64 {
    fn read(buf: &[u8], pos: usize) -> (r: Option<(Self, usize)>) {
        read_i64(buf, pos)
    }
}

impl WireEnc for u32 {
    open spec fn enc(&self) -> Seq<u8> {
        enc_u64(*self as u64)
    }

    fn write(&self, out: &mut Vec<u8>) {
        write_u64(out, *self as u64);
    }
}

impl Wire for u32 {
    fn read(buf: &[u8], pos: usize) -> (r: Option<(Self, usize)>) {
        match read_u64(buf, pos) {
            Some((v, p2)) if v <= u32::MAX as u64 => Some((v as u32, p2)),
            _ => None,
        }
    }
}

impl WireEnc for u16 {
    open spec fn enc(&self) -> Seq<u8> {
        enc_u64(*self as u64)
    }

    fn write(&self, out: &mut Vec<u8>) {
        write_u64(out, *self as u64);
    }
}

impl Wire for u16 {
    fn read(buf: &[u8], pos: usize) -> (r: Option<(Self, usize)>) {
        match read_u64(buf, pos) {
            Some((v, p2)) if v <= u16::MAX as u64 => Some((v as u16, p2)),
            _ => None,
        }
    }
}

impl WireEnc for u8 {
    open spec fn enc(&self) -> Seq<u8> {
        enc_u64(*self as u64)
    }

    fn write(&self, out: &mut Vec<u8>) {
        write_u64(out, *self as u64);
    }
}

impl Wire for u8 {
    fn read(buf: &[u8], pos: usize) -> (r: Option<(Self, usize)>) {
        match read_u64(buf, pos) {
            Some((v, p2)) if v <= u8::MAX as u64 => Some((v as u8, p2)),
            _ => None,
        }
    }
}

impl WireEnc for i32 {
    open spec fn enc(&self) -> Seq<u8> {
        enc_i64(*self as i64)
    }

    fn write(&self, out: &mut Vec<u8>) {
        write_i64(out, *self as i64);
    }
}

impl Wire for i32 {
    fn read(buf: &[u8], pos: usize) -> (r: Option<(Self, usize)>) {
        match read_i64(buf, pos) {
            Some((v, p2)) if i32::MIN as i64 <= v && v <= i32::MAX as i64 => Some((
                v as i32,
                p2,
            )),
            _ => None,
        }
    }
}

impl WireEnc for bool {
    open spec fn enc(&self) -> Seq<u8> {
        enc_u64(if *self { 1u64 } else { 0u64 })
    }

    fn write(&self, out: &mut Vec<u8>) {
        write_u64(out, if *self { 1u64 } else { 0u64 });
    }
}

impl Wire for bool {
    fn read(buf: &[u8], pos: usize) -> (r: Option<(Self, usize)>) {
        match read_u64(buf, pos) {
            Some((0u64, p2)) => Some((false, p2)),
            Some((1u64, p2)) => Some((true, p2)),
            _ => None,
        }
    }
}

/// The concatenated encodings of the elements, in order, without a count.
pub open spec fn enc_items<T: WireEnc>(l: Seq<T>) -> Seq<u8>
    decreases l.len(),
{
    if l.len() == 0 {
        Seq::empty()
    } else {
        l[0].enc() + enc_items(l.drop_first())
    }
}

/// An element count followed by the elements.
pub open spec fn enc_list<T: WireEnc>(l: Seq<T>) -> Seq<u8> {
    enc_u64(l.len() as u64) + enc_items(l)
}

fn write_items<T: WireEnc>(out: &mut Vec<u8>, l: &Vec<T>, i: usize)
    requires
        i <= l@.len(),
    ensures
        final(out)@ == old(out)@ + enc_items(l@.skip(i as int)),
    decreases l@.len() - i,
{
    if i == l.len() {
        assert(final(out)@ =~= old(out)@ + enc_items(l@.skip(i as int)));
    } else {
        l[i].write(out);
        write_items(out, l, i + 1);
        proof {
            assert(l@.skip(i as int)[0] == l@[i as int]);
            assert(l@.skip(i as int).drop_first() =~= l@.skip(i + 1));
            assert(final(out)@ =~= old(out)@ + enc_items(l@.skip(i as int)));
        }
    }
}

pub fn write_list<T: WireEnc>(out: &mut Vec<u8>, l: &Vec<T>)
    ensures
        final(out)@ == old(out)@ + enc_list(l@),
{
    write_u64(out, l.len() as u64);
    write_items(out, l, 0);
    assert(l@.skip(0) =~= l@);
    assert(final(out)@ =~= old(out)@ + enc_list(l@));
}

fn read_items<T: Wire>(buf: &[u8], pos: usize, n: u64) -> (r: Option<(Vec<T>, usize)>)
    requires
        pos <= buf@.len(),
    ensures
        (r matches Some(p) ==> pos <= p.1 <= buf@.len() && p.0@.len() == n && buf@.skip(
            pos as int,
        ) == enc_items(p.0@) + buf@.skip(p.1 as int)),
        forall|l: Seq<T>, rest: Seq<u8>|
            l.len() == n && #[trigger] (enc_items(l) + rest) == buf@.skip(pos as int) ==> (
            r matches Some(p) && enc_items(p.0@) == enc_items(l) && buf@.skip(p.1 as int)
                == rest),
    decreases n,
{
    if n == 0 {
        let v: Vec<T> = Vec::new();
        proof {
            assert(buf@.skip(pos as int) =~= enc_items(v@) + buf@.skip(pos as int));
            assert forall|l: Seq<T>, rest: Seq<u8>|
                l.len() == 0 && #[trigger] (enc_items(l) + rest) == buf@.skip(pos as int)
                implies enc_items(v@) == enc_items(l) && buf@.skip(pos as int) == rest by {
                assert(enc_items(v@) =~= enc_items(l));
                assert(rest =~= buf@.skip(pos as int));
            }
        }
        Some((v, pos))
    } else {
        match T::read(buf, pos) {
            None => {
                proof {
                    assert forall|l: Seq<T>, rest: Seq<u8>|
                        !(l.len() == n && #[trigger] (enc_items(l) + rest) == buf@.skip(
                            pos as int,
                        )) by {
                        if l.len() == n && enc_items(l) + rest == buf@.skip(pos as int) {
                            assert(enc_items(l) + rest =~= l[0].enc() + (enc_items(l.drop_first())
                                + rest));
                        }
                    }
                }
                None
            },
            Some((x, p1)) => {
                match read_items::<T>(buf, p1, n - 1) {
                    None => {
                        proof {
                            assert forall|l: Seq<T>, rest: Seq<u8>|
                                !(l.len() == n && #[trigger] (enc_items(l) + rest) == buf@.skip(
                                    pos as int,
                                )) by {
                                if l.len() == n && enc_items(l) + rest == buf@.skip(pos as int) {
                                    assert(enc_items(l) + rest =~= l[0].enc() + (enc_items(
                                        l.drop_first(),
                                    ) + rest));
                                    assert(buf@.skip(p1 as int) == enc_items(l.drop_first())
                                        + rest);
                                }
                            }
                        }
                        None
                    },
                    Some((mut tail, p2)) => {
                        let ghost tail0 = tail@;
                        tail.insert(0, x);
                        proof {
                            assert(tail@.drop_first() =~= tail0);
                            assert(tail@[0] == x);
                            assert(buf@.skip(pos as int) =~= enc_items(tail@) + buf@.skip(
                                p2 as int,
                            ));
                            assert forall|l: Seq<T>, rest: Seq<u8>|
                                l.len() == n && #[trigger] (enc_items(l) + rest) == buf@.skip(
                                    pos as int,
                                ) implies enc_items(tail@) == enc_items(l) && buf@.skip(p2 as int)
                                == rest by {
                                assert(enc_items(l) + rest =~= l[0].enc() + (enc_items(
                                    l.drop_first(),
                                ) + rest));
                                assert(buf@.skip(p1 as int) == enc_items(l.drop_first()) + rest);
                                assert(enc_items(tail@) =~= x.enc() + enc_items(tail0));
                                assert(enc_items(tail@) =~= enc_items(l));
                            }
                        }
                        Some((tail, p2))
                    },
                }
            },
        }
    }
}

pub fn read_list<T: Wire>(buf: &[u8], pos: usize) -> (r: Option<(Vec<T>, usize)>)
    requires
        pos <= buf@.len(),
    ensures
        (r matches Some(p) ==> pos <= p.1 <= buf@.len() && buf@.skip(pos as int) == enc_list(p.0@)
            + buf@.skip(p.1 as int)),
        forall|l: Seq<T>, rest: Seq<u8>|
            l.len() <= u64::MAX && #[trigger] (enc_list(l) + rest) == buf@.skip(pos as int) ==> (
            r matches Some(p) && enc_list(p.0@) == enc_list(l) && buf@.skip(p.1 as int) == rest),
{
    proof {
        assert forall|l: Seq<T>, rest: Seq<u8>|
            #[trigger] (enc_list(l) + rest) == buf@.skip(pos as int) implies enc_u64(
            l.len() as u64,
        ) + (enc_items(l) + rest) == buf@.skip(pos as int) by {
            assert(enc_list(l) + rest =~= enc_u64(l.len() as u64) + (enc_items(l) + rest));
        }
    }
    match read_u64(buf, pos) {
        None => None,
        Some((n, p1)) => {
            match read_items::<T>(buf, p1, n) {
                None => {
                    proof {
                        assert forall|l: Seq<T>, rest: Seq<u8>|
                            !(l.len() <= u64::MAX && #[trigger] (enc_list(l) + rest) == buf@.skip(
                                pos as int,
                            )) by {
                            if l.len() <= u64::MAX && enc_list(l) + rest == buf@.skip(pos as int) {
                                assert(l.len() as u64 == n);
                                assert(buf@.skip(p1 as int) == enc_items(l) + rest);
                            }
                        }
                    }
                    None
                },
                Some((v, p2)) => {
                    proof {
                        assert(buf@.skip(pos as int) =~= enc_list(v@) + buf@.skip(p2 as int));
                        assert forall|l: Seq<T>, rest: Seq<u8>|
                            l.len() <= u64::MAX && #[trigger] (enc_list(l) + rest) == buf@.skip(
                                pos as int,
                            ) implies enc_list(v@) == enc_list(l) && buf@.skip(p2 as int)
                            == rest by {
                            assert(l.len() as u64 == n);
                            assert(buf@.skip(p1 as int) == enc_items(l) + rest);
                            assert(enc_list(v@) =~= enc_list(l));
                        }
                    }
                    Some((v, p2))
                },
            }
        },
    }
}

fn read_i64_items(buf: &[u8], pos: usize, n: u64) -> (r: Option<(Vec<i64>, usize)>)
    requires
        pos <= buf@.len(),
    ensures
        (r matches Some(p) ==> pos <= p.1 <= buf@.len() && p.0@.len() == n && buf@.skip(
            pos as int,
        ) == enc_items(p.0@) + buf@.skip(p.1 as int)),
        forall|l: Seq<i64>, rest: Seq<u8>|
            l.len() == n && #[trigger] (enc_items(l) + rest) == buf@.skip(pos as int) ==> (
            r matches Some(p) && p.0@ == l && buf@.skip(p.1 as int) == rest),
    decreases n,
{
    if n == 0 {
        let v: Vec<i64> = Vec::new();
        proof {
            assert(buf@.skip(pos as int) =~= enc_items(v@) + buf@.skip(pos as int));
            assert forall|l: Seq<i64>, rest: Seq<u8>|
                l.len() == 0 && #[trigger] (enc_items(l) + rest) == buf@.skip(pos as int)
                implies v@ == l && buf@.skip(pos as int) == rest by {
                assert(v@ =~= l);
                assert(rest =~= buf@.skip(pos as int));
            }
        }
        Some((v, pos))
    } else {
        match <i64 as Wire>::read(buf, pos) {
            None => {
                proof {
                    assert forall|l: Seq<i64>, rest: Seq<u8>|
                        !(l.len() == n && #[trigger] (enc_items(l) + rest) == buf@.skip(
                            pos as int,
                        )) by {
                        if l.len() == n && enc_items(l) + rest == buf@.skip(pos as int) {
                            assert(enc_items(l) + rest =~= l[0].enc() + (enc_items(l.drop_first())
                                + rest));
                        }
                    }
                }
                None
            },
            Some((x, p1)) => {
                match read_i64_items(buf, p1, n - 1) {
                    None => {
                        proof {
                            assert forall|l: Seq<i64>, rest: Seq<u8>|
                                !(l.len() == n && #[trigger] (enc_items(l) + rest) == buf@.skip(
                                    pos as int,
                                )) by {
                                if l.len() == n && enc_items(l) + rest == buf@.skip(pos as int) {
                                    assert(enc_items(l) + rest =~= l[0].enc() + (enc_items(
                                        l.drop_first(),
                                    ) + rest));
                                    assert(buf@.skip(p1 as int) == enc_items(l.drop_first())
                                        + rest);
                                }
                            }
                        }
                        None
                    },
                    Some((mut tail, p2)) => {
                        let ghost tail0 = tail@;
                        tail.insert(0, x);
                        proof {
                            assert(tail@.drop_first() =~= tail0);
                            assert(tail@[0] == x);
                            assert(buf@.skip(pos as int) =~= enc_items(tail@) + buf@.skip(
                                p2 as int,
                            ));
                            assert forall|l: Seq<i64>, rest: Seq<u8>|
                                l.len() == n && #[trigger] (enc_items(l) + rest) == buf@.skip(
                                    pos as int,
                                ) implies tail@ == l && buf@.skip(p2 as int) == rest by {
                                assert(enc_items(l) + rest =~= l[0].enc() + (enc_items(
                                    l.drop_first(),
                                ) + rest));
                                assert(buf@.skip(p1 as int) == enc_items(l.drop_first()) + rest);
                                lemma_zigzag_injective_wrap(x, l[0]);
                                assert(tail@ =~= l);
                            }
                        }
                        Some((tail, p2))
                    },
                }
            },
        }
    }
}

proof fn lemma_zigzag_injective_wrap(a: i64, b: i64)
    ensures
        crate::codec::enc_i64(a) == crate::codec::enc_i64(b) ==> a == b,
{
    crate::codec::lemma_zigzag_injective(a, b);
    if crate::codec::enc_i64(a) == crate::codec::enc_i64(b) {
        lemma_enc_u64_injective(crate::codec::zigzag(a), crate::codec::zigzag(b));
    }
}

/// Equal varint encodings come from equal values.
proof fn lemma_enc_u64_injective(a: u64, b: u64)
    ensures
        enc_u64(a) == enc_u64(b) ==> a == b,
    decreases a,
{
    if enc_u64(a) == enc_u64(b) {
        if a < 128 && b < 128 {
            assert(enc_u64(a)[0] == a as u8 && enc_u64(b)[0] == b as u8);
        } else if a >= 128 && b >= 128 {
            assert(enc_u64(a)[0] == (128 + (a % 128)) as u8);
            assert(enc_u64(b)[0] == (128 + (b % 128)) as u8);
            assert(enc_u64(a).drop_first() =~= enc_u64(a / 128));
            assert(enc_u64(b).drop_first() =~= enc_u64(b / 128));
            lemma_enc_u64_injective(a / 128, b / 128);
        } else if a < 128 {
            assert(enc_u64(a)[0] == a as u8 && enc_u64(b)[0] == (128 + (b % 128)) as u8);
        } else {
            assert(enc_u64(b)[0] == b as u8 && enc_u64(a)[0] == (128 + (a % 128)) as u8);
        }
    }
}

/// Reads a list of signed integers; completeness pins the decoded values
/// themselves, which lets fixed-width rows be decoded field by field.
pub fn read_i64_list(buf: &[u8], pos: usize) -> (r: Option<(Vec<i64>, usize)>)
    requires
        pos <= buf@.len(),
    ensures
        (r matches Some(p) ==> pos <= p.1 <= buf@.len() && buf@.skip(pos as int) == enc_list(p.0@)
            + buf@.skip(p.1 as int)),
        forall|l: Seq<i64>, rest: Seq<u8>|
            l.len() <= u64::MAX && #[trigger] (enc_list(l) + rest) == buf@.skip(pos as int) ==> (
            r matches Some(p) && p.0@ == l && buf@.skip(p.1 as int) == rest),
{
    proof {
        assert forall|l: Seq<i64>, rest: Seq<u8>|
            #[trigger] (enc_list(l) + rest) == buf@.skip(pos as int) implies enc_u64(
            l.len() as u64,
        ) + (enc_items(l) + rest) == buf@.skip(pos as int) by {
            assert(enc_list(l) + rest =~= enc_u64(l.len() as u64) + (enc_items(l) + rest));
        }
    }
    match read_u64(buf, pos) {
        None => None,
        Some((n, p1)) => {
            match read_i64_items(buf, p1, n) {
                None => {
                    proof {
                        assert forall|l: Seq<i64>, rest: Seq<u8>|
                            !(l.len() <= u64::MAX && #[trigger] (enc_list(l) + rest) == buf@.skip(
                                pos as int,
                            )) by {
                            if l.len() <= u64::MAX && enc_list(l) + rest == buf@.skip(pos as int) {
                                assert(l.len() as u64 == n);
                                assert(buf@.skip(p1 as int) == enc_items(l) + rest);
                            }
                        }
                    }
                    None
                },
                Some((v, p2)) => {
                    proof {
                        assert(buf@.skip(pos as int) =~= enc_list(v@) + buf@.skip(p2 as int));
                        assert forall|l: Seq<i64>, rest: Seq<u8>|
                            l.len() <= u64::MAX && #[trigger] (enc_list(l) + rest) == buf@.skip(
                                pos as int,
                            ) implies v@ == l && buf@.skip(p2 as int) == rest by {
                            assert(l.len() as u64 == n);
                            assert(buf@.skip(p1 as int) == enc_items(l) + rest);
                        }
                    }
                    Some((v, p2))
                },
            }
        },
    }
}

/// Absent or present, with a leading marker.
pub open spec fn enc_opt<T: WireEnc>(o: &Option<T>) -> Seq<u8> {
    match o {
        None => enc_u64(0),
        Some(x) => enc_u64(1) + x.enc(),
    }
}

pub fn write_opt<T: WireEnc>(out: &mut Vec<u8>, o: &Option<T>)
    ensures
        final(out)@ == old(out)@ + enc_opt(o),
{
    match o {
        None => write_u64(out, 0),
        Some(x) => {
            write_u64(out, 1);
            x.write(out);
            assert(final(out)@ =~= old(out)@ + enc_opt(o));
        },
    }
}

pub fn read_opt<T: Wire>(buf: &[u8], pos: usize) -> (r: Option<(Option<T>, usize)>)
    requires
        pos <= buf@.len(),
    ensures
        (r matches Some(p) ==> pos <= p.1 <= buf@.len() && buf@.skip(pos as int) == enc_opt(&p.0)
            + buf@.skip(p.1 as int)),
        forall|o: Option<T>, rest: Seq<u8>|
            #[trigger] (enc_opt(&o) + rest) == buf@.skip(pos as int) ==> (r matches Some(p)
                && enc_opt(&p.0) == enc_opt(&o) && buf@.skip(p.1 as int) == rest),
{
    proof {
        assert forall|o: Option<T>, rest: Seq<u8>|
            #[trigger] (enc_opt(&o) + rest) == buf@.skip(pos as int) implies match o {
            Option::None => enc_u64(0) + rest == buf@.skip(pos as int),
            Option::Some(x) => enc_u64(1) + (x.enc() + rest) == buf@.skip(pos as int),
        } by {
            match o {
                Option::None => {},
                Option::Some(x) => {
                    assert(enc_opt(&o) + rest =~= enc_u64(1) + (x.enc() + rest));
                },
            }
        }
    }
    match read_u64(buf, pos) {
        Some((0u64, p1)) => Some((None, p1)),
        Some((1u64, p1)) => {
            match T::read(buf, p1) {
                None => None,
                Some((x, p2)) => {
                    assert(buf@.skip(pos as int) =~= enc_opt(&Some(x)) + buf@.skip(p2 as int));
                    Some((Some(x), p2))
                },
            }
        },
        _ => None,
    }
}

} // verus!
