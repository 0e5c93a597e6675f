//! A small scanner for delimiter-tagged text, shared by the audio/video tag
//! extractor, the formula extractor and the template parser.  Text splits
//! into pieces that are either plain runs or the bodies of delimited tags;
//! an opening delimiter without its closing one fails the whole scan.

use vstd::prelude::*;
use vstd::string::StringSliceAdditionalSpecFns;
use crate::text::append_bytes;

verus! {

/// One scanned piece: a tag body or a plain run.
pub struct Piece {
    pub is_tag: bool,
    pub body: Vec<u8>,
}

/// The first index at or after `from` holding `b`, or the length.
pub open spec fn find_byte(s: Seq<u8>, b: u8, from: int) -> int
    decreases s.len() - from,
{
    if from < 0 {
        find_byte(s, b, 0)
    } else if from >= s.len() {
        s.len() as int
    } else if s[from] == b {
        from
    } else {
        find_byte(s, b, from + 1)
    }
}

proof fn lemma_find_byte_range(s: Seq<u8>, b: u8, from: int)
    requires
        0 <= from <= s.len(),
    ensures
        from <= find_byte(s, b, from) <= s.len(),
    decreases s.len() - from,
{
    if from < s.len() && s[from] != b {
        lemma_find_byte_range(s, b, from + 1);
    }
}

/// The pieces of `s` from `pos` on: `None` exactly when some opening
/// delimiter is never closed.
pub open spec fn scan_at(s: Seq<u8>, pos: int, open: u8, close: u8) -> Option<
    Seq<(bool, Seq<u8>)>,
>
    decreases s.len() - pos,
    via scan_at_decreases
{
    if pos < 0 || pos >= s.len() {
        Some(Seq::empty())
    } else if s[pos] == open {
        let j = find_byte(s, close, pos + 1);
        if j >= s.len() {
            None
        } else {
            match scan_at(s, j + 1, open, close) {
                None => None,
                Some(r) => Some(seq![(true, s.subrange(pos + 1, j))] + r),
            }
        }
    } else {
        let j = find_byte(s, open, pos);
        match scan_at(s, j, open, close) {
            None => None,
            Some(r) => Some(seq![(false, s.subrange(pos, j))] + r),
        }
    }
}

#[via_fn]
proof fn scan_at_decreases(s: Seq<u8>, pos: int, open: u8, close: u8) {
    if 0 <= pos < s.len() {
        if s[pos] == open {
            lemma_find_byte_range(s, close, pos + 1);
        } else {
            assert(find_byte(s, open, pos) == find_byte(s, open, pos + 1));
            lemma_find_byte_range(s, open, pos + 1);
        }
    }
}

/// The pieces of the whole text.
pub open spec fn scan_spec(s: Seq<u8>, open: u8, close: u8) -> Option<Seq<(bool, Seq<u8>)>> {
    scan_at(s, 0, open, close)
}

/// The exec pieces carry the same flags and bodies as the spec pieces.
pub open spec fn pieces_match(v: Seq<Piece>, l: Seq<(bool, Seq<u8>)>) -> bool {
    v.len() == l.len() && forall|i: int|
        0 <= i < v.len() ==> #[trigger] v[i].is_tag == l[i].0 && v[i].body@ == l[i].1
}

fn find_byte_at(s: &Vec<u8>, b: u8, from: usize) -> (r: usize)
    requires
        from <= s@.len(),
    ensures
        r == find_byte(s@, b, from as int),
        from <= r <= s@.len(),
{
    let mut i: usize = from;
    while i < s.len()
        invariant
            from <= i <= s@.len(),
            find_byte(s@, b, from as int) == find_byte(s@, b, i as int),
        decreases s@.len() - i,
    {
        if s[i] == b {
            return i;
        }
        i = i + 1;
    }
    i
}

/// Copies `s[a..b]`.
pub fn copy_range(s: &Vec<u8>, a: usize, b: usize) -> (r: Vec<u8>)
    requires
        a <= b <= s@.len(),
    ensures
        r@ == s@.subrange(a as int, b as int),
{
    let mut out: Vec<u8> = Vec::new();
    let mut i: usize = a;
    while i < b
        invariant
            a <= i <= b <= s@.len(),
            out@ == s@.subrange(a as int, i as int),
        decreases b - i,
    {
        out.push(s[i]);
        assert(s@.subrange(a as int, i + 1) =~= s@.subrange(a as int, i as int) + seq![
            s@[i as int],
        ]);
        i = i + 1;
    }
    out
}

fn scan_from(s: &Vec<u8>, pos: usize, open: u8, close: u8) -> (r: Option<Vec<Piece>>)
    requires
        pos <= s@.len(),
    ensures
        match r {
            None => scan_at(s@, pos as int, open, close) is None,
            Some(v) => scan_at(s@, pos as int, open, close) matches Some(l) && pieces_match(
                v@,
                l,
            ),
        },
    decreases s@.len() - pos,
{
    if pos == s.len() {
        return Some(Vec::new());
    }
    if s[pos] == open {
        let j = find_byte_at(s, close, pos + 1);
        if j == s.len() {
            return None;
        }
        proof {
            lemma_find_byte_range(s@, close, pos + 1);
        }
        match scan_from(s, j + 1, open, close) {
            None => None,
            Some(mut rest) => {
                let body = copy_range(s, pos + 1, j);
                let ghost rest0 = rest@;
                let ghost b0 = body@;
                rest.insert(0, Piece { is_tag: true, body });
                proof {
                    let l = scan_at(s@, pos as int, open, close)->Some_0;
                    let tail = scan_at(s@, j + 1, open, close)->Some_0;
                    assert(l =~= seq![(true, s@.subrange(pos + 1, j as int))] + tail);
                    assert(rest@.drop_first() =~= rest0);
                    assert(rest@[0].is_tag && rest@[0].body@ == b0);
                    assert forall|k: int|
                        0 <= k < rest@.len() implies rest@[k].is_tag == l[k].0 && rest@[k].body@
                        == l[k].1 by {
                        if k > 0 {
                            assert(rest@[k] == rest@.drop_first()[k - 1]);
                            assert(l[k] == tail[k - 1]);
                        }
                    }
                    assert(pieces_match(rest@, l));
                }
                Some(rest)
            },
        }
    } else {
        let j = find_byte_at(s, open, pos);
        proof {
            assert(find_byte(s@, open, pos as int) == find_byte(s@, open, pos as int + 1));
            lemma_find_byte_range(s@, open, pos as int + 1);
        }
        match scan_from(s, j, open, close) {
            None => None,
            Some(mut rest) => {
                let body = copy_range(s, pos, j);
                let ghost rest0 = rest@;
                let ghost b0 = body@;
                rest.insert(0, Piece { is_tag: false, body });
                proof {
                    let l = scan_at(s@, pos as int, open, close)->Some_0;
                    let tail = scan_at(s@, j as int, open, close)->Some_0;
                    assert(l =~= seq![(false, s@.subrange(pos as int, j as int))] + tail);
                    assert(rest@.drop_first() =~= rest0);
                    assert(!rest@[0].is_tag && rest@[0].body@ == b0);
                    assert forall|k: int|
                        0 <= k < rest@.len() implies rest@[k].is_tag == l[k].0 && rest@[k].body@
                        == l[k].1 by {
                        if k > 0 {
                            assert(rest@[k] == rest@.drop_first()[k - 1]);
                            assert(l[k] == tail[k - 1]);
                        }
                    }
                    assert(pieces_match(rest@, l));
                }
                Some(rest)
            },
        }
    }
}

/// Scans the whole text into pieces; `None` when a tag is never closed.
pub fn scan_tags(s: &Vec<u8>, open: u8, close: u8) -> (r: Option<Vec<Piece>>)
    ensures
        match r {
            None => scan_spec(s@, open, close) is None,
            Some(v) => scan_spec(s@, open, close) matches Some(l) && pieces_match(v@, l),
        },
{
    scan_from(s, 0, open, close)
}

/// The plain runs, concatenated: the text with its tags removed.
pub open spec fn concat_nontags(l: Seq<(bool, Seq<u8>)>) -> Seq<u8>
    decreases l.len(),
{
    if l.len() == 0 {
        Seq::empty()
    } else {
        (if l[0].0 {
            Seq::<u8>::empty()
        } else {
            l[0].1
        }) + concat_nontags(l.drop_first())
    }
}

/// The tag bodies, in order.
pub open spec fn tag_bodies(l: Seq<(bool, Seq<u8>)>) -> Seq<Seq<u8>>
    decreases l.len(),
{
    if l.len() == 0 {
        Seq::empty()
    } else if l[0].0 {
        seq![l[0].1] + tag_bodies(l.drop_first())
    } else {
        tag_bodies(l.drop_first())
    }
}

/// The exec byte vectors carry the same bytes as the spec sequences.
pub open spec fn bytes_list_match(v: Seq<Vec<u8>>, l: Seq<Seq<u8>>) -> bool {
    v.len() == l.len() && forall|i: int| 0 <= i < v.len() ==> #[trigger] v[i]@ == l[i]
}

/// Appends the plain runs of `pieces` and collects the tag bodies.
pub fn split_pieces(pieces: &Vec<Piece>) -> (r: (Vec<u8>, Vec<Vec<u8>>))
    requires
        exists|l: Seq<(bool, Seq<u8>)>| pieces_match(pieces@, l),
    ensures
        forall|l: Seq<(bool, Seq<u8>)>|
            pieces_match(pieces@, l) ==> r.0@ == concat_nontags(l) && bytes_list_match(
                r.1@,
                tag_bodies(l),
            ),
{
    let ghost gl = choose|l: Seq<(bool, Seq<u8>)>| pieces_match(pieces@, l);
    let mut text: Vec<u8> = Vec::new();
    let mut tags: Vec<Vec<u8>> = Vec::new();
    let mut i: usize = 0;
    proof {
        assert(gl.skip(0) =~= gl);
        assert(bytes_list_match(tags@, Seq::<Seq<u8>>::empty()));
        assert(Seq::<Seq<u8>>::empty() + tag_bodies(gl) =~= tag_bodies(gl));
    }
    while i < pieces.len()
        invariant
            i <= pieces@.len(),
            pieces_match(pieces@, gl),
            concat_nontags(gl) == text@ + concat_nontags(gl.skip(i as int)),
            exists|t: Seq<Seq<u8>>|
                #[trigger] bytes_list_match(tags@, t) && t + tag_bodies(gl.skip(i as int))
                    == tag_bodies(gl),
        decreases pieces@.len() - i,
    {
        proof {
            assert(gl.skip(i as int)[0] == gl[i as int]);
            assert(gl.skip(i as int).drop_first() =~= gl.skip(i + 1));
        }
        let ghost tags0 = choose|t: Seq<Seq<u8>>|
            #[trigger] bytes_list_match(tags@, t) && t + tag_bodies(gl.skip(i as int))
                == tag_bodies(gl);
        if pieces[i].is_tag {
            let b = crate::card::copy_bytes(&pieces[i].body);
            tags.push(b);
            proof {
                let t2 = tags0.push(gl[i as int].1);
                assert(bytes_list_match(tags@, t2));
                assert(tag_bodies(gl.skip(i as int)) == seq![gl[i as int].1] + tag_bodies(
                    gl.skip(i + 1),
                ));
                assert(t2 + tag_bodies(gl.skip(i + 1)) =~= tags0 + (seq![gl[i as int].1]
                    + tag_bodies(gl.skip(i + 1))));
                assert(t2 + tag_bodies(gl.skip(i + 1)) == tag_bodies(gl));
            }
        } else {
            append_bytes(&mut text, &pieces[i].body);
            proof {
                assert(bytes_list_match(tags@, tags0));
            }
        }
        i = i + 1;
    }
    proof {
        assert(gl.skip(pieces@.len() as int).len() == 0);
        let tfin = choose|t: Seq<Seq<u8>>|
            #[trigger] bytes_list_match(tags@, t) && t + tag_bodies(
                gl.skip(pieces@.len() as int),
            ) == tag_bodies(gl);
        assert(tfin + tag_bodies(gl.skip(pieces@.len() as int)) =~= tfin);
        assert forall|l: Seq<(bool, Seq<u8>)>|
            pieces_match(pieces@, l) implies text@ == concat_nontags(l) && bytes_list_match(
            tags@,
            tag_bodies(l),
        ) by {
            lemma_pieces_match_unique(pieces@, l, gl);
        }
    }
    (text, tags)
}

/// Two spec piece lists matched by the same exec pieces are equal.
pub proof fn lemma_pieces_match_unique(v: Seq<Piece>, a: Seq<(bool, Seq<u8>)>, b: Seq<(bool, Seq<u8>)>)
    requires
        pieces_match(v, a),
        pieces_match(v, b),
    ensures
        a == b,
{
    assert(a =~= b) by {
        assert(forall|i: int| 0 <= i < a.len() ==> a[i] == (v[i].is_tag, v[i].body@) && b[i] == (
            v[i].is_tag,
            v[i].body@,
        ));
    }
}

} // verus!
