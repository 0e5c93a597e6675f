//! Audio/video tag extraction and stripping, and formula extraction.
//!
//! The model grammar is reduced: an audio/video tag is a bracketed run
//! `[name]`, a formula is a run between two dollar signs.  Ill-delimited
//! text yields no extractions and passes through unchanged.

use vstd::prelude::*;
use vstd::string::StringSliceAdditionalSpecFns;
use crate::scan::{bytes_list_match, concat_nontags, scan_spec, scan_tags, split_pieces,
    tag_bodies};
use crate::text::{append_bytes, append_lit, append_u64, dec_nat};
use crate::proto::ExtractedLatex;

verus! {

/// The text with its audio/video tags removed; ill-delimited text is kept
/// whole.
pub open spec fn stripped_av(text: Seq<u8>) -> Seq<u8> {
    match scan_spec(text, 91, 93) {
        None => text,
        Some(l) => concat_nontags(l),
    }
}

/// The audio/video tag names, in order; none in ill-delimited text.
pub open spec fn av_tag_names(text: Seq<u8>) -> Seq<Seq<u8>> {
    match scan_spec(text, 91, 93) {
        None => Seq::empty(),
        Some(l) => tag_bodies(l),
    }
}

/// Removes every audio/video tag from the text.
pub fn strip_av_tags(text: &Vec<u8>) -> (r: Vec<u8>)
    ensures
        r@ == stripped_av(text@),
{
    match scan_tags(text, 91, 93) {
        None => crate::card::copy_bytes(text),
        Some(pieces) => {
            let (out, _tags) = split_pieces(&pieces);
            out
        },
    }
}

/// Removes every audio/video tag and returns the tag names alongside.
pub fn extract_av_tags(text: &Vec<u8>) -> (r: (Vec<u8>, Vec<Vec<u8>>))
    ensures
        r.0@ == stripped_av(text@),
        bytes_list_match(r.1@, av_tag_names(text@)),
{
    match scan_tags(text, 91, 93) {
        None => (crate::card::copy_bytes(text), Vec::new()),
        Some(pieces) => split_pieces(&pieces),
    }
}

/// The image name standing for the `i`-th extracted formula.
pub open spec fn latex_fname(i: nat, svg: bool) -> Seq<u8> {
    "latex-".spec_bytes() + dec_nat(i) + (if svg {
        ".svg".spec_bytes()
    } else {
        ".png".spec_bytes()
    })
}

/// The text with each formula run replaced by its image name.
pub open spec fn latex_text(l: Seq<(bool, Seq<u8>)>, i: nat, svg: bool) -> Seq<u8>
    decreases l.len(),
{
    if l.len() == 0 {
        Seq::empty()
    } else if l[0].0 {
        latex_fname(i, svg) + latex_text(l.drop_first(), i + 1, svg)
    } else {
        l[0].1 + latex_text(l.drop_first(), i, svg)
    }
}

/// The extracted formulas as (image name, body) pairs.
pub open spec fn latex_pairs(l: Seq<(bool, Seq<u8>)>, i: nat, svg: bool) -> Seq<
    (Seq<u8>, Seq<u8>),
>
    decreases l.len(),
{
    if l.len() == 0 {
        Seq::empty()
    } else if l[0].0 {
        seq![(latex_fname(i, svg), l[0].1)] + latex_pairs(l.drop_first(), i + 1, svg)
    } else {
        latex_pairs(l.drop_first(), i, svg)
    }
}

/// The exec extraction list carries the same names and bodies.
pub open spec fn latex_list_match(v: Seq<ExtractedLatex>, l: Seq<(Seq<u8>, Seq<u8>)>) -> bool {
    v.len() == l.len() && forall|i: int|
        0 <= i < v.len() ==> #[trigger] v[i].filename@ == l[i].0 && v[i].latex_body@ == l[i].1
}

/// Replaces each formula run by an image name and collects the formulas.
/// Ill-delimited text passes through with no extractions.
pub fn extract_latex(text: &Vec<u8>, svg: bool) -> (r: (Vec<u8>, Vec<ExtractedLatex>))
    ensures
        match scan_spec(text@, 36, 36) {
            None => r.0@ == text@ && r.1@.len() == 0,
            Some(l) => r.0@ == latex_text(l, 0, svg) && latex_list_match(
                r.1@,
                latex_pairs(l, 0, svg),
            ),
        },
{
    let pieces = match scan_tags(text, 36, 36) {
        None => {
            return (crate::card::copy_bytes(text), Vec::new());
        },
        Some(p) => p,
    };
    let ghost gl = scan_spec(text@, 36, 36)->Some_0;
    let mut out: Vec<u8> = Vec::new();
    let mut ex: Vec<ExtractedLatex> = Vec::new();
    let mut i: usize = 0;
    let mut count: u64 = 0;
    proof {
        assert(gl.skip(0) =~= gl);
        assert(latex_list_match(ex@, Seq::<(Seq<u8>, Seq<u8>)>::empty()));
        assert(Seq::<(Seq<u8>, Seq<u8>)>::empty() + latex_pairs(gl, 0, svg) =~= latex_pairs(
            gl,
            0,
            svg,
        ));
    }
    while i < pieces.len()
        invariant
            i <= pieces@.len(),
            crate::scan::pieces_match(pieces@, gl),
            count <= i,
            latex_text(gl, 0, svg) == out@ + latex_text(gl.skip(i as int), count as nat, svg),
            exists|t: Seq<(Seq<u8>, Seq<u8>)>|
                #[trigger] latex_list_match(ex@, t) && t + latex_pairs(
                    gl.skip(i as int),
                    count as nat,
                    svg,
                ) == latex_pairs(gl, 0, svg),
        decreases pieces@.len() - i,
    {
        let ghost t0 = choose|t: Seq<(Seq<u8>, Seq<u8>)>|
            #[trigger] latex_list_match(ex@, t) && t + latex_pairs(
                gl.skip(i as int),
                count as nat,
                svg,
            ) == latex_pairs(gl, 0, svg);
        proof {
            assert(gl.skip(i as int)[0] == gl[i as int]);
            assert(gl.skip(i as int).drop_first() =~= gl.skip(i + 1));
        }
        if pieces[i].is_tag {
            let mut fname: Vec<u8> = Vec::new();
            append_lit(&mut fname, "latex-");
            append_u64(&mut fname, count);
            if svg {
                append_lit(&mut fname, ".svg");
            } else {
                append_lit(&mut fname, ".png");
            }
            assert(fname@ == latex_fname(count as nat, svg));
            append_bytes(&mut out, &fname);
            let body = crate::card::copy_bytes(&pieces[i].body);
            ex.push(ExtractedLatex { filename: fname, latex_body: body });
            count = count + 1;
            proof {
                let t2 = t0.push((latex_fname((count - 1) as nat, svg), gl[i as int].1));
                assert(latex_list_match(ex@, t2));
                assert(latex_pairs(gl.skip(i as int), (count - 1) as nat, svg) == seq![
                    (latex_fname((count - 1) as nat, svg), gl[i as int].1),
                ] + latex_pairs(gl.skip(i + 1), count as nat, svg));
                assert(t2 + latex_pairs(gl.skip(i + 1), count as nat, svg) =~= t0 + (seq![
                    (latex_fname((count - 1) as nat, svg), gl[i as int].1),
                ] + latex_pairs(gl.skip(i + 1), count as nat, svg)));
            }
        } else {
            append_bytes(&mut out, &pieces[i].body);
            proof {
                assert(latex_list_match(ex@, t0));
            }
        }
        i = i + 1;
    }
    proof {
        assert(gl.skip(pieces@.len() as int).len() == 0);
        let tfin = choose|t: Seq<(Seq<u8>, Seq<u8>)>|
            #[trigger] latex_list_match(ex@, t) && t + latex_pairs(
                gl.skip(pieces@.len() as int),
                count as nat,
                svg,
            ) == latex_pairs(gl, 0, svg);
        assert(tfin + latex_pairs(gl.skip(pieces@.len() as int), count as nat, svg) =~= tfin);
    }
    (out, ex)
}

} // verus!
