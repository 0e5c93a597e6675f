//! Template analysis and rendering over a reduced template grammar: a field
//! reference is a braced run `{name}`, optionally prefixed by a filter
//! chain ending in a colon (`{filters:name}`, carried as one opaque filter
//! string).  A template whose braces do not balance fails to parse; for
//! requirement analysis such a template is unsatisfiable, for rendering it
//! is a template-parse failure.

use vstd::prelude::*;
use vstd::string::StringSliceAdditionalSpecFns;
use crate::proto::{FieldOrdinal, FieldValue, RenderedNode, RenderedTemplateReplacement,
    TemplateRequirement, TemplateRequirementAll, TemplateRequirementAny};
use crate::scan::{pieces_match, scan_spec, scan_tags, Piece};

verus! {

/// The last index of `b` in `s`, or -1.
pub open spec fn rfind_byte(s: Seq<u8>, b: u8) -> int
    decreases s.len(),
{
    if s.len() == 0 {
        -1
    } else if s.last() == b {
        s.len() - 1
    } else {
        rfind_byte(s.take(s.len() - 1), b)
    }
}

proof fn lemma_rfind_byte_range(s: Seq<u8>, b: u8)
    ensures
        -1 <= rfind_byte(s, b) < s.len(),
    decreases s.len(),
{
    if s.len() > 0 && s.last() != b {
        lemma_rfind_byte_range(s.take(s.len() - 1), b);
    }
}

/// The field name of a reference body: what follows the last colon.
pub open spec fn ref_name(body: Seq<u8>) -> Seq<u8> {
    body.skip(rfind_byte(body, 58) + 1)
}

/// The filter chain of a reference body: what precedes the last colon,
/// as one opaque filter string; empty references have none.
pub open spec fn ref_filters(body: Seq<u8>) -> Seq<Seq<u8>> {
    if rfind_byte(body, 58) < 0 {
        Seq::empty()
    } else {
        seq![body.take(rfind_byte(body, 58))]
    }
}

/// Splits a reference body into its filter chain and field name.
fn split_ref(body: &Vec<u8>) -> (r: (Option<Vec<u8>>, Vec<u8>))
    ensures
        r.1@ == ref_name(body@),
        match r.0 {
            None => ref_filters(body@).len() == 0,
            Some(f) => ref_filters(body@) == seq![f@],
        },
{
    let mut k: usize = body.len();
    proof {
        assert(body@.take(body@.len() as int) =~= body@);
    }
    while k > 0
        invariant
            k <= body@.len(),
            rfind_byte(body@, 58) == rfind_byte(body@.take(k as int), 58),
            forall|j: int| k <= j < body@.len() ==> body@[j] != 58,
        decreases k,
    {
        proof {
            assert(body@.take(k as int).last() == body@[k - 1]);
            assert(body@.take(k as int).take(k - 1) =~= body@.take(k - 1));
        }
        if body[k - 1] == 58 {
            proof {
                assert(rfind_byte(body@.take(k as int), 58) == k - 1);
                lemma_rfind_byte_range(body@, 58);
            }
            let name = crate::scan::copy_range(body, k, body.len());
            let filt = crate::scan::copy_range(body, 0, k - 1);
            proof {
                assert(name@ =~= ref_name(body@));
                assert(filt@ =~= body@.take(rfind_byte(body@, 58)));
            }
            return (Some(filt), name);
        }
        k = k - 1;
    }
    proof {
        assert(body@.take(0).len() == 0);
        assert(rfind_byte(body@, 58) == -1);
    }
    let name = crate::scan::copy_range(body, 0, body.len());
    proof {
        assert(name@ =~= ref_name(body@));
    }
    (None, name)
}

/// The ordinal of a field name in the field map: first entry wins.
pub open spec fn ord_of(map: Seq<FieldOrdinal>, name: Seq<u8>) -> Option<u32>
    decreases map.len(),
{
    if map.len() == 0 {
        None
    } else if map[0].name@ == name {
        Some(map[0].ord)
    } else {
        ord_of(map.drop_first(), name)
    }
}

fn ord_lookup(map: &Vec<FieldOrdinal>, name: &Vec<u8>) -> (r: Option<u32>)
    ensures
        r == ord_of(map@, name@),
{
    let mut i: usize = 0;
    proof {
        assert(map@.skip(0) =~= map@);
    }
    while i < map.len()
        invariant
            i <= map@.len(),
            ord_of(map@, name@) == ord_of(map@.skip(i as int), name@),
        decreases map@.len() - i,
    {
        proof {
            assert(map@.skip(i as int)[0] == map@[i as int]);
            assert(map@.skip(i as int).drop_first() =~= map@.skip(i + 1));
        }
        if crate::text::bytes_eq(&map[i].name, name) {
            return Some(map[i].ord);
        }
        i = i + 1;
    }
    None
}

/// The value of a field name among the provided field values; empty when
/// the field is not provided.
pub open spec fn field_value_of(fields: Seq<FieldValue>, name: Seq<u8>) -> Seq<u8>
    decreases fields.len(),
{
    if fields.len() == 0 {
        Seq::empty()
    } else if fields[0].name@ == name {
        fields[0].value@
    } else {
        field_value_of(fields.drop_first(), name)
    }
}

fn field_lookup(fields: &Vec<FieldValue>, name: &Vec<u8>) -> (r: Vec<u8>)
    ensures
        r@ == field_value_of(fields@, name@),
{
    let mut i: usize = 0;
    proof {
        assert(fields@.skip(0) =~= fields@);
    }
    while i < fields.len()
        invariant
            i <= fields@.len(),
            field_value_of(fields@, name@) == field_value_of(fields@.skip(i as int), name@),
        decreases fields@.len() - i,
    {
        proof {
            assert(fields@.skip(i as int)[0] == fields@[i as int]);
            assert(fields@.skip(i as int).drop_first() =~= fields@.skip(i + 1));
        }
        if crate::text::bytes_eq(&fields[i].name, name) {
            return crate::card::copy_bytes(&fields[i].value);
        }
        i = i + 1;
    }
    Vec::new()
}

/// The referenced field names of a piece list, in order of appearance.
pub open spec fn refs_of(l: Seq<(bool, Seq<u8>)>) -> Seq<Seq<u8>>
    decreases l.len(),
{
    if l.len() == 0 {
        Seq::empty()
    } else if l[0].0 {
        seq![ref_name(l[0].1)] + refs_of(l.drop_first())
    } else {
        refs_of(l.drop_first())
    }
}

/// The ordinals of the referenced names that the map knows, in order, with
/// duplicates kept.
pub open spec fn known_ords(refs: Seq<Seq<u8>>, map: Seq<FieldOrdinal>) -> Seq<u32>
    decreases refs.len(),
{
    if refs.len() == 0 {
        Seq::empty()
    } else {
        (match ord_of(map, refs[0]) {
            Some(o) => seq![o],
            None => Seq::empty(),
        }) + known_ords(refs.drop_first(), map)
    }
}

/// Order-preserving removal of duplicates.
pub open spec fn dedup_ords(acc: Seq<u32>, rest: Seq<u32>) -> Seq<u32>
    decreases rest.len(),
{
    if rest.len() == 0 {
        acc
    } else if acc.contains(rest[0]) {
        dedup_ords(acc, rest.drop_first())
    } else {
        dedup_ords(acc.push(rest[0]), rest.drop_first())
    }
}

/// Collapses a list of ordinals to its distinct members, in order of first
/// appearance; stands in for the hash-set collection step.
pub fn ords_hash_to_set(ords: Vec<u32>) -> (r: Vec<u32>)
    ensures
        r@ == dedup_ords(Seq::empty(), ords@),
{
    let mut out: Vec<u32> = Vec::new();
    let mut i: usize = 0;
    proof {
        assert(ords@.skip(0) =~= ords@);
    }
    while i < ords.len()
        invariant
            i <= ords@.len(),
            dedup_ords(Seq::empty(), ords@) == dedup_ords(out@, ords@.skip(i as int)),
        decreases ords@.len() - i,
    {
        proof {
            assert(ords@.skip(i as int)[0] == ords@[i as int]);
            assert(ords@.skip(i as int).drop_first() =~= ords@.skip(i + 1));
        }
        let x = ords[i];
        let mut seen = false;
        let mut j: usize = 0;
        while j < out.len()
            invariant
                j <= out@.len(),
                seen == exists|k: int| 0 <= k < j && out@[k] == x,
            decreases out@.len() - j,
        {
            if out[j] == x {
                seen = true;
            }
            j = j + 1;
        }
        proof {
            assert(seen == out@.contains(x));
        }
        if !seen {
            out.push(x);
        }
        i = i + 1;
    }
    proof {
        assert(ords@.skip(ords@.len() as int).len() == 0);
    }
    out
}

/// What a single template front demands: unsatisfiable when it does not
/// parse or references nothing the map knows; `All` of the known ordinals
/// when every reference is known; otherwise `Any` of the known ones.
pub open spec fn requirement_spec(front: Seq<u8>, map: Seq<FieldOrdinal>) -> (bool, bool, Seq<
    u32,
>) {
    match scan_spec(front, 123, 125) {
        None => (false, false, Seq::empty()),
        Some(l) => {
            let refs = refs_of(l);
            let ords = dedup_ords(Seq::empty(), known_ords(refs, map));
            if refs.len() == 0 || ords.len() == 0 {
                (false, false, Seq::empty())
            } else if known_ords(refs, map).len() == refs.len() {
                (true, true, ords)
            } else {
                (true, false, ords)
            }
        },
    }
}

/// Whether a wire requirement matches the spec triple (satisfiable,
/// all-required, ordinals).
pub open spec fn requirement_matches(w: &TemplateRequirement, t: (bool, bool, Seq<u32>)) -> bool {
    match w {
        TemplateRequirement::Unsatisfiable => !t.0,
        TemplateRequirement::All(a) => t.0 && t.1 && a.ords@ == t.2,
        TemplateRequirement::Any(a) => t.0 && !t.1 && a.ords@ == t.2,
    }
}

/// Analyses one template front against the field map.
pub fn template_requirement(front: &Vec<u8>, map: &Vec<FieldOrdinal>) -> (r: TemplateRequirement)
    ensures
        requirement_matches(&r, requirement_spec(front@, map@)),
{
    let pieces = match scan_tags(front, 123, 125) {
        None => {
            return TemplateRequirement::Unsatisfiable;
        },
        Some(p) => p,
    };
    let ghost gl = scan_spec(front@, 123, 125)->Some_0;
    let mut refs_n: usize = 0;
    let mut ords: Vec<u32> = Vec::new();
    let mut i: usize = 0;
    proof {
        assert(gl.take(0) =~= Seq::<(bool, Seq<u8>)>::empty());
    }
    while i < pieces.len()
        invariant
            i <= pieces@.len(),
            pieces_match(pieces@, gl),
            refs_n <= i,
            refs_n == refs_of(gl.take(i as int)).len(),
            ords@ == known_ords(refs_of(gl.take(i as int)), map@),
        decreases pieces@.len() - i,
    {
        let ghost r0 = refs_of(gl.take(i as int));
        proof {
            lemma_refs_take_step(gl, i as int);
        }
        if pieces[i].is_tag {
            let ghost rn = ref_name(gl[i as int].1);
            proof {
                assert(refs_of(gl.take(i + 1)) =~= r0 + seq![rn]);
                lemma_known_ords_concat(r0, seq![rn], map@);
                assert(seq![rn].drop_first() =~= Seq::<Seq<u8>>::empty());
                assert(seq![rn][0] == rn);
            }
            let (_filters, name) = split_ref(&pieces[i].body);
            match ord_lookup(map, &name) {
                Some(o) => {
                    ords.push(o);
                    proof {
                        assert(known_ords(Seq::<Seq<u8>>::empty(), map@) =~= Seq::<u32>::empty());
                        assert(known_ords(seq![rn], map@) =~= seq![o]);
                        assert(ords@ =~= known_ords(r0, map@) + known_ords(seq![rn], map@));
                    }
                },
                None => {
                    proof {
                        assert(known_ords(Seq::<Seq<u8>>::empty(), map@) =~= Seq::<u32>::empty());
                        assert(known_ords(seq![rn], map@) =~= Seq::<u32>::empty());
                        assert(ords@ =~= known_ords(r0, map@) + known_ords(seq![rn], map@));
                    }
                },
            }
            refs_n = refs_n + 1;
        } else {
            proof {
                assert(refs_of(gl.take(i + 1)) =~= r0);
            }
        }
        i = i + 1;
    }
    proof {
        assert(gl.take(pieces@.len() as int) =~= gl);
    }
    let known = ords.len();
    let deduped = ords_hash_to_set(ords);
    if refs_n == 0 || deduped.len() == 0 {
        TemplateRequirement::Unsatisfiable
    } else if known == refs_n {
        TemplateRequirement::All(TemplateRequirementAll { ords: deduped })
    } else {
        TemplateRequirement::Any(TemplateRequirementAny { ords: deduped })
    }
}

proof fn lemma_refs_take_step(l: Seq<(bool, Seq<u8>)>, i: int)
    requires
        0 <= i < l.len(),
    ensures
        l[i].0 ==> refs_of(l.take(i + 1)) =~= refs_of(l.take(i)) + seq![ref_name(l[i].1)],
        !l[i].0 ==> refs_of(l.take(i + 1)) =~= refs_of(l.take(i)),
    decreases i,
{
    if i == 0 {
        assert(l.take(1) =~= seq![l[0]]);
        assert(l.take(1).drop_first() =~= Seq::<(bool, Seq<u8>)>::empty());
        assert(l.take(0) =~= Seq::<(bool, Seq<u8>)>::empty());
    } else {
        assert(l.take(i + 1)[0] == l[0]);
        assert(l.take(i)[0] == l[0]);
        assert(l.take(i + 1).drop_first() =~= l.drop_first().take(i));
        assert(l.take(i).drop_first() =~= l.drop_first().take(i - 1));
        assert(l.drop_first()[i - 1] == l[i]);
        lemma_refs_take_step(l.drop_first(), i - 1);
    }
}

proof fn lemma_known_ords_concat(a: Seq<Seq<u8>>, b: Seq<Seq<u8>>, map: Seq<FieldOrdinal>)
    ensures
        known_ords(a + b, map) == known_ords(a, map) + known_ords(b, map),
    decreases a.len(),
{
    if a.len() == 0 {
        assert(a + b =~= b);
        assert(known_ords(a, map) + known_ords(b, map) =~= known_ords(b, map));
    } else {
        assert((a + b)[0] == a[0]);
        assert((a + b).drop_first() =~= a.drop_first() + b);
        lemma_known_ords_concat(a.drop_first(), b, map);
        assert(known_ords(a + b, map) =~= known_ords(a, map) + known_ords(b, map));
    }
}

/// What one rendered node must hold for the corresponding piece.
pub open spec fn node_matches(
    n: &RenderedNode,
    p: (bool, Seq<u8>),
    fields: Seq<FieldValue>,
) -> bool {
    if p.0 {
        n matches RenderedNode::Replacement(rep) && rep.field_name@ == ref_name(p.1)
            && rep.current_text@ == field_value_of(fields, ref_name(p.1)) && (
        rep.filters.len() == ref_filters(p.1).len() && forall|k: int|
            0 <= k < rep.filters.len() ==> #[trigger] rep.filters@[k]@ == ref_filters(p.1)[k])
    } else {
        n matches RenderedNode::Text(t) && t@ == p.1
    }
}

/// Renders one template side against the field values: one node per piece.
pub fn render_nodes(pieces: &Vec<Piece>, fields: &Vec<FieldValue>) -> (r: Vec<RenderedNode>)
    requires
        exists|l: Seq<(bool, Seq<u8>)>| pieces_match(pieces@, l),
    ensures
        forall|l: Seq<(bool, Seq<u8>)>|
            pieces_match(pieces@, l) ==> r@.len() == l.len() && (forall|i: int|
                0 <= i < l.len() ==> node_matches(&r@[i], l[i], fields@)),
{
    let ghost gl = choose|l: Seq<(bool, Seq<u8>)>| pieces_match(pieces@, l);
    let mut out: Vec<RenderedNode> = Vec::new();
    let mut i: usize = 0;
    while i < pieces.len()
        invariant
            i <= pieces@.len(),
            pieces_match(pieces@, gl),
            out@.len() == i,
            forall|k: int| 0 <= k < i ==> node_matches(&out@[k], gl[k], fields@),
        decreases pieces@.len() - i,
    {
        if pieces[i].is_tag {
            let (filters, name) = split_ref(&pieces[i].body);
            let current_text = field_lookup(fields, &name);
            let mut fl: Vec<Vec<u8>> = Vec::new();
            match filters {
                Some(f) => {
                    fl.push(f);
                },
                None => {
                },
            }
            out.push(
                RenderedNode::Replacement(
                    RenderedTemplateReplacement { field_name: name, current_text, filters: fl },
                ),
            );
        } else {
            let body = crate::card::copy_bytes(&pieces[i].body);
            out.push(RenderedNode::Text(body));
        }
        i = i + 1;
    }
    proof {
        assert forall|l: Seq<(bool, Seq<u8>)>|
            pieces_match(pieces@, l) implies out@.len() == l.len() && (forall|k: int|
            0 <= k < l.len() ==> node_matches(&out@[k], l[k], fields@)) by {
            crate::scan::lemma_pieces_match_unique(pieces@, l, gl);
        }
    }
    out
}

} // verus!
