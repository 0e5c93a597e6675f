//! Card and note search over the collection, with verified ordering.
//!
//! The model query grammar is narrow: an empty search matches every card,
//! a decimal number matches the cards of that note, anything else is
//! invalid input.  Builtin orders sort by a per-card integer key; ties keep
//! storage order, so the result is a fully determined permutation.

use vstd::prelude::*;
use vstd::string::StringSliceAdditionalSpecFns;
use vstd::seq_lib::group_to_multiset_ensures;
use vstd::multiset::Multiset;
use crate::card::Card;
use crate::err::AnkiError;
use crate::proto::SortOrder;
use crate::text::{dec_ok, dec_value, parse_dec};

verus! {

/// The builtin sort columns.
pub enum SortKind {
    NoteCreation,
    NoteMod,
    NoteField,
    NoteTags,
    NoteType,
    CardMod,
    CardReps,
    CardDue,
    CardEase,
    CardLapses,
    CardInterval,
    CardDeck,
    CardTemplate,
}

/// How results are ordered, resolved from the wire order.
pub enum SortMode {
    NoOrder,
    Custom(Vec<u8>),
    FromConfig,
    Builtin { kind: SortKind, reverse: bool },
}

pub open spec fn sort_kind_code(k: &SortKind) -> u32 {
    match k {
        SortKind::NoteCreation => 0,
        SortKind::NoteMod => 1,
        SortKind::NoteField => 2,
        SortKind::NoteTags => 3,
        SortKind::NoteType => 4,
        SortKind::CardMod => 5,
        SortKind::CardReps => 6,
        SortKind::CardDue => 7,
        SortKind::CardEase => 8,
        SortKind::CardLapses => 9,
        SortKind::CardInterval => 10,
        SortKind::CardDeck => 11,
        SortKind::CardTemplate => 12,
    }
}

/// The sort column a wire number names; unknown numbers order by note
/// creation.
pub open spec fn sort_kind_of(kind: u32) -> SortKind {
    if kind == 1 {
        SortKind::NoteMod
    } else if kind == 2 {
        SortKind::NoteField
    } else if kind == 3 {
        SortKind::NoteTags
    } else if kind == 4 {
        SortKind::NoteType
    } else if kind == 5 {
        SortKind::CardMod
    } else if kind == 6 {
        SortKind::CardReps
    } else if kind == 7 {
        SortKind::CardDue
    } else if kind == 8 {
        SortKind::CardEase
    } else if kind == 9 {
        SortKind::CardLapses
    } else if kind == 10 {
        SortKind::CardInterval
    } else if kind == 11 {
        SortKind::CardDeck
    } else if kind == 12 {
        SortKind::CardTemplate
    } else {
        SortKind::NoteCreation
    }
}

/// Resolves a wire sort column number; unknown numbers order by note
/// creation.
pub fn sort_kind_from_pb(kind: u32) -> (r: SortKind)
    ensures
        r == sort_kind_of(kind),
        kind <= 12 ==> sort_kind_code(&r) == kind,
        kind > 12 ==> r is NoteCreation,
{
    if kind == 1 {
        SortKind::NoteMod
    } else if kind == 2 {
        SortKind::NoteField
    } else if kind == 3 {
        SortKind::NoteTags
    } else if kind == 4 {
        SortKind::NoteType
    } else if kind == 5 {
        SortKind::CardMod
    } else if kind == 6 {
        SortKind::CardReps
    } else if kind == 7 {
        SortKind::CardDue
    } else if kind == 8 {
        SortKind::CardEase
    } else if kind == 9 {
        SortKind::CardLapses
    } else if kind == 10 {
        SortKind::CardInterval
    } else if kind == 11 {
        SortKind::CardDeck
    } else if kind == 12 {
        SortKind::CardTemplate
    } else {
        SortKind::NoteCreation
    }
}

/// Resolves the wire order; an explicit choice is kept, the rest order by
/// configuration.
pub fn sort_mode_from_order(order: SortOrder) -> (r: SortMode)
    ensures
        match order {
            SortOrder::NoOrder => r is NoOrder,
            SortOrder::Custom(s) => r matches SortMode::Custom(t) && t == s,
            SortOrder::FromConfig => r is FromConfig,
            SortOrder::Builtin(b) => r matches SortMode::Builtin { kind, reverse } && reverse
                == b.reverse && (b.kind <= 12 ==> sort_kind_code(&kind) == b.kind) && (b.kind > 12
                ==> kind is NoteCreation),
        },
{
    match order {
        SortOrder::NoOrder => SortMode::NoOrder,
        SortOrder::Custom(s) => SortMode::Custom(s),
        SortOrder::FromConfig => SortMode::FromConfig,
        SortOrder::Builtin(b) => SortMode::Builtin {
            kind: sort_kind_from_pb(b.kind),
            reverse: b.reverse,
        },
    }
}

/// Whether a card matches the query: empty matches all, digits match the
/// note id.
pub open spec fn card_matches_query(c: &Card, q: Seq<u8>) -> bool {
    q.len() == 0 || (dec_ok(q) && c.nid == dec_value(q))
}

/// A query is valid when empty or a plain decimal number.
pub open spec fn query_ok(q: Seq<u8>) -> bool {
    q.len() == 0 || dec_ok(q)
}

/// The sort key of a card under a builtin column.  Note-level columns are
/// approximated by the note id or modification stamp, which is what this
/// layer can see of the note.
pub open spec fn card_key(k: &SortKind, c: &Card) -> i64 {
    match k {
        SortKind::NoteCreation => c.nid,
        SortKind::NoteMod => c.mtime,
        SortKind::NoteField => c.nid,
        SortKind::NoteTags => c.nid,
        SortKind::NoteType => c.nid,
        SortKind::CardMod => c.mtime,
        SortKind::CardReps => c.reps as i64,
        SortKind::CardDue => c.due as i64,
        SortKind::CardEase => c.factor as i64,
        SortKind::CardLapses => c.lapses as i64,
        SortKind::CardInterval => c.ivl as i64,
        SortKind::CardDeck => c.did,
        SortKind::CardTemplate => c.ord as i64,
    }
}

fn card_key_exec(k: &SortKind, c: &Card) -> (r: i64)
    ensures
        r == card_key(k, c),
{
    match k {
        SortKind::NoteCreation => c.nid,
        SortKind::NoteMod => c.mtime,
        SortKind::NoteField => c.nid,
        SortKind::NoteTags => c.nid,
        SortKind::NoteType => c.nid,
        SortKind::CardMod => c.mtime,
        SortKind::CardReps => c.reps as i64,
        SortKind::CardDue => c.due as i64,
        SortKind::CardEase => c.factor as i64,
        SortKind::CardLapses => c.lapses as i64,
        SortKind::CardInterval => c.ivl as i64,
        SortKind::CardDeck => c.did,
        SortKind::CardTemplate => c.ord as i64,
    }
}

/// One entry to be ordered: key, stable storage position, card id.
pub struct SortEnt {
    pub key: i64,
    pub idx: usize,
    pub id: i64,
}

/// Strict order: by key (reversed when asked), ties by storage position.
pub open spec fn ent_lt(reverse: bool, a: &SortEnt, b: &SortEnt) -> bool {
    if a.key != b.key {
        if reverse {
            a.key > b.key
        } else {
            a.key < b.key
        }
    } else {
        a.idx < b.idx
    }
}

/// Sorted: no later entry is strictly below an earlier one.
pub open spec fn ents_sorted(reverse: bool, s: Seq<SortEnt>) -> bool {
    forall|i: int, j: int| 0 <= i < j < s.len() ==> !ent_lt(reverse, &s[j], &s[i])
}

/// Sorts the entries: the result is a permutation, ordered by key with
/// ties in storage order.
pub fn sort_ents(items: Vec<SortEnt>, reverse: bool) -> (r: Vec<SortEnt>)
    ensures
        r@.to_multiset() == items@.to_multiset(),
        ents_sorted(reverse, r@),
        r@.len() == items@.len(),
{
    broadcast use group_to_multiset_ensures;

    let mut out: Vec<SortEnt> = Vec::new();
    let mut i: usize = 0;
    proof {
        assert(items@.take(0) =~= Seq::<SortEnt>::empty());
        assert(Seq::<SortEnt>::empty().to_multiset() =~= Multiset::<SortEnt>::empty());
    }
    while i < items.len()
        invariant
            i <= items@.len(),
            out@.len() == i,
            out@.to_multiset() == items@.take(i as int).to_multiset(),
            ents_sorted(reverse, out@),
        decreases items@.len() - i,
    {
        let x = SortEnt { key: items[i].key, idx: items[i].idx, id: items[i].id };
        proof {
            assert(x == items@[i as int]);
        }
        let mut pos: usize = 0;
        while pos < out.len()
            invariant
                pos <= out@.len(),
                forall|j: int| 0 <= j < pos ==> !ent_lt(reverse, &x, &out@[j]),
            ensures
                pos <= out@.len(),
                forall|j: int| 0 <= j < pos ==> !ent_lt(reverse, &x, &out@[j]),
                pos < out@.len() ==> ent_lt(reverse, &x, &out@[pos as int]),
            decreases out@.len() - pos,
        {
            if ent_lt_exec(reverse, &x, &out[pos]) {
                break ;
            }
            pos = pos + 1;
        }
        let ghost out0 = out@;
        out.insert(pos, x);
        proof {
            out@.to_multiset_ensures();
            out0.to_multiset_ensures();
            items@.take(i as int).to_multiset_ensures();
            items@.take(i + 1).to_multiset_ensures();
            assert(out@ == out0.insert(pos as int, x));
            assert(out@.remove(pos as int) =~= out0);
            assert(out@.remove(pos as int).to_multiset() == out@.to_multiset().remove(
                out@[pos as int],
            ));
            assert(out@[pos as int] == x);
            assert(out@.contains(x));
            assert(out@.to_multiset().count(x) > 0);
            assert(out@.to_multiset() =~= out0.to_multiset().insert(x));
            assert(items@.take(i + 1).drop_last() =~= items@.take(i as int));
            assert(items@.take(i + 1).last() == items@[i as int]);
            assert(items@.take(i + 1) =~= items@.take(i as int).push(items@[i as int]));
            assert(items@.take(i + 1).to_multiset() =~= items@.take(
                i as int,
            ).to_multiset().insert(x));
            assert forall|a: int, b: int| 0 <= a < b < out@.len() implies !ent_lt(
                reverse,
                &out@[b],
                &out@[a],
            ) by {
                if b < pos {
                    assert(out@[a] == out0[a] && out@[b] == out0[b]);
                } else if a > pos {
                    assert(out@[a] == out0[a - 1] && out@[b] == out0[b - 1]);
                } else if a == pos {
                    assert(out@[a] == x && out@[b] == out0[b - 1]);
                    if pos < out0.len() {
                        assert(!ent_lt(reverse, &out0[b - 1], &out0[pos as int]));
                        assert(ent_lt(reverse, &x, &out0[pos as int]));
                    }
                } else if b == pos {
                    assert(out@[b] == x && out@[a] == out0[a]);
                    assert(!ent_lt(reverse, &x, &out0[a]));
                } else {
                    assert(a < pos < b);
                    assert(out@[a] == out0[a] && out@[b] == out0[b - 1]);
                }
            }
        }
        i = i + 1;
    }
    proof {
        assert(items@.take(items@.len() as int) =~= items@);
    }
    out
}

fn ent_lt_exec(reverse: bool, a: &SortEnt, b: &SortEnt) -> (r: bool)
    ensures
        r == ent_lt(reverse, a, b),
{
    if a.key != b.key {
        if reverse {
            a.key > b.key
        } else {
            a.key < b.key
        }
    } else {
        a.idx < b.idx
    }
}

/// The ids of the cards matching the query, in storage order.
pub open spec fn matching_ids(cards: Seq<Card>, q: Seq<u8>) -> Seq<i64>
    decreases cards.len(),
{
    if cards.len() == 0 {
        Seq::empty()
    } else if card_matches_query(&cards[0], q) {
        seq![cards[0].id] + matching_ids(cards.drop_first(), q)
    } else {
        matching_ids(cards.drop_first(), q)
    }
}

/// The distinct note ids of the matching cards, in order of first
/// appearance.
pub open spec fn matching_nids(cards: Seq<Card>, q: Seq<u8>, seen: Seq<i64>) -> Seq<i64>
    decreases cards.len(),
{
    if cards.len() == 0 {
        Seq::empty()
    } else if card_matches_query(&cards[0], q) && !seen.contains(cards[0].nid) {
        seq![cards[0].nid] + matching_nids(cards.drop_first(), q, seen.push(cards[0].nid))
    } else {
        matching_nids(cards.drop_first(), q, seen)
    }
}

/// The sort entries of the matching cards from position `i` on: key,
/// storage position and id, in storage order.
pub open spec fn match_ents(cards: Seq<Card>, q: Seq<u8>, kind: &SortKind, i: int) -> Seq<SortEnt>
    decreases cards.len() - i,
{
    if i < 0 || i >= cards.len() {
        Seq::empty()
    } else if card_matches_query(&cards[i], q) {
        seq![
            SortEnt { key: card_key(kind, &cards[i]), idx: i as usize, id: cards[i].id },
        ] + match_ents(cards, q, kind, i + 1)
    } else {
        match_ents(cards, q, kind, i + 1)
    }
}

proof fn lemma_match_ents_ids(cards: Seq<Card>, q: Seq<u8>, kind: &SortKind, i: int)
    requires
        0 <= i <= cards.len(),
    ensures
        ents_ids(match_ents(cards, q, kind, i)) == matching_ids(cards.skip(i), q),
    decreases cards.len() - i,
{
    if i < cards.len() {
        lemma_match_ents_ids(cards, q, kind, i + 1);
        assert(cards.skip(i)[0] == cards[i]);
        assert(cards.skip(i).drop_first() =~= cards.skip(i + 1));
        if card_matches_query(&cards[i], q) {
            let x = SortEnt { key: card_key(kind, &cards[i]), idx: i as usize, id: cards[i].id };
            assert(match_ents(cards, q, kind, i) == seq![x] + match_ents(cards, q, kind, i + 1));
            assert((seq![x] + match_ents(cards, q, kind, i + 1))[0] == x);
            assert((seq![x] + match_ents(cards, q, kind, i + 1)).drop_first() =~= match_ents(
                cards,
                q,
                kind,
                i + 1,
            ));
            assert(ents_ids(match_ents(cards, q, kind, i)) =~= matching_ids(cards.skip(i), q));
        }
    } else {
        assert(cards.skip(i).len() == 0);
    }
}

fn card_matches_query_exec(c: &Card, q: &Vec<u8>, qnum: &Option<i64>) -> (r: bool)
    requires
        match qnum {
            Some(n) => dec_ok(q@) && n == dec_value(q@),
            None => !dec_ok(q@),
        },
    ensures
        r == card_matches_query(c, q@),
{
    if q.len() == 0 {
        true
    } else {
        match qnum {
            Some(n) => c.nid == *n,
            None => false,
        }
    }
}

/// Collects the matching card ids in storage order, tagged with sort keys.
fn collect_matches(cards: &Vec<Card>, q: &Vec<u8>, qnum: &Option<i64>, kind: &SortKind) -> (r: Vec<
    SortEnt,
>)
    requires
        match qnum {
            Some(n) => dec_ok(q@) && n == dec_value(q@),
            None => !dec_ok(q@),
        },
    ensures
        r@ == match_ents(cards@, q@, kind, 0),
{
    let mut out: Vec<SortEnt> = Vec::new();
    let mut i: usize = 0;
    while i < cards.len()
        invariant
            i <= cards@.len(),
            match qnum {
                Some(n) => dec_ok(q@) && n == dec_value(q@),
                None => !dec_ok(q@),
            },
            out@ + match_ents(cards@, q@, kind, i as int) == match_ents(cards@, q@, kind, 0),
        decreases cards@.len() - i,
    {
        let ghost out0 = out@;
        if card_matches_query_exec(&cards[i], q, qnum) {
            let key = card_key_exec(kind, &cards[i]);
            out.push(SortEnt { key, idx: i, id: cards[i].id });
            proof {
                let x = SortEnt {
                    key: card_key(kind, &cards@[i as int]),
                    idx: i,
                    id: cards@[i as int].id,
                };
                assert(match_ents(cards@, q@, kind, i as int) == seq![x] + match_ents(
                    cards@,
                    q@,
                    kind,
                    i + 1,
                ));
                assert(out0.push(x) + match_ents(cards@, q@, kind, i + 1) =~= out0 + (seq![x]
                    + match_ents(cards@, q@, kind, i + 1)));
            }
        }
        i = i + 1;
    }
    proof {
        assert(match_ents(cards@, q@, kind, cards@.len() as int).len() == 0);
        assert(out@ + Seq::<SortEnt>::empty() =~= out@);
    }
    out
}

/// The ids carried by a list of sort entries, in order.
pub open spec fn ents_ids(s: Seq<SortEnt>) -> Seq<i64>
    decreases s.len(),
{
    if s.len() == 0 {
        Seq::empty()
    } else {
        seq![s[0].id] + ents_ids(s.drop_first())
    }
}


/// The matching card ids, ordered as requested.  For a builtin order the
/// result is the key-sorted permutation of the storage-order matches (ties
/// keep storage order); every other mode keeps storage order.
pub fn search_cards(cards: &Vec<Card>, search: &Vec<u8>, mode: SortMode) -> (r: Result<
    Vec<i64>,
    AnkiError,
>)
    ensures
        match r {
            Ok(ids) => query_ok(search@) && (match mode {
                SortMode::Builtin { kind, reverse } => exists|s: Seq<SortEnt>|
                    {
                        &&& ids@ == ents_ids(s)
                        &&& #[trigger] s.to_multiset() == match_ents(
                            cards@,
                            search@,
                            &kind,
                            0,
                        ).to_multiset()
                        &&& ents_sorted(reverse, s)
                    },
                _ => ids@ == matching_ids(cards@, search@),
            }),
            Err(e) => !query_ok(search@) && (e matches AnkiError::InvalidInput { info } && info@
                == "invalid search".spec_bytes()),
        },
{
    let qnum = parse_dec(search);
    if search.len() > 0 && qnum.is_none() {
        return Err(AnkiError::invalid_input("invalid search"));
    }
    match mode {
        SortMode::Builtin { kind, reverse } => {
            let ents = collect_matches(cards, search, &qnum, &kind);
            let sorted = sort_ents(ents, reverse);
            let ids = ents_to_ids(&sorted);
            proof {
                assert(ids@ == ents_ids(sorted@));
            }
            Ok(ids)
        },
        _ => {
            let kind = SortKind::NoteCreation;
            let ents = collect_matches(cards, search, &qnum, &kind);
            let ids = ents_to_ids(&ents);
            proof {
                lemma_match_ents_ids(cards@, search@, &kind, 0);
                assert(cards@.skip(0) =~= cards@);
            }
            Ok(ids)
        },
    }
}


fn ents_to_ids(s: &Vec<SortEnt>) -> (r: Vec<i64>)
    ensures
        r@ == ents_ids(s@),
{
    let mut out: Vec<i64> = Vec::new();
    let mut i: usize = 0;
    proof {
        assert(s@.skip(0) =~= s@);
        assert(out@ + ents_ids(s@) =~= ents_ids(s@));
    }
    while i < s.len()
        invariant
            i <= s@.len(),
            out@ + ents_ids(s@.skip(i as int)) == ents_ids(s@),
        decreases s@.len() - i,
    {
        proof {
            assert(s@.skip(i as int)[0] == s@[i as int]);
            assert(s@.skip(i as int).drop_first() =~= s@.skip(i + 1));
        }
        let ghost o0 = out@;
        out.push(s[i].id);
        proof {
            assert(o0.push(s@[i as int].id) + ents_ids(s@.skip(i + 1)) =~= o0 + (seq![
                s@[i as int].id,
            ] + ents_ids(s@.skip(i + 1))));
        }
        i = i + 1;
    }
    proof {
        assert(s@.skip(s@.len() as int).len() == 0);
        assert(out@ + Seq::<i64>::empty() =~= out@);
    }
    out
}

/// The distinct note ids of the matching cards, first appearance first.
pub fn search_notes(cards: &Vec<Card>, search: &Vec<u8>) -> (r: Result<Vec<i64>, AnkiError>)
    ensures
        match r {
            Ok(ids) => query_ok(search@) && ids@ == matching_nids(
                cards@,
                search@,
                Seq::empty(),
            ),
            Err(e) => !query_ok(search@) && (e matches AnkiError::InvalidInput { info } && info@
                == "invalid search".spec_bytes()),
        },
{
    let qnum = parse_dec(search);
    if search.len() > 0 && qnum.is_none() {
        return Err(AnkiError::invalid_input("invalid search"));
    }
    let mut out: Vec<i64> = Vec::new();
    let mut i: usize = 0;
    proof {
        assert(cards@.skip(0) =~= cards@);
        assert(out@ =~= Seq::<i64>::empty());
    }
    while i < cards.len()
        invariant
            i <= cards@.len(),
            match qnum {
                Some(n) => dec_ok(search@) && n == dec_value(search@),
                None => !dec_ok(search@),
            },
            out@ + matching_nids(cards@.skip(i as int), search@, out@) == matching_nids(
                cards@,
                search@,
                Seq::empty(),
            ),
        decreases cards@.len() - i,
    {
        proof {
            assert(cards@.skip(i as int)[0] == cards@[i as int]);
            assert(cards@.skip(i as int).drop_first() =~= cards@.skip(i + 1));
        }
        let ghost o0 = out@;
        let matched = card_matches_query_exec(&cards[i], search, &qnum);
        let mut seen = false;
        let nid = cards[i].nid;
        let mut j: usize = 0;
        while j < out.len()
            invariant
                j <= out@.len(),
                out@ == o0,
                seen == exists|k: int| 0 <= k < j && o0[k] == nid,
            decreases out@.len() - j,
        {
            if out[j] == nid {
                seen = true;
            }
            j = j + 1;
        }
        proof {
            assert(seen == o0.contains(nid));
        }
        if matched && !seen {
            out.push(nid);
            proof {
                assert(o0.push(nid) + matching_nids(cards@.skip(i + 1), search@, o0.push(nid))
                    =~= o0 + (seq![nid] + matching_nids(
                    cards@.skip(i + 1),
                    search@,
                    o0.push(nid),
                )));
            }
        }
        i = i + 1;
    }
    proof {
        assert(cards@.skip(cards@.len() as int).len() == 0);
        assert(out@ + Seq::<i64>::empty() =~= out@);
    }
    Ok(out)
}

} // verus!
