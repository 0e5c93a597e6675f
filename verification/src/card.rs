//! Cards as stored in the collection, and their conversions to and from the
//! wire form.  Type and queue are closed enumerations; a wire card carrying
//! an unknown number for either is rejected as invalid input, never crashes.

use vstd::prelude::*;
use vstd::string::StringSliceAdditionalSpecFns;
use crate::err::AnkiError;
use crate::proto::WireCard;

verus! {

pub enum CardType {
    New,
    Learn,
    Review,
    Relearn,
}

pub enum CardQueue {
    /// due is the order cards are shown in
    New,
    /// due is a unix timestamp
    Learn,
    /// due is days since creation date
    Review,
    DayLearn,
    /// due is a unix timestamp.
    PreviewRepeat,
    /// cards are not due in these states
    Suspended,
    SchedBuried,
    UserBuried,
}

pub open spec fn card_type_code(t: &CardType) -> u32 {
    match t {
        CardType::New => 0,
        CardType::Learn => 1,
        CardType::Review => 2,
        CardType::Relearn => 3,
    }
}

pub open spec fn card_queue_code(q: &CardQueue) -> i32 {
    match q {
        CardQueue::New => 0i32,
        CardQueue::Learn => 1i32,
        CardQueue::Review => 2i32,
        CardQueue::DayLearn => 3i32,
        CardQueue::PreviewRepeat => 4i32,
        CardQueue::Suspended => -1i32,
        CardQueue::SchedBuried => -2i32,
        CardQueue::UserBuried => -3i32,
    }
}

pub struct Card {
    pub id: i64,
    pub nid: i64,
    pub did: i64,
    pub ord: u32,
    pub mtime: i64,
    pub usn: i32,
    pub ctype: CardType,
    pub queue: CardQueue,
    pub due: i32,
    pub ivl: u32,
    pub factor: u32,
    pub reps: u32,
    pub lapses: u32,
    pub left: u32,
    pub odue: i32,
    pub odid: i64,
    pub flags: u32,
    pub data: Vec<u8>,
}

/// Whether a wire card's type and queue numbers are recognised.
pub open spec fn valid_wire_card(c: &WireCard) -> bool {
    c.ctype <= 3 && -3 <= c.queue <= 4
}

/// The wire card and the native card carry the same values.
pub open spec fn card_matches_wire(c: &Card, w: &WireCard) -> bool {
    &&& c.id == w.id
    &&& c.nid == w.nid
    &&& c.did == w.did
    &&& c.ord == w.ord
    &&& c.mtime == w.mtime
    &&& c.usn == w.usn
    &&& card_type_code(&c.ctype) == w.ctype
    &&& card_queue_code(&c.queue) == w.queue
    &&& c.due == w.due
    &&& c.ivl == w.ivl
    &&& c.factor == w.factor
    &&& c.reps == w.reps
    &&& c.lapses == w.lapses
    &&& c.left == w.left
    &&& c.odue == w.odue
    &&& c.odid == w.odid
    &&& c.flags == w.flags
    &&& c.data@ == w.data@
}

fn card_type_from_wire(t: u32) -> (r: Option<CardType>)
    ensures
        t <= 3 ==> (r matches Some(ct) && card_type_code(&ct) == t),
        t > 3 ==> r is None,
{
    if t == 0 {
        Some(CardType::New)
    } else if t == 1 {
        Some(CardType::Learn)
    } else if t == 2 {
        Some(CardType::Review)
    } else if t == 3 {
        Some(CardType::Relearn)
    } else {
        None
    }
}

fn card_queue_from_wire(q: i32) -> (r: Option<CardQueue>)
    ensures
        -3 <= q <= 4 ==> (r matches Some(cq) && card_queue_code(&cq) == q),
        !(-3 <= q <= 4) ==> r is None,
{
    if q == 0 {
        Some(CardQueue::New)
    } else if q == 1 {
        Some(CardQueue::Learn)
    } else if q == 2 {
        Some(CardQueue::Review)
    } else if q == 3 {
        Some(CardQueue::DayLearn)
    } else if q == 4 {
        Some(CardQueue::PreviewRepeat)
    } else if q == -1 {
        Some(CardQueue::Suspended)
    } else if q == -2 {
        Some(CardQueue::SchedBuried)
    } else if q == -3 {
        Some(CardQueue::UserBuried)
    } else {
        None
    }
}

/// Validates and converts a wire card; rejects unknown type or queue
/// numbers as invalid input.
pub fn pbcard_to_native(c: WireCard) -> (r: Result<Card, AnkiError>)
    ensures
        match r {
            Ok(card) => valid_wire_card(&c) && card_matches_wire(&card, &c) && card.data == c.data,
            Err(e) => !valid_wire_card(&c) && (e matches AnkiError::InvalidInput { info } && info@
                == (if c.ctype > 3 {
                    "invalid card type".spec_bytes()
                } else {
                    "invalid card queue".spec_bytes()
                })),
        },
{
    let ctype = match card_type_from_wire(c.ctype) {
        Some(t) => t,
        None => {
            return Err(AnkiError::invalid_input("invalid card type"));
        },
    };
    let queue = match card_queue_from_wire(c.queue) {
        Some(q) => q,
        None => {
            return Err(AnkiError::invalid_input("invalid card queue"));
        },
    };
    Ok(
        Card {
            id: c.id,
            nid: c.nid,
            did: c.did,
            ord: c.ord,
            mtime: c.mtime,
            usn: c.usn,
            ctype,
            queue,
            due: c.due,
            ivl: c.ivl,
            factor: c.factor,
            reps: c.reps,
            lapses: c.lapses,
            left: c.left,
            odue: c.odue,
            odid: c.odid,
            flags: c.flags,
            data: c.data,
        },
    )
}

/// Copies a byte vector.
pub fn copy_bytes(v: &Vec<u8>) -> (r: Vec<u8>)
    ensures
        r@ == v@,
{
    let mut out: Vec<u8> = Vec::new();
    crate::text::append_bytes(&mut out, v);
    out
}

/// Converts a stored card to its wire form.
pub fn card_to_pb(c: &Card) -> (r: WireCard)
    ensures
        card_matches_wire(c, &r),
{
    WireCard {
        id: c.id,
        nid: c.nid,
        did: c.did,
        ord: c.ord,
        mtime: c.mtime,
        usn: c.usn,
        ctype: match &c.ctype {
            CardType::New => 0,
            CardType::Learn => 1,
            CardType::Review => 2,
            CardType::Relearn => 3,
        },
        queue: match &c.queue {
            CardQueue::New => 0i32,
            CardQueue::Learn => 1i32,
            CardQueue::Review => 2i32,
            CardQueue::DayLearn => 3i32,
            CardQueue::PreviewRepeat => 4i32,
            CardQueue::Suspended => -1i32,
            CardQueue::SchedBuried => -2i32,
            CardQueue::UserBuried => -3i32,
        },
        due: c.due,
        ivl: c.ivl,
        factor: c.factor,
        reps: c.reps,
        lapses: c.lapses,
        left: c.left,
        odue: c.odue,
        odid: c.odid,
        flags: c.flags,
        data: copy_bytes(&c.data),
    }
}

} // verus!
