//! Deterministic texts for time spans and study summaries, over the
//! engine's modeled catalog.

use vstd::prelude::*;
use vstd::string::StringSliceAdditionalSpecFns;
use crate::text::{append_lit, append_u64, dec_nat};

verus! {

/// The amount shown for a span, in its natural unit.
pub open spec fn span_amount(s: u32) -> int {
    if s < 60 {
        s as int
    } else if s < 3600 {
        s as int / 60
    } else if s < 86400 {
        s as int / 3600
    } else if s < 2592000 {
        s as int / 86400
    } else if s < 31536000 {
        s as int / 2592000
    } else {
        s as int / 31536000
    }
}

pub open spec fn span_unit_long(s: u32) -> Seq<u8> {
    if s < 60 {
        " seconds".spec_bytes()
    } else if s < 3600 {
        " minutes".spec_bytes()
    } else if s < 86400 {
        " hours".spec_bytes()
    } else if s < 2592000 {
        " days".spec_bytes()
    } else if s < 31536000 {
        " months".spec_bytes()
    } else {
        " years".spec_bytes()
    }
}

pub open spec fn span_unit_short(s: u32) -> Seq<u8> {
    if s < 60 {
        "s".spec_bytes()
    } else if s < 3600 {
        "m".spec_bytes()
    } else if s < 86400 {
        "h".spec_bytes()
    } else if s < 2592000 {
        "d".spec_bytes()
    } else if s < 31536000 {
        "mo".spec_bytes()
    } else {
        "y".spec_bytes()
    }
}

/// Exact seconds; the precise display form.
pub open spec fn precise_text(s: u32) -> Seq<u8> {
    dec_nat(s as nat) + " seconds".spec_bytes()
}

/// Largest-unit form used for intervals.
pub open spec fn interval_text(s: u32) -> Seq<u8> {
    dec_nat(span_amount(s) as nat) + span_unit_long(s)
}

/// Compact form used on answer buttons.
pub open spec fn button_text(s: u32) -> Seq<u8> {
    dec_nat(span_amount(s) as nat) + span_unit_short(s)
}

fn span_amount_exec(s: u32) -> (r: u64)
    ensures
        r == span_amount(s),
{
    if s < 60 {
        s as u64
    } else if s < 3600 {
        (s / 60) as u64
    } else if s < 86400 {
        (s / 3600) as u64
    } else if s < 2592000 {
        (s / 86400) as u64
    } else if s < 31536000 {
        (s / 2592000) as u64
    } else {
        (s / 31536000) as u64
    }
}

/// Formats a span precisely, in seconds.
pub fn time_span_precise(seconds: u32) -> (r: Vec<u8>)
    ensures
        r@ == precise_text(seconds),
{
    let mut out: Vec<u8> = Vec::new();
    append_u64(&mut out, seconds as u64);
    append_lit(&mut out, " seconds");
    out
}

/// Formats a span in its natural unit.
pub fn time_span_intervals(seconds: u32) -> (r: Vec<u8>)
    ensures
        r@ == interval_text(seconds),
{
    let mut out: Vec<u8> = Vec::new();
    append_u64(&mut out, span_amount_exec(seconds));
    if seconds < 60 {
        append_lit(&mut out, " seconds");
    } else if seconds < 3600 {
        append_lit(&mut out, " minutes");
    } else if seconds < 86400 {
        append_lit(&mut out, " hours");
    } else if seconds < 2592000 {
        append_lit(&mut out, " days");
    } else if seconds < 31536000 {
        append_lit(&mut out, " months");
    } else {
        append_lit(&mut out, " years");
    }
    out
}

/// Formats a span compactly for answer buttons.
pub fn answer_button_time(seconds: u32) -> (r: Vec<u8>)
    ensures
        r@ == button_text(seconds),
{
    let mut out: Vec<u8> = Vec::new();
    append_u64(&mut out, span_amount_exec(seconds));
    if seconds < 60 {
        append_lit(&mut out, "s");
    } else if seconds < 3600 {
        append_lit(&mut out, "m");
    } else if seconds < 86400 {
        append_lit(&mut out, "h");
    } else if seconds < 2592000 {
        append_lit(&mut out, "d");
    } else if seconds < 31536000 {
        append_lit(&mut out, "mo");
    } else {
        append_lit(&mut out, "y");
    }
    out
}

/// The daily study summary line.
pub open spec fn studied_today_text(cards: u32, seconds: u32) -> Seq<u8> {
    "studied ".spec_bytes() + dec_nat(cards as nat) + " cards in ".spec_bytes() + dec_nat(
        seconds as nat,
    ) + " seconds today".spec_bytes()
}

pub fn studied_today(cards: u32, seconds: u32) -> (r: Vec<u8>)
    ensures
        r@ == studied_today_text(cards, seconds),
{
    let mut out: Vec<u8> = Vec::new();
    append_lit(&mut out, "studied ");
    append_u64(&mut out, cards as u64);
    append_lit(&mut out, " cards in ");
    append_u64(&mut out, seconds as u64);
    append_lit(&mut out, " seconds today");
    out
}

/// The learning-finished congratulations line.
pub open spec fn learning_congrats_text(remaining: u32, next_due: u32) -> Seq<u8> {
    "next learning card in ".spec_bytes() + interval_text(next_due) + "; ".spec_bytes() + dec_nat(
        remaining as nat,
    ) + " remaining".spec_bytes()
}

pub fn learning_congrats(remaining: u32, next_due: u32) -> (r: Vec<u8>)
    ensures
        r@ == learning_congrats_text(remaining, next_due),
{
    let mut out: Vec<u8> = Vec::new();
    append_lit(&mut out, "next learning card in ");
    let span = time_span_intervals(next_due);
    crate::text::append_bytes(&mut out, &span);
    append_lit(&mut out, "; ");
    append_u64(&mut out, remaining as u64);
    append_lit(&mut out, " remaining");
    out
}

} // verus!
