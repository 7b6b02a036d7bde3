//! Deterministic synthesis of the new file stem.
//!
//! The stem is the ordered concatenation of a zero-padded four-digit
//! sequence number, an optional underscore-prefixed date, and an optional
//! underscore-prefixed place name; failure markers and absent coordinates
//! contribute no place segment. The planner is pure: the stem is a
//! function of the index, the record and the resolved place alone.
use crate::place::{PlaceOutcome, PlaceView};
use crate::record::CaptureRecord;
use crate::strutil::{lemma_dec_len_pos, lemma_dec_len_small, push_char, spec_dec, u64_to_dec};
use vstd::prelude::*;

verus! {

/// The sequence number rendered to at least four digits, zero-padded.
pub open spec fn spec_pad4(i: nat) -> Seq<char> {
    let d = spec_dec(i);
    if d.len() >= 4 {
        d
    } else {
        Seq::new((4 - d.len()) as nat, |x: int| '0') + d
    }
}

/// The date segment of a stem.
pub open spec fn spec_date_segment(date: Option<Seq<char>>) -> Seq<char> {
    match date {
        Some(d) => seq!['_'] + d,
        None => Seq::empty(),
    }
}

/// The place segment of a stem: only a resolved name contributes one.
pub open spec fn spec_place_segment(place: Option<PlaceView>) -> Seq<char> {
    match place {
        Some(PlaceView::Name(s)) => seq!['_'] + s,
        _ => Seq::empty(),
    }
}

/// The full stem grammar.
pub open spec fn spec_plan(i: nat, date: Option<Seq<char>>, place: Option<PlaceView>) -> Seq<
    char,
> {
    spec_pad4(i) + spec_date_segment(date) + spec_place_segment(place)
}

/// The record's date as a character sequence.
pub open spec fn spec_date_of(r: &CaptureRecord) -> Option<Seq<char>> {
    match r.date {
        Some(d) => Some(d@),
        None => None,
    }
}

/// The optional outcome's mathematical value.
pub open spec fn spec_place_of(p: &Option<PlaceOutcome>) -> Option<PlaceView> {
    match p {
        Some(o) => Some(o@),
        None => None,
    }
}

fn pad4(i: u64) -> (r: String)
    ensures
        r@ == spec_pad4(i as nat),
{
    let d = u64_to_dec(i);
    let dl = d.as_str().unicode_len();
    if dl >= 4 {
        return d;
    }
    let mut out = String::new();
    let mut k: usize = dl;
    while k < 4
        invariant
            dl <= k <= 4,
            out@ =~= Seq::new((k - dl) as nat, |x: int| '0'),
        decreases 4 - k,
    {
        push_char(&mut out, '0');
        proof {
            assert(out@ =~= Seq::new((k + 1 - dl) as nat, |x: int| '0'));
        }
        k += 1;
    }
    out.append(d.as_str());
    proof {
        assert(out@ =~= spec_pad4(i as nat));
    }
    out
}

/// Synthesizes the stem for the file at 1-based position `index` from its
/// record and its resolved place. Pure: equal inputs always yield equal
/// stems.
pub fn plan(index: u64, record: &CaptureRecord, place: &Option<PlaceOutcome>) -> (r: String)
    ensures
        r@ == spec_plan(index as nat, spec_date_of(record), spec_place_of(place)),
{
    let mut out = pad4(index);
    match &record.date {
        Some(d) => {
            push_char(&mut out, '_');
            out.append(d.as_str());
        },
        None => {
        },
    }
    match place {
        Some(PlaceOutcome::Name(s)) => {
            push_char(&mut out, '_');
            out.append(s.as_str());
        },
        _ => {
        },
    }
    proof {
        assert(out@ =~= spec_plan(index as nat, spec_date_of(record), spec_place_of(place)));
    }
    out
}

/// For indexes up to 9999 the sequence segment is exactly four digits, and
/// it is always the first thing in the stem, whatever the date and place
/// contribute.
pub proof fn lemma_plan_prefix(i: nat, date: Option<Seq<char>>, place: Option<PlaceView>)
    requires
        i <= 9999,
    ensures
        spec_pad4(i).len() == 4,
        spec_plan(i, date, place).len() >= 4,
        spec_plan(i, date, place).subrange(0, 4) == spec_pad4(i),
{
    lemma_dec_len_pos(i);
    lemma_dec_len_small(i);
    assert(spec_plan(i, date, place).subrange(0, 4) =~= spec_pad4(i));
}

} // verus!
