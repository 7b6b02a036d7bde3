//! Normalized per-file capture metadata.
//!
//! A capture record holds what the rename grammar needs from a photo's
//! embedded metadata: an optional coordinate pair (present only when both
//! latitude and longitude are well-formed rational triples) and an optional
//! creation date (the lexicographically smallest of the normalized
//! timestamp fields, which for the zero-padded timestamp format is the
//! chronologically earliest).
use crate::coords::{dms_to_microdeg, spec_dms_close, spec_triple_wf, CoordinatePair};
use crate::strutil::push_char;
use vstd::prelude::*;

verus! {

/// What one input file contributes to the plan.
pub struct CaptureRecord {
    /// Present only when both coordinate fields were well formed.
    pub coords: Option<CoordinatePair>,
    /// The earliest normalized timestamp, if any field contributed one.
    pub date: Option<String>,
}

/// Timestamp normalization: every ':' separator becomes '.'.
pub open spec fn spec_normalize_stamp(s: Seq<char>) -> Seq<char> {
    s.map_values(|c: char| if c == ':' { '.' } else { c })
}

/// `a` is lexicographically at most `b` (by character code).
pub open spec fn spec_lex_le(a: Seq<char>, b: Seq<char>) -> bool
    decreases a.len(),
{
    if a.len() == 0 {
        true
    } else if b.len() == 0 {
        false
    } else if a[0] == b[0] {
        spec_lex_le(a.drop_first(), b.drop_first())
    } else {
        (a[0] as u32) < (b[0] as u32)
    }
}

/// Stamp list of owned strings seen as character sequences.
pub open spec fn view_stamps(ss: Seq<String>) -> Seq<Seq<char>> {
    ss.map_values(|s: String| s@)
}

/// The lexicographically smallest normalization of the non-empty stamps,
/// or `None` where no field contributed one.
pub open spec fn spec_earliest(stamps: Seq<Seq<char>>) -> Option<Seq<char>>
    decreases stamps.len(),
{
    if stamps.len() == 0 {
        None
    } else {
        let rest = spec_earliest(stamps.drop_first());
        if stamps[0].len() == 0 {
            rest
        } else {
            let hn = spec_normalize_stamp(stamps[0]);
            match rest {
                None => Some(hn),
                Some(m) => if spec_lex_le(hn, m) {
                    Some(hn)
                } else {
                    Some(m)
                },
            }
        }
    }
}

/// Replaces every ':' with '.', the shape dates take in file names.
pub fn normalize_timestamp(s: &str) -> (r: String)
    ensures
        r@ == spec_normalize_stamp(s@),
{
    let n = s.unicode_len();
    let mut out = String::new();
    let mut i: usize = 0;
    while i < n
        invariant
            n == s@.len(),
            0 <= i <= n,
            out@ =~= spec_normalize_stamp(s@).take(i as int),
        decreases n - i,
    {
        let c = s.get_char(i);
        if c == ':' {
            push_char(&mut out, '.');
        } else {
            push_char(&mut out, c);
        }
        proof {
            assert(out@ =~= spec_normalize_stamp(s@).take(i as int + 1));
        }
        i += 1;
    }
    proof {
        assert(spec_normalize_stamp(s@).take(n as int) =~= spec_normalize_stamp(s@));
    }
    out
}

fn lex_le(a: &String, b: &String) -> (r: bool)
    ensures
        r == spec_lex_le(a@, b@),
{
    let na = a.as_str().unicode_len();
    let nb = b.as_str().unicode_len();
    let mut i: usize = 0;
    proof {
        assert(a@.skip(0) =~= a@);
        assert(b@.skip(0) =~= b@);
    }
    loop
        invariant
            i <= na,
            i <= nb,
            na == a@.len(),
            nb == b@.len(),
            spec_lex_le(a@, b@) == spec_lex_le(a@.skip(i as int), b@.skip(i as int)),
        decreases na - i,
    {
        if i == na {
            proof {
                assert(a@.skip(i as int).len() == 0);
            }
            return true;
        }
        if i == nb {
            proof {
                assert(b@.skip(i as int).len() == 0);
                assert(a@.skip(i as int).len() > 0);
            }
            return false;
        }
        let ca = a.as_str().get_char(i);
        let cb = b.as_str().get_char(i);
        proof {
            assert(a@.skip(i as int)[0] == a@[i as int]);
            assert(b@.skip(i as int)[0] == b@[i as int]);
            assert(a@.skip(i as int).drop_first() =~= a@.skip(i as int + 1));
            assert(b@.skip(i as int).drop_first() =~= b@.skip(i as int + 1));
        }
        if ca == cb {
            i += 1;
        } else {
            return (ca as u32) < (cb as u32);
        }
    }
}

/// Picks the earliest (lexicographically smallest after normalization)
/// of the contributed timestamps.
pub fn earliest_stamp(stamps: &Vec<String>) -> (r: Option<String>)
    ensures
        match r {
            Some(d) => spec_earliest(view_stamps(stamps@)) == Some(d@),
            None => spec_earliest(view_stamps(stamps@)) is None,
        },
{
    let n = stamps.len();
    let mut best: Option<String> = None;
    let mut i: usize = n;
    proof {
        assert(view_stamps(stamps@).skip(n as int).len() == 0);
    }
    while i > 0
        invariant
            0 <= i <= n,
            n == stamps@.len(),
            match best {
                Some(d) => spec_earliest(view_stamps(stamps@).skip(i as int)) == Some(d@),
                None => spec_earliest(view_stamps(stamps@).skip(i as int)) is None,
            },
        decreases i,
    {
        i -= 1;
        proof {
            assert(view_stamps(stamps@).skip(i as int)[0] == stamps@[i as int]@);
            assert(view_stamps(stamps@).skip(i as int).drop_first() =~= view_stamps(
                stamps@,
            ).skip(i as int + 1));
        }
        if stamps[i].as_str().unicode_len() > 0 {
            let hn = normalize_timestamp(stamps[i].as_str());
            best = match best {
                None => Some(hn),
                Some(m) => {
                    if lex_le(&hn, &m) {
                        Some(hn)
                    } else {
                        Some(m)
                    }
                },
            };
        }
    }
    proof {
        assert(view_stamps(stamps@).skip(0) =~= view_stamps(stamps@));
    }
    best
}

/// The optional field holds a well-formed rational triple.
pub open spec fn spec_dms_opt_wf(o: Option<Vec<(u32, u32)>>) -> bool {
    match o {
        Some(v) => spec_triple_wf(v@),
        None => false,
    }
}

/// Builds the normalized record of one file from its raw metadata fields:
/// the two coordinate triples (absent or as read) and the raw timestamp
/// field values in field order. Coordinates are present in the record only
/// when both triples are well formed; the date is the earliest normalized
/// non-empty stamp.
pub fn build_record(
    lat_dms: &Option<Vec<(u32, u32)>>,
    lon_dms: &Option<Vec<(u32, u32)>>,
    stamps: &Vec<String>,
) -> (r: CaptureRecord)
    ensures
        r.coords is Some <==> spec_dms_opt_wf(*lat_dms) && spec_dms_opt_wf(*lon_dms),
        r.coords matches Some(p) ==> lat_dms matches Some(lv) && spec_dms_close(
            lv@,
            p.lat as int,
        ),
        r.coords matches Some(p) ==> lon_dms matches Some(nv) && spec_dms_close(
            nv@,
            p.lon as int,
        ),
        match r.date {
            Some(d) => spec_earliest(view_stamps(stamps@)) == Some(d@),
            None => spec_earliest(view_stamps(stamps@)) is None,
        },
{
    let lat = match lat_dms {
        Some(lv) => dms_to_microdeg(lv),
        None => None,
    };
    let lon = match lon_dms {
        Some(nv) => dms_to_microdeg(nv),
        None => None,
    };
    let coords = match (lat, lon) {
        (Some(la), Some(lo)) => Some(CoordinatePair { lat: la, lon: lo }),
        _ => None,
    };
    let date = earliest_stamp(stamps);
    CaptureRecord { coords, date }
}

} // verus!
