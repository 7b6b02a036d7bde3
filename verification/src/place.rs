//! Resolution of a geocoding response to a place name.
//!
//! The response of the geocoding service arrives already decoded into the
//! plain record types below. The search walks results in order, and each
//! result's address components in order, for the first component tagged
//! both as political and as the administrative area the names come from;
//! its long name is preferred and its short name is the fallback.
use vstd::prelude::*;

verus! {

/// What resolving a coordinate pair produced; failure markers are cached
/// like names so a failing coordinate is never retried.
pub enum PlaceOutcome {
    /// A resolved place name.
    Name(String),
    /// No matching component anywhere in the response, or no parseable
    /// response at all.
    NotFound,
    /// A matching component without either name.
    UnknownStructure,
}

/// The mathematical value of a `PlaceOutcome`.
pub enum PlaceView {
    Name(Seq<char>),
    NotFound,
    UnknownStructure,
}

impl View for PlaceOutcome {
    type V = PlaceView;

    open spec fn view(&self) -> PlaceView {
        match self {
            PlaceOutcome::Name(s) => PlaceView::Name(s@),
            PlaceOutcome::NotFound => PlaceView::NotFound,
            PlaceOutcome::UnknownStructure => PlaceView::UnknownStructure,
        }
    }
}

/// One address component of a geocoding result.
pub struct AddressComponent {
    pub long_name: Option<String>,
    pub short_name: Option<String>,
    pub types: Vec<String>,
}

/// One result of a geocoding response.
pub struct GeoResult {
    pub address_components: Vec<AddressComponent>,
}

/// A decoded geocoding response.
pub struct GeoResponse {
    pub results: Vec<GeoResult>,
}

/// The component carries the given type tag.
pub open spec fn spec_has_type(c: &AddressComponent, t: Seq<char>) -> bool {
    exists|i: int| 0 <= i < c.types@.len() && c.types@[i]@ == t
}

/// The component is tagged both political and administrative area level 3.
pub open spec fn spec_component_matches(c: &AddressComponent) -> bool {
    spec_has_type(c, "political"@) && spec_has_type(c, "administrative_area_level_3"@)
}

/// The first matching component of a component list.
pub open spec fn spec_first_match_in(comps: Seq<AddressComponent>) -> Option<AddressComponent>
    decreases comps.len(),
{
    if comps.len() == 0 {
        None
    } else if spec_component_matches(&comps[0]) {
        Some(comps[0])
    } else {
        spec_first_match_in(comps.drop_first())
    }
}

/// The first matching component across all results, in results order then
/// component order.
pub open spec fn spec_first_match(results: Seq<GeoResult>) -> Option<AddressComponent>
    decreases results.len(),
{
    if results.len() == 0 {
        None
    } else {
        match spec_first_match_in(results[0].address_components@) {
            Some(c) => Some(c),
            None => spec_first_match(results.drop_first()),
        }
    }
}

/// What a response resolves to: the first matching component's long name,
/// else its short name, else the unknown-structure marker; no matching
/// component anywhere is the not-found marker.
pub open spec fn spec_city_of(resp: &GeoResponse) -> PlaceView {
    match spec_first_match(resp.results@) {
        None => PlaceView::NotFound,
        Some(c) => match c.long_name {
            Some(l) => PlaceView::Name(l@),
            None => match c.short_name {
                Some(sn) => PlaceView::Name(sn@),
                None => PlaceView::UnknownStructure,
            },
        },
    }
}

fn contains_str(v: &Vec<String>, w: &String) -> (r: bool)
    ensures
        r == exists|i: int| 0 <= i < v@.len() && v@[i]@ == w@,
{
    let n = v.len();
    let mut i: usize = 0;
    while i < n
        invariant
            n == v@.len(),
            0 <= i <= n,
            forall|x: int| 0 <= x < i ==> v@[x]@ != w@,
        decreases n - i,
    {
        if v[i] == *w {
            return true;
        }
        i += 1;
    }
    false
}

fn component_matches(c: &AddressComponent) -> (r: bool)
    ensures
        r == spec_component_matches(c),
{
    let political = String::from_str("political");
    let area = String::from_str("administrative_area_level_3");
    let has_political = contains_str(&c.types, &political);
    let has_area = contains_str(&c.types, &area);
    has_political && has_area
}

/// Finds the place name a decoded response resolves to.
pub fn find_city_name(resp: &GeoResponse) -> (r: PlaceOutcome)
    ensures
        r@ == spec_city_of(resp),
{
    let nresults = resp.results.len();
    let mut ri: usize = 0;
    proof {
        assert(resp.results@.skip(0) =~= resp.results@);
    }
    while ri < nresults
        invariant
            nresults == resp.results@.len(),
            0 <= ri <= nresults,
            spec_first_match(resp.results@) == spec_first_match(resp.results@.skip(ri as int)),
        decreases nresults - ri,
    {
        let comps = &resp.results[ri].address_components;
        let ncomps = comps.len();
        let mut ci: usize = 0;
        proof {
            assert(resp.results@.skip(ri as int)[0] == resp.results@[ri as int]);
            assert(comps@.skip(0) =~= comps@);
        }
        while ci < ncomps
            invariant
                nresults == resp.results@.len(),
                0 <= ri < nresults,
                ncomps == comps@.len(),
                comps@ == resp.results@[ri as int].address_components@,
                spec_first_match(resp.results@) == spec_first_match(
                    resp.results@.skip(ri as int),
                ),
                0 <= ci <= ncomps,
                spec_first_match_in(comps@) == spec_first_match_in(comps@.skip(ci as int)),
            decreases ncomps - ci,
        {
            proof {
                assert(comps@.skip(ci as int)[0] == comps@[ci as int]);
                assert(comps@.skip(ci as int).drop_first() =~= comps@.skip(ci as int + 1));
            }
            if component_matches(&comps[ci]) {
                proof {
                    assert(spec_first_match_in(comps@) == Some(comps@[ci as int]));
                    assert(resp.results@.skip(ri as int)[0] == resp.results@[ri as int]);
                    assert(spec_first_match(resp.results@) == Some(comps@[ci as int]));
                }
                let c = &comps[ci];
                match &c.long_name {
                    Some(l) => {
                        return PlaceOutcome::Name(l.clone());
                    },
                    None => {
                        match &c.short_name {
                            Some(sn) => {
                                return PlaceOutcome::Name(sn.clone());
                            },
                            None => {
                                return PlaceOutcome::UnknownStructure;
                            },
                        }
                    },
                }
            }
            ci += 1;
        }
        proof {
            assert(comps@.skip(ncomps as int).len() == 0);
            assert(spec_first_match_in(comps@) is None);
            assert(resp.results@.skip(ri as int).drop_first() =~= resp.results@.skip(
                ri as int + 1,
            ));
        }
        ri += 1;
    }
    proof {
        assert(resp.results@.skip(nresults as int).len() == 0);
    }
    PlaceOutcome::NotFound
}

} // verus!
