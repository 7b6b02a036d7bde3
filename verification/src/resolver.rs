//! Coordinate-to-place resolution against the persistent cache.
//!
//! Resolution is split around the one suspension point of the pipeline,
//! the network call. `resolve_step` decides from the cache alone: a
//! cached key — place name or cached failure — is answered outright and
//! never looked up again; only a missing key yields the lookup request
//! URL. After the caller has performed that request and decoded it,
//! `finish_lookup` turns the response into an outcome and records it in
//! the cache before anything else happens.
use crate::cache::GeocodeCache;
use crate::place::{find_city_name, spec_city_of, GeoResponse, PlaceOutcome, PlaceView};
use vstd::prelude::*;

verus! {

/// What `resolve_step` decided.
pub enum ResolveStep {
    /// The key was cached; resolution is done without any lookup.
    Cached(PlaceOutcome),
    /// The key was not cached; the carried URL must be fetched once.
    Lookup(String),
}

/// The marker cached for a coordinate no lookup could name.
pub open spec fn spec_not_found_marker() -> Seq<char> {
    "NIEZNALEZIONE"@
}

/// The marker cached for a matching component without a usable name.
pub open spec fn spec_unknown_marker() -> Seq<char> {
    "NIEZNANE"@
}

/// The cache text of an outcome: names are stored as themselves, failures
/// as their markers.
pub open spec fn spec_encode_outcome(o: PlaceView) -> Seq<char> {
    match o {
        PlaceView::Name(s) => s,
        PlaceView::NotFound => spec_not_found_marker(),
        PlaceView::UnknownStructure => spec_unknown_marker(),
    }
}

/// The outcome a cache text denotes: marker texts decode to their
/// failures, everything else to a name.
pub open spec fn spec_decode_outcome(s: Seq<char>) -> PlaceView {
    if s == spec_not_found_marker() {
        PlaceView::NotFound
    } else if s == spec_unknown_marker() {
        PlaceView::UnknownStructure
    } else {
        PlaceView::Name(s)
    }
}

/// The lookup URL for a canonical coordinate key and an API key.
pub open spec fn spec_query(key: Seq<char>, api_key: Seq<char>) -> Seq<char> {
    "https://maps.googleapis.com/maps/api/geocode/json?latlng="@ + key
        + "&language=pl&result_type=administrative_area_level_3&key="@ + api_key
}

/// Encodes an outcome for the cache.
pub fn encode_outcome(o: &PlaceOutcome) -> (r: String)
    ensures
        r@ == spec_encode_outcome(o@),
{
    match o {
        PlaceOutcome::Name(s) => s.clone(),
        PlaceOutcome::NotFound => String::from_str("NIEZNALEZIONE"),
        PlaceOutcome::UnknownStructure => String::from_str("NIEZNANE"),
    }
}

/// Decodes a cached text back to its outcome.
pub fn decode_outcome(s: &String) -> (r: PlaceOutcome)
    ensures
        r@ == spec_decode_outcome(s@),
{
    let not_found = String::from_str("NIEZNALEZIONE");
    if *s == not_found {
        return PlaceOutcome::NotFound;
    }
    let unknown = String::from_str("NIEZNANE");
    if *s == unknown {
        return PlaceOutcome::UnknownStructure;
    }
    PlaceOutcome::Name(s.clone())
}

/// Decoding a cached text gives back what was encoded, for every outcome
/// whose name is not itself one of the two marker texts.
pub proof fn lemma_outcome_round_trip(o: PlaceView)
    requires
        o matches PlaceView::Name(s) ==> s != spec_not_found_marker() && s
            != spec_unknown_marker(),
    ensures
        spec_decode_outcome(spec_encode_outcome(o)) == o,
{
    reveal_strlit("NIEZNALEZIONE");
    reveal_strlit("NIEZNANE");
    assert(spec_not_found_marker().len() == 13);
    assert(spec_unknown_marker().len() == 8);
    match o {
        PlaceView::Name(s) => {
            assert(spec_decode_outcome(spec_encode_outcome(o)) == o);
        },
        PlaceView::NotFound => {
            assert(spec_decode_outcome(spec_encode_outcome(o)) == o);
        },
        PlaceView::UnknownStructure => {
            assert(spec_decode_outcome(spec_encode_outcome(o)) == o);
        },
    }
}

/// Resolves a canonical key against the cache: a cached key — whether a
/// place name or a cached failure — is answered without any lookup; only
/// a missing key asks for one fetch of the carried URL.
pub fn resolve_step(cache: &GeocodeCache, key: &String, api_key: &String) -> (r: ResolveStep)
    requires
        cache.wf(),
    ensures
        cache@.contains_key(key@) ==> (r matches ResolveStep::Cached(p) && p@
            == spec_decode_outcome(cache@[key@])),
        !cache@.contains_key(key@) ==> (r matches ResolveStep::Lookup(u) && u@ == spec_query(
            key@,
            api_key@,
        )),
{
    match cache.get(key) {
        Some(v) => ResolveStep::Cached(decode_outcome(v)),
        None => {
            let mut url = String::from_str(
                "https://maps.googleapis.com/maps/api/geocode/json?latlng=",
            );
            url.append(key.as_str());
            url.append("&language=pl&result_type=administrative_area_level_3&key=");
            url.append(api_key.as_str());
            proof {
                assert(url@ =~= spec_query(key@, api_key@));
            }
            ResolveStep::Lookup(url)
        },
    }
}

/// Turns the outcome of the one permitted lookup — a decoded response, or
/// `None` where the body was not a well-formed response — into a place
/// outcome, and records it in the cache before returning it.
pub fn finish_lookup(cache: &mut GeocodeCache, key: &String, response: &Option<GeoResponse>) -> (r:
    PlaceOutcome)
    requires
        old(cache).wf(),
    ensures
        final(cache).wf(),
        r@ == (match response {
            Some(resp) => spec_city_of(resp),
            None => PlaceView::NotFound,
        }),
        final(cache)@ == old(cache)@.insert(key@, spec_encode_outcome(r@)),
{
    let outcome = match response {
        Some(resp) => find_city_name(resp),
        None => PlaceOutcome::NotFound,
    };
    let encoded = encode_outcome(&outcome);
    cache.put(key, encoded);
    outcome
}

} // verus!
