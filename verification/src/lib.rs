//! Batch photo renaming from embedded capture metadata.
//!
//! The library holds the verified core of the pipeline: normalization of
//! extracted metadata into capture records, canonical coordinate keys, the
//! persistent geocode cache with its textual codec, place resolution over a
//! decoded geocoding response, deterministic rename planning, and the
//! preview/apply action schedule. File, network and metadata-container I/O
//! live outside, handing plain values in and out.

mod strutil;

pub mod cache;
pub mod codec;
pub mod coords;
pub mod executor;
pub mod place;
pub mod planner;
pub mod record;
pub mod resolver;

pub use crate::cache::GeocodeCache;
pub use crate::coords::CoordinatePair;
pub use crate::executor::{PlanEntry, RenameAction};
pub use crate::place::{AddressComponent, GeoResponse, GeoResult, PlaceOutcome};
pub use crate::record::CaptureRecord;
pub use crate::resolver::ResolveStep;
