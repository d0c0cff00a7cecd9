//! The timeline: which media time stands where on the tracks.
use crate::location::Location;
use vstd::prelude::*;

verus! {

#[derive(Debug)]
pub struct TimelineRecord {
    /// Media time in milliseconds.
    pub media_pts: u64,
    pub start: Option<Location>,
    pub end: Option<Location>,
    /// When the media was encoded, in milliseconds since January 1, 1970 (midnight UTC/GMT); 0 if
    /// that is not known.
    pub wallclock: u64,
    pub metadata: Option<String>,
    pub version: u32,
}

#[derive(Debug)]
pub struct Timeline {
    pub track_name: String,
    /// Incremented in each update.
    pub version: u32,
    pub format_version: u32,
    /// Milliseconds since January 1, 1970 (midnight UTC/GMT).
    pub generated_at: u64,
    pub records: Vec<TimelineRecord>,
}

impl Timeline {
    /// A first timeline, generated at a time.
    pub fn new(records: Vec<TimelineRecord>, generated_at: u64) -> (t: Self)
        ensures
            t.track_name@ == "timeline"@,
            t.version == 0,
            t.format_version == 1,
            t.generated_at == generated_at,
            t.records == records,
    {
        Timeline {
            track_name: "timeline".to_owned(),
            version: 0,
            format_version: 1,
            generated_at,
            records,
        }
    }
}

} // verus!
