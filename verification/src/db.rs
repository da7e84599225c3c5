//! The row shape the static stop catalog is loaded from.

use vstd::prelude::*;

verus! {

/// The model of one stop row: a resolved name, the reference the feed uses
/// for the stop, and optional coordinates.
pub ghost struct StopRowV {
    pub name: Seq<char>,
    pub stop_point_ref: Seq<char>,
    pub lat: Option<int>,
    pub lon: Option<int>,
}

/// One row of the static stop catalog. Coordinates are fixed-point
/// microdegrees; a row whose source had no name is excluded before it
/// reaches the engine.
pub struct StopRow {
    pub name: String,
    pub stop_point_ref: String,
    pub lat: Option<i64>,
    pub lon: Option<i64>,
}

impl View for StopRow {
    type V = StopRowV;

    open spec fn view(&self) -> StopRowV {
        StopRowV {
            name: self.name@,
            stop_point_ref: self.stop_point_ref@,
            lat: match self.lat {
                Option::Some(v) => Option::Some(v as int),
                Option::None => Option::None,
            },
            lon: match self.lon {
                Option::Some(v) => Option::Some(v as int),
                Option::None => Option::None,
            },
        }
    }
}

impl DeepView for StopRow {
    type V = StopRowV;

    open spec fn deep_view(&self) -> StopRowV {
        self.view()
    }
}

} // verus!
