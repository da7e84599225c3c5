//! The shape of one fetched snapshot of the real-time feed, after the wire
//! format has been decoded into plain values.
//!
//! Every timestamp is carried as whole seconds since the Unix epoch, and a
//! calendar date as a day number since the epoch. The structs mirror the
//! upstream delivery: a response wraps deliveries, which wrap version frames,
//! which hold the [`EstimatedVehicleJourney`] entries the journey engine
//! consumes. Past stop visits of an entry are its recorded calls, future ones
//! its estimated calls.

use vstd::prelude::*;

verus! {

/// Timestamps are kept well inside `i64` so that differences and small sums
/// of any two in-range timestamps never overflow.
pub const MAX_TS_SECONDS: i64 = 0x2000_0000_0000_0000;

/// Whether a timestamp lies in the range the engine accepts.
pub open spec fn ts_ok(t: int) -> bool {
    -MAX_TS_SECONDS <= t <= MAX_TS_SECONDS
}

/// Whether an optional timestamp is absent or in range.
pub open spec fn opt_ts_ok(t: Option<int>) -> bool {
    match t {
        Option::Some(v) => ts_ok(v),
        Option::None => true,
    }
}

/// The first of two optional values that is present, if any.
pub open spec fn or_opt<T>(a: Option<T>, b: Option<T>) -> Option<T> {
    if a is Some {
        a
    } else {
        b
    }
}

/// The model of an optional timestamp: seconds since the epoch.
pub open spec fn opt_ts_view(t: Option<i64>) -> Option<int> {
    match t {
        Option::Some(v) => Option::Some(v as int),
        Option::None => Option::None,
    }
}

fn opt_ts_in_range(t: &Option<i64>) -> (r: bool)
    ensures
        r == opt_ts_ok(opt_ts_view(*t)),
{
    match t {
        Option::Some(v) => -MAX_TS_SECONDS <= *v && *v <= MAX_TS_SECONDS,
        Option::None => true,
    }
}

/// A wrapped string of the feed.
pub struct StringValue {
    pub value: String,
}

impl View for StringValue {
    type V = Seq<char>;

    open spec fn view(&self) -> Seq<char> {
        self.value@
    }
}

impl DeepView for StringValue {
    type V = Seq<char>;

    open spec fn deep_view(&self) -> Seq<char> {
        self.value@
    }
}

/// A wrapped string of the feed that may be empty on the wire.
pub struct OptionalStringValue {
    pub value: Option<String>,
}

impl View for OptionalStringValue {
    type V = Option<Seq<char>>;

    open spec fn view(&self) -> Option<Seq<char>> {
        self.value.deep_view()
    }
}

/// A string with an optional language tag.
pub struct LocalizedString {
    pub lang: Option<String>,
    pub value: String,
}

/// Names of places a journey passes, for display.
pub struct Via {
    pub place_name: Vec<StringValue>,
}

/// How confident the feed is in a prediction.
pub struct PredictionQuality {
    pub prediction_level: String,
}

/// Which platform a call is assigned to.
pub struct StopAssignment {
    pub actual_quay_ref: Option<StringValue>,
    pub aimed_quay_ref: StringValue,
    pub expected_quay_ref: StringValue,
}

/// The operating day a framed journey reference belongs to, as a day number
/// since the Unix epoch.
pub struct DataFrameRef {
    pub value: i32,
}

/// A journey identity qualified by its operating day.
pub struct FramedVehicleJourneyRef {
    pub data_frame_ref: DataFrameRef,
    pub dated_vehicle_journey_ref: String,
}

/// The model of a past stop visit.
pub ghost struct RecordedCallV {
    pub actual_arrival_time: Option<int>,
    pub actual_departure_time: Option<int>,
    pub aimed_arrival_time: Option<int>,
    pub aimed_departure_time: Option<int>,
    pub cancellation: Option<bool>,
    pub expected_arrival_time: Option<int>,
    pub expected_departure_time: Option<int>,
    pub order: int,
    pub stop_point_name: Option<Seq<Seq<char>>>,
    pub stop_point_ref: Seq<char>,
}

impl RecordedCallV {
    /// The planned time at this call: aimed arrival, else aimed departure.
    pub open spec fn planned_time(self) -> Option<int> {
        or_opt(self.aimed_arrival_time, self.aimed_departure_time)
    }

    /// The observed or predicted time at this call: the first present of
    /// actual arrival, actual departure, expected arrival, expected departure.
    pub open spec fn actual_time(self) -> Option<int> {
        or_opt(
            or_opt(self.actual_arrival_time, self.actual_departure_time),
            or_opt(self.expected_arrival_time, self.expected_departure_time),
        )
    }

    /// The name embedded in the call payload, used when the stop reference
    /// does not resolve in the catalog.
    pub open spec fn fallback_name(self) -> Option<Seq<char>> {
        match self.stop_point_name {
            Option::Some(names) => if names.len() > 0 {
                Option::Some(names[0])
            } else {
                Option::None
            },
            Option::None => Option::None,
        }
    }

    /// All timestamps of the call are in range.
    pub open spec fn times_ok(self) -> bool {
        &&& opt_ts_ok(self.actual_arrival_time)
        &&& opt_ts_ok(self.actual_departure_time)
        &&& opt_ts_ok(self.aimed_arrival_time)
        &&& opt_ts_ok(self.aimed_departure_time)
        &&& opt_ts_ok(self.expected_arrival_time)
        &&& opt_ts_ok(self.expected_departure_time)
    }
}

/// A past stop visit, with the times that were recorded for it.
pub struct RecordedCall {
    pub actual_arrival_time: Option<i64>,
    pub actual_departure_time: Option<i64>,
    pub aimed_arrival_time: Option<i64>,
    pub aimed_departure_time: Option<i64>,
    pub arrival_platform_name: Option<StringValue>,
    pub cancellation: Option<bool>,
    pub departure_platform_name: Option<StringValue>,
    pub expected_arrival_time: Option<i64>,
    pub expected_departure_time: Option<i64>,
    pub occupancy: Option<String>,
    pub order: u16,
    pub prediction_inaccurate: Option<bool>,
    pub stop_point_name: Option<Vec<StringValue>>,
    pub stop_point_ref: StringValue,
    pub visit_number: Option<u16>,
    pub via: Option<Vec<Via>>,
}

impl View for RecordedCall {
    type V = RecordedCallV;

    open spec fn view(&self) -> RecordedCallV {
        RecordedCallV {
            actual_arrival_time: opt_ts_view(self.actual_arrival_time),
            actual_departure_time: opt_ts_view(self.actual_departure_time),
            aimed_arrival_time: opt_ts_view(self.aimed_arrival_time),
            aimed_departure_time: opt_ts_view(self.aimed_departure_time),
            cancellation: self.cancellation,
            expected_arrival_time: opt_ts_view(self.expected_arrival_time),
            expected_departure_time: opt_ts_view(self.expected_departure_time),
            order: self.order as int,
            stop_point_name: self.stop_point_name.deep_view(),
            stop_point_ref: self.stop_point_ref@,
        }
    }
}

impl DeepView for RecordedCall {
    type V = RecordedCallV;

    open spec fn deep_view(&self) -> RecordedCallV {
        self.view()
    }
}

impl RecordedCall {
    /// Runtime check for [`RecordedCallV::times_ok`].
    pub fn times_in_range(&self) -> (r: bool)
        ensures
            r == self@.times_ok(),
    {
        opt_ts_in_range(&self.actual_arrival_time) && opt_ts_in_range(&self.actual_departure_time)
            && opt_ts_in_range(&self.aimed_arrival_time) && opt_ts_in_range(
            &self.aimed_departure_time,
        ) && opt_ts_in_range(&self.expected_arrival_time) && opt_ts_in_range(
            &self.expected_departure_time,
        )
    }
}

/// The model of a future stop visit.
pub ghost struct EstimatedCallV {
    pub aimed_arrival_time: Option<int>,
    pub aimed_departure_time: Option<int>,
    pub cancellation: Option<bool>,
    pub expected_arrival_time: Option<int>,
    pub expected_departure_time: Option<int>,
    pub order: int,
    pub stop_point_name: Option<Seq<Seq<char>>>,
    pub stop_point_ref: Seq<char>,
}

impl EstimatedCallV {
    /// The planned time at this call: aimed arrival, else aimed departure.
    pub open spec fn planned_time(self) -> Option<int> {
        or_opt(self.aimed_arrival_time, self.aimed_departure_time)
    }

    /// The name embedded in the call payload, used when the stop reference
    /// does not resolve in the catalog.
    pub open spec fn fallback_name(self) -> Option<Seq<char>> {
        match self.stop_point_name {
            Option::Some(names) => if names.len() > 0 {
                Option::Some(names[0])
            } else {
                Option::None
            },
            Option::None => Option::None,
        }
    }

    /// Whether this single call is marked cancelled (the journey may still
    /// run).
    pub open spec fn cancelled(self) -> bool {
        self.cancellation == Option::<bool>::Some(true)
    }

    /// All timestamps of the call are in range.
    pub open spec fn times_ok(self) -> bool {
        &&& opt_ts_ok(self.aimed_arrival_time)
        &&& opt_ts_ok(self.aimed_departure_time)
        &&& opt_ts_ok(self.expected_arrival_time)
        &&& opt_ts_ok(self.expected_departure_time)
    }
}

/// A future stop visit, with predicted times.
pub struct EstimatedCall {
    pub aimed_arrival_time: Option<i64>,
    pub aimed_departure_time: Option<i64>,
    pub arrival_status: Option<String>,
    pub arrival_stop_assignment: Option<StopAssignment>,
    pub cancellation: Option<bool>,
    pub departure_boarding_activity: Option<String>,
    pub departure_platform_name: Option<StringValue>,
    pub departure_status: Option<String>,
    pub departure_stop_assignment: Option<StopAssignment>,
    pub destination_display: Option<Vec<StringValue>>,
    pub expected_arrival_time: Option<i64>,
    pub expected_arrival_prediction_quality: Option<PredictionQuality>,
    pub expected_departure_time: Option<i64>,
    pub occupancy: Option<String>,
    pub order: u16,
    pub prediction_inaccurate: Option<bool>,
    pub request_stop: Option<bool>,
    pub stop_point_name: Option<Vec<StringValue>>,
    pub stop_point_ref: StringValue,
    pub timing_point: Option<bool>,
    pub visit_number: Option<u16>,
}

impl View for EstimatedCall {
    type V = EstimatedCallV;

    open spec fn view(&self) -> EstimatedCallV {
        EstimatedCallV {
            aimed_arrival_time: opt_ts_view(self.aimed_arrival_time),
            aimed_departure_time: opt_ts_view(self.aimed_departure_time),
            cancellation: self.cancellation,
            expected_arrival_time: opt_ts_view(self.expected_arrival_time),
            expected_departure_time: opt_ts_view(self.expected_departure_time),
            order: self.order as int,
            stop_point_name: self.stop_point_name.deep_view(),
            stop_point_ref: self.stop_point_ref@,
        }
    }
}

impl DeepView for EstimatedCall {
    type V = EstimatedCallV;

    open spec fn deep_view(&self) -> EstimatedCallV {
        self.view()
    }
}

impl EstimatedCall {
    /// Runtime check for [`EstimatedCallV::times_ok`].
    pub fn times_in_range(&self) -> (r: bool)
        ensures
            r == self@.times_ok(),
    {
        opt_ts_in_range(&self.aimed_arrival_time) && opt_ts_in_range(&self.aimed_departure_time)
            && opt_ts_in_range(&self.expected_arrival_time) && opt_ts_in_range(
            &self.expected_departure_time,
        )
    }
}

/// The past stop visits of an entry.
pub struct RecordedCalls {
    pub recorded_call: Vec<RecordedCall>,
}

/// The future stop visits of an entry.
pub struct EstimatedCalls {
    pub estimated_call: Vec<EstimatedCall>,
}

/// The model of one raw feed entry.
pub ghost struct EstimatedVehicleJourneyV {
    pub block_ref: Option<Seq<char>>,
    pub cancellation: Option<bool>,
    pub data_source: Seq<char>,
    pub dated_vehicle_journey_ref: Option<Seq<char>>,
    pub destination_ref: Option<Seq<char>>,
    pub direction_ref: Seq<char>,
    pub estimated_calls: Option<Seq<EstimatedCallV>>,
    pub extra_journey: Option<bool>,
    pub framed_dated_ref: Option<Seq<char>>,
    pub line_ref: Seq<char>,
    pub origin_ref: Option<Option<Seq<char>>>,
    pub recorded_at_time: int,
    pub recorded_calls: Option<Seq<RecordedCallV>>,
}

impl EstimatedVehicleJourneyV {
    /// The identity of the run this entry describes: the first present of the
    /// dated journey reference, the framed journey reference's inner field,
    /// and the block reference. An entry with none of the three has no
    /// identity and is discarded.
    pub open spec fn journey_id(self) -> Option<Seq<char>> {
        or_opt(self.dated_vehicle_journey_ref, or_opt(self.framed_dated_ref, self.block_ref))
    }

    /// The estimated calls, an absent list reading as empty.
    pub open spec fn estimated_or_empty(self) -> Seq<EstimatedCallV> {
        match self.estimated_calls {
            Option::Some(calls) => calls,
            Option::None => Seq::empty(),
        }
    }

    /// Every timestamp of the entry and of its calls is in range.
    pub open spec fn times_ok(self) -> bool {
        &&& ts_ok(self.recorded_at_time)
        &&& match self.recorded_calls {
            Option::Some(calls) => recorded_calls_times_ok(calls),
            Option::None => true,
        }
        &&& match self.estimated_calls {
            Option::Some(calls) => estimated_calls_times_ok(calls),
            Option::None => true,
        }
    }
}

/// Every timestamp of every call in the sequence is in range.
pub open spec fn recorded_calls_times_ok(calls: Seq<RecordedCallV>) -> bool {
    forall|i: int| 0 <= i < calls.len() ==> (#[trigger] calls[i]).times_ok()
}

/// Every timestamp of every call in the sequence is in range.
pub open spec fn estimated_calls_times_ok(calls: Seq<EstimatedCallV>) -> bool {
    forall|i: int| 0 <= i < calls.len() ==> (#[trigger] calls[i]).times_ok()
}

/// One raw feed entry: a vehicle run with its stop-by-stop timings.
pub struct EstimatedVehicleJourney {
    pub block_ref: Option<StringValue>,
    pub cancellation: Option<bool>,
    pub data_source: String,
    pub dated_vehicle_journey_ref: Option<StringValue>,
    pub destination_aimed_arrival_time: Option<i64>,
    pub destination_display_at_origin: Option<Vec<StringValue>>,
    pub destination_name: Option<Vec<StringValue>>,
    pub destination_ref: Option<StringValue>,
    pub direction_name: Option<Vec<StringValue>>,
    pub direction_ref: StringValue,
    pub estimated_calls: Option<EstimatedCalls>,
    pub extra_journey: Option<bool>,
    pub framed_vehicle_journey_ref: Option<FramedVehicleJourneyRef>,
    pub is_complete_stop_sequence: Option<bool>,
    pub journey_note: Option<Vec<LocalizedString>>,
    pub journey_pattern_name: Option<StringValue>,
    pub journey_pattern_ref: Option<StringValue>,
    pub line_ref: StringValue,
    pub monitored: Option<bool>,
    pub occupancy: Option<String>,
    pub operator_ref: Option<StringValue>,
    pub origin_aimed_departure_time: Option<i64>,
    pub origin_name: Option<Vec<StringValue>>,
    pub origin_ref: Option<OptionalStringValue>,
    pub prediction_inaccurate: Option<bool>,
    pub product_category_ref: Option<StringValue>,
    pub published_line_name: Option<Vec<StringValue>>,
    pub recorded_at_time: i64,
    pub recorded_calls: Option<RecordedCalls>,
    pub service_feature_ref: Option<Vec<StringValue>>,
    pub vehicle_mode: Option<Vec<String>>,
    pub vehicle_ref: Option<StringValue>,
    pub via: Option<Vec<Via>>,
}

impl View for EstimatedVehicleJourney {
    type V = EstimatedVehicleJourneyV;

    open spec fn view(&self) -> EstimatedVehicleJourneyV {
        EstimatedVehicleJourneyV {
            block_ref: self.block_ref.deep_view(),
            cancellation: self.cancellation,
            data_source: self.data_source@,
            dated_vehicle_journey_ref: self.dated_vehicle_journey_ref.deep_view(),
            destination_ref: self.destination_ref.deep_view(),
            direction_ref: self.direction_ref@,
            estimated_calls: match self.estimated_calls {
                Option::Some(ec) => Option::Some(ec.estimated_call.deep_view()),
                Option::None => Option::None,
            },
            extra_journey: self.extra_journey,
            framed_dated_ref: match self.framed_vehicle_journey_ref {
                Option::Some(fr) => Option::Some(fr.dated_vehicle_journey_ref@),
                Option::None => Option::None,
            },
            line_ref: self.line_ref@,
            origin_ref: match self.origin_ref {
                Option::Some(o) => Option::Some(o@),
                Option::None => Option::None,
            },
            recorded_at_time: self.recorded_at_time as int,
            recorded_calls: match self.recorded_calls {
                Option::Some(rc) => Option::Some(rc.recorded_call.deep_view()),
                Option::None => Option::None,
            },
        }
    }
}

impl DeepView for EstimatedVehicleJourney {
    type V = EstimatedVehicleJourneyV;

    open spec fn deep_view(&self) -> EstimatedVehicleJourneyV {
        self.view()
    }
}

impl EstimatedVehicleJourney {
    /// Runtime check for [`EstimatedVehicleJourneyV::times_ok`]: whether
    /// every timestamp of the entry lies in the range the engine accepts.
    #[verifier::loop_isolation(false)]
    pub fn times_in_range(&self) -> (r: bool)
        ensures
            r == self@.times_ok(),
    {
        if !(-MAX_TS_SECONDS <= self.recorded_at_time && self.recorded_at_time
            <= MAX_TS_SECONDS) {
            return false;
        }
        if let Option::Some(rc) = &self.recorded_calls {
            let n = rc.recorded_call.len();
            for i in 0..n
                invariant
                    n == rc.recorded_call.len(),
                    forall|k: int|
                        0 <= k < i ==> (#[trigger] rc.recorded_call.deep_view()[k]).times_ok(),
            {
                if !rc.recorded_call[i].times_in_range() {
                    assert(!rc.recorded_call.deep_view()[i as int].times_ok());
                    assert(!recorded_calls_times_ok(rc.recorded_call.deep_view()));
                    return false;
                }
            }
        }
        if let Option::Some(ec) = &self.estimated_calls {
            let n = ec.estimated_call.len();
            for i in 0..n
                invariant
                    n == ec.estimated_call.len(),
                    forall|k: int|
                        0 <= k < i ==> (#[trigger] ec.estimated_call.deep_view()[k]).times_ok(),
            {
                if !ec.estimated_call[i].times_in_range() {
                    assert(!ec.estimated_call.deep_view()[i as int].times_ok());
                    assert(!estimated_calls_times_ok(ec.estimated_call.deep_view()));
                    return false;
                }
            }
        }
        true
    }
}

/// One delivery's worth of version frames.
pub struct EstimatedJourneyVersionFrame {
    pub estimated_vehicle_journey: Vec<EstimatedVehicleJourney>,
    pub recorded_at_time: i64,
}

/// One estimated-timetable delivery of a response.
pub struct EstimatedTimetableDelivery {
    pub version: String,
    pub response_timestamp: i64,
    pub estimated_journey_version_frame: Vec<EstimatedJourneyVersionFrame>,
}

/// The envelope around the deliveries of one response.
pub struct ServiceDelivery {
    pub estimated_timetable_delivery: Vec<EstimatedTimetableDelivery>,
    pub producer_ref: StringValue,
    pub response_timestamp: i64,
}

/// The top-level body of one response.
pub struct Siri {
    pub service_delivery: ServiceDelivery,
    pub version: String,
}

/// One fetched snapshot of the feed.
pub struct SiriETResponse {
    pub siri: Siri,
}

/// The entries of each version frame, one sequence per frame.
pub open spec fn frame_entries(frames: Seq<EstimatedJourneyVersionFrame>) -> Seq<
    Seq<EstimatedVehicleJourneyV>,
> {
    frames.map_values(|f: EstimatedJourneyVersionFrame| f.estimated_vehicle_journey.deep_view())
}

/// The entries of each delivery, one sequence per delivery, each delivery's
/// frames flattened in order.
pub open spec fn delivery_entries(deliveries: Seq<EstimatedTimetableDelivery>) -> Seq<
    Seq<EstimatedVehicleJourneyV>,
> {
    deliveries.map_values(
        |d: EstimatedTimetableDelivery| frame_entries(d.estimated_journey_version_frame@).flatten(),
    )
}

/// All entries of a response, in delivery order: deliveries in order, frames
/// of each delivery in order, entries of each frame in order.
pub open spec fn spec_journeys(resp: SiriETResponse) -> Seq<EstimatedVehicleJourneyV> {
    delivery_entries(resp.siri.service_delivery.estimated_timetable_delivery@).flatten()
}

impl SiriETResponse {
    /// Flatten the response into the entries the journey engine consumes.
    pub fn journeys(self) -> (r: Vec<EstimatedVehicleJourney>)
        ensures
            r.deep_view() == spec_journeys(self),
    {
        let ghost total = spec_journeys(self);
        let mut r: Vec<EstimatedVehicleJourney> = Vec::new();
        let mut deliveries = self.siri.service_delivery.estimated_timetable_delivery;
        while deliveries.len() > 0
            invariant
                total == r.deep_view() + delivery_entries(deliveries@).flatten(),
            decreases deliveries@.len(),
        {
            let ghost ds_before = deliveries@;
            let delivery = deliveries.remove(0);
            let mut frames = delivery.estimated_journey_version_frame;
            proof {
                assert(delivery_entries(deliveries@) =~= delivery_entries(ds_before).drop_first());
                assert(delivery_entries(ds_before).flatten() == frame_entries(frames@).flatten()
                    + delivery_entries(deliveries@).flatten());
            }
            while frames.len() > 0
                invariant
                    total == r.deep_view() + frame_entries(frames@).flatten() + delivery_entries(
                        deliveries@,
                    ).flatten(),
                decreases frames@.len(),
            {
                let ghost fs_before = frames@;
                let frame = frames.remove(0);
                let mut entries = frame.estimated_vehicle_journey;
                proof {
                    assert(frame_entries(frames@) =~= frame_entries(fs_before).drop_first());
                    assert(frame_entries(fs_before).flatten() == entries.deep_view()
                        + frame_entries(frames@).flatten());
                }
                while entries.len() > 0
                    invariant
                        total == r.deep_view() + entries.deep_view() + frame_entries(
                            frames@,
                        ).flatten() + delivery_entries(deliveries@).flatten(),
                    decreases entries@.len(),
                {
                    let ghost es_before = entries.deep_view();
                    let ghost r_before = r.deep_view();
                    let entry = entries.remove(0);
                    r.push(entry);
                    proof {
                        assert(entries.deep_view() =~= es_before.drop_first());
                        assert(r.deep_view() =~= r_before.push(es_before.first()));
                        assert(r.deep_view() + entries.deep_view() =~= r_before + es_before);
                    }
                }
            }
        }
        proof {
            assert(r.deep_view() =~= total);
        }
        r
    }
}

} // verus!
