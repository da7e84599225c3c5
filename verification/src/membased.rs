//! The in-memory journey engine: the static stop catalog, construction of
//! validated journeys from raw feed entries, and the queryable, mergeable,
//! expirable journey index.

use crate::db::StopRow;
use crate::entur_siriformat::{
    or_opt, ts_ok, opt_ts_ok, EstimatedCall, EstimatedCallV, EstimatedVehicleJourney,
    EstimatedVehicleJourneyV, RecordedCall, RecordedCallV,
};
use vstd::prelude::*;

verus! {

/// The identity of one vehicle run.
#[derive(Clone)]
pub struct JourneyId(String);

impl View for JourneyId {
    type V = Seq<char>;

    closed spec fn view(&self) -> Seq<char> {
        self.0@
    }
}

impl JourneyId {
    /// Wrap a raw identity string.
    pub fn new(id: String) -> (r: JourneyId)
        ensures
            r@ == id@,
    {
        JourneyId(id)
    }
}

/// The model of a resolved stop.
pub ghost struct StopV {
    pub name: Seq<char>,
    pub lat: Option<int>,
    pub lon: Option<int>,
}

/// A resolved stop: a human-readable name and optional fixed-point
/// microdegree coordinates.
#[derive(Clone)]
pub struct Stop {
    name: String,
    lat: Option<i64>,
    lon: Option<i64>,
}

impl View for Stop {
    type V = StopV;

    closed spec fn view(&self) -> StopV {
        StopV {
            name: self.name@,
            lat: match self.lat {
                Option::Some(v) => Option::Some(v as int),
                Option::None => Option::None,
            },
            lon: match self.lon {
                Option::Some(v) => Option::Some(v as int),
                Option::None => Option::None,
            },
        }
    }
}

impl DeepView for Stop {
    type V = StopV;

    open spec fn deep_view(&self) -> StopV {
        self.view()
    }
}

/// The reference under which the feed knows a stop.
#[derive(Clone)]
pub struct StopPointRef(String);

impl View for StopPointRef {
    type V = Seq<char>;

    closed spec fn view(&self) -> Seq<char> {
        self.0@
    }
}

impl StopPointRef {
    /// Wrap a raw stop reference string.
    pub fn new(r: String) -> (s: StopPointRef)
        ensures
            s@ == r@,
    {
        StopPointRef(r)
    }
}

/// The static stop catalog: a mapping from stop reference to resolved stop,
/// built once and never mutated afterwards. A reference that was loaded more
/// than once resolves to the row loaded last.
#[derive(Clone)]
pub struct Stops {
    stops: Vec<(StopPointRef, Stop)>,
}

/// The mapping described by an association list, later entries shadowing
/// earlier ones.
pub open spec fn stops_assoc(s: Seq<(StopPointRef, Stop)>) -> Map<Seq<char>, StopV>
    decreases s.len(),
{
    if s.len() == 0 {
        Map::empty()
    } else {
        stops_assoc(s.drop_last()).insert(s.last().0@, s.last().1@)
    }
}

impl View for Stops {
    type V = Map<Seq<char>, StopV>;

    closed spec fn view(&self) -> Map<Seq<char>, StopV> {
        stops_assoc(self.stops@)
    }
}

/// A key occurs in the mapping exactly when some list entry carries it.
proof fn lemma_stops_assoc_contains(s: Seq<(StopPointRef, Stop)>, k: Seq<char>)
    ensures
        stops_assoc(s).contains_key(k) <==> exists|i: int|
            0 <= i < s.len() && (#[trigger] s[i]).0@ == k,
    decreases s.len(),
{
    if s.len() > 0 {
        lemma_stops_assoc_contains(s.drop_last(), k);
        assert(forall|i: int| 0 <= i < s.len() - 1 ==> (#[trigger] s[i]) == s.drop_last()[i]);
        if s.last().0@ == k {
            assert(s[s.len() - 1].0@ == k);
        } else if stops_assoc(s).contains_key(k) {
            let i = choose|i: int| 0 <= i < s.drop_last().len() && (#[trigger] s.drop_last()[i]).0@
                == k;
            assert(s[i].0@ == k);
        } else {
            assert(forall|i: int|
                0 <= i < s.len() - 1 ==> (#[trigger] s[i]).0@ != k) by {
                assert(forall|i: int|
                    0 <= i < s.drop_last().len() ==> (#[trigger] s.drop_last()[i]).0@ != k);
            }
        }
    }
}

/// The value an association list maps a key to is the value of the last
/// entry that carries the key.
proof fn lemma_stops_assoc_last_match(s: Seq<(StopPointRef, Stop)>, i: int, k: Seq<char>)
    requires
        0 <= i < s.len(),
        s[i].0@ == k,
        forall|j: int| i < j < s.len() ==> (#[trigger] s[j]).0@ != k,
    ensures
        stops_assoc(s).contains_key(k),
        stops_assoc(s)[k] == s[i].1@,
    decreases s.len(),
{
    if i == s.len() - 1 {
    } else {
        assert(forall|j: int| 0 <= j < s.len() - 1 ==> (#[trigger] s.drop_last()[j]) == s[j]);
        lemma_stops_assoc_last_match(s.drop_last(), i, k);
        assert(s.last().0@ != k);
    }
}

/// Every key of the mapping is carried by some entry that no later entry
/// shadows.
proof fn lemma_stops_assoc_live_witness(s: Seq<(StopPointRef, Stop)>, k: Seq<char>)
    requires
        stops_assoc(s).contains_key(k),
    ensures
        exists|i: int|
            {
                &&& 0 <= i < s.len()
                &&& (#[trigger] s[i]).0@ == k
                &&& forall|j: int| i < j < s.len() ==> (#[trigger] s[j]).0@ != k
            },
    decreases s.len(),
{
    lemma_stops_assoc_contains(s, k);
    if s.last().0@ == k {
        let i = s.len() - 1;
        assert(s[i].0@ == k && forall|j: int| i < j < s.len() ==> (#[trigger] s[j]).0@ != k);
    } else {
        assert(forall|j: int| 0 <= j < s.len() - 1 ==> (#[trigger] s.drop_last()[j]) == s[j]);
        assert(stops_assoc(s.drop_last()).contains_key(k));
        lemma_stops_assoc_live_witness(s.drop_last(), k);
        let i = choose|i: int|
            {
                &&& 0 <= i < s.drop_last().len()
                &&& (#[trigger] s.drop_last()[i]).0@ == k
                &&& forall|j: int|
                    i < j < s.drop_last().len() ==> (#[trigger] s.drop_last()[j]).0@ != k
            };
        assert(s[i].0@ == k);
        assert(forall|j: int| i < j < s.len() ==> (#[trigger] s[j]).0@ != k) by {
            assert(forall|j: int|
                i < j < s.len() - 1 ==> (#[trigger] s[j]).0@ == s.drop_last()[j].0@);
        }
    }
}

/// The catalog described by a sequence of stop rows, later rows shadowing
/// earlier ones with the same stop reference.
pub open spec fn catalog_of(rows: Seq<crate::db::StopRowV>) -> Map<Seq<char>, StopV>
    decreases rows.len(),
{
    if rows.len() == 0 {
        Map::empty()
    } else {
        catalog_of(rows.drop_last()).insert(
            rows.last().stop_point_ref,
            StopV { name: rows.last().name, lat: rows.last().lat, lon: rows.last().lon },
        )
    }
}

/// The distinct stop names of a catalog.
pub open spec fn catalog_names(m: Map<Seq<char>, StopV>) -> Set<Seq<char>> {
    Set::new(|n: Seq<char>| exists|k: Seq<char>| #[trigger] m.contains_key(k) && m[k].name == n)
}

/// Whether a string equal to `s` occurs in `v`.
fn vec_contains_string(v: &Vec<String>, s: &String) -> (r: bool)
    ensures
        r == exists|a: int| 0 <= a < v@.len() && (#[trigger] v@[a])@ == s@,
{
    let n = v.len();
    let mut i: usize = 0;
    while i < n
        invariant
            n == v@.len(),
            i <= n,
            forall|a: int| 0 <= a < i ==> (#[trigger] v@[a])@ != s@,
        decreases n - i,
    {
        if v[i] == *s {
            return true;
        }
        i += 1;
    }
    false
}

impl Stops {
    /// Build the catalog from loaded rows; a stop reference that occurs in
    /// several rows resolves to the last of them.
    pub fn new(stops: Vec<StopRow>) -> (r: Stops)
        ensures
            r@ == catalog_of(stops.deep_view()),
    {
        let ghost rows0 = stops.deep_view();
        let mut rows = stops;
        let mut built: Vec<(StopPointRef, Stop)> = Vec::new();
        while rows.len() > 0
            invariant
                rows0 == stops_taken(built@) + rows.deep_view(),
            decreases rows@.len(),
    {
            let ghost built_before = built@;
            let ghost rows_before = rows.deep_view();
            let row = rows.remove(0);
            let id = StopPointRef(row.stop_point_ref);
            let stop = Stop { name: row.name, lat: row.lat, lon: row.lon };
            built.push((id, stop));
            proof {
                assert(rows.deep_view() =~= rows_before.drop_first());
                assert(stops_taken(built@) =~= stops_taken(built_before).push(rows_before.first()));
                assert(stops_taken(built@) + rows.deep_view() =~= stops_taken(built_before)
                    + rows_before);
            }
        }
        proof {
            assert(stops_taken(built@) =~= rows0);
            lemma_stops_assoc_matches_catalog(built@);
        }
        Stops { stops: built }
    }

    /// Resolve one stop reference, absence reading as `None`.
    pub(crate) fn get(&self, stop_point_ref: &StopPointRef) -> (r: Option<&Stop>)
        ensures
            match r {
                Option::Some(st) => self@.contains_key(stop_point_ref@) && st@
                    == self@[stop_point_ref@],
                Option::None => !self@.contains_key(stop_point_ref@),
            },
    {
        let n = self.stops.len();
        let mut i: usize = n;
        while i > 0
            invariant
                n == self.stops@.len(),
                i <= n,
                forall|j: int| i <= j < n ==> (#[trigger] self.stops@[j]).0@ != stop_point_ref@,
            decreases i,
        {
            i -= 1;
            if self.stops[i].0.0 == stop_point_ref.0 {
                proof {
                    lemma_stops_assoc_last_match(self.stops@, i as int, stop_point_ref@);
                }
                return Option::Some(&self.stops[i].1);
            }
        }
        proof {
            lemma_stops_assoc_contains(self.stops@, stop_point_ref@);
        }
        Option::None
    }

    /// The distinct names of the catalog's stops, in no particular order.
    pub fn stop_names(&self) -> (r: Vec<String>)
        ensures
            forall|a: int, b: int| 0 <= a < b < r@.len() ==> (#[trigger] r@[a])@ != (#[trigger] r@[b])@,
            forall|a: int| 0 <= a < r@.len() ==> catalog_names(self@).contains((#[trigger] r@[a])@),
            forall|n: Seq<char>|
                catalog_names(self@).contains(n) ==> exists|a: int|
                    0 <= a < r@.len() && (#[trigger] r@[a])@ == n,
    {
        let n = self.stops.len();
        let mut r: Vec<String> = Vec::new();
        let mut i: usize = 0;
        while i < n
            invariant
                n == self.stops@.len(),
                i <= n,
                forall|a: int, b: int|
                    0 <= a < b < r@.len() ==> (#[trigger] r@[a])@ != (#[trigger] r@[b])@,
                forall|a: int|
                    0 <= a < r@.len() ==> catalog_names(stops_assoc(self.stops@)).contains(
                        (#[trigger] r@[a])@,
                    ),
                forall|p: int|
                    0 <= p < i && stops_live_at(self.stops@, p) ==> exists|a: int|
                        0 <= a < r@.len() && (#[trigger] r@[a])@ == self.stops@[p].1@.name,
            decreases n - i,
        {
            let ghost r_before = r@;
            let mut live = true;
            let mut j: usize = i + 1;
            while j < n
                invariant
                    n == self.stops@.len(),
                    i + 1 <= j <= n,
                    i < n,
                    live == forall|q: int|
                        i < q < j ==> (#[trigger] self.stops@[q]).0@ != self.stops@[i as int].0@,
                decreases n - j,
            {
                if self.stops[j].0.0 == self.stops[i].0.0 {
                    live = false;
                }
                j += 1;
            }
            if live {
                proof {
                    lemma_stops_assoc_last_match(self.stops@, i as int, self.stops@[i as int].0@);
                }
                if !vec_contains_string(&r, &self.stops[i].1.name) {
                    r.push(self.stops[i].1.name.clone());
                }
            }
            proof {
                assert forall|p: int|
                    0 <= p <= i as int && stops_live_at(self.stops@, p) implies exists|a: int|
                    0 <= a < r@.len() && (#[trigger] r@[a])@ == self.stops@[p].1@.name by {
                    if p < i as int {
                        let a = choose|a: int|
                            0 <= a < r_before.len() && (#[trigger] r_before[a])@
                                == self.stops@[p].1@.name;
                        assert(r@[a]@ == self.stops@[p].1@.name);
                    } else {
                        assert(live);
                        if r@.len() > r_before.len() {
                            assert(r@[r@.len() - 1]@ == self.stops@[p].1@.name);
                        } else {
                            let a = choose|a: int|
                                0 <= a < r_before.len() && (#[trigger] r_before[a])@
                                    == self.stops@[p].1@.name;
                            assert(r@[a]@ == self.stops@[p].1@.name);
                        }
                    }
                }
            }
            i += 1;
        }
        proof {
            assert forall|nm: Seq<char>| catalog_names(self@).contains(nm) implies exists|a: int|
                0 <= a < r@.len() && (#[trigger] r@[a])@ == nm by {
                let k = choose|k: Seq<char>| #[trigger] self@.contains_key(k) && self@[k].name
                    == nm;
                lemma_stops_assoc_live_witness(self.stops@, k);
                let p = choose|p: int|
                    {
                        &&& 0 <= p < self.stops@.len()
                        &&& (#[trigger] self.stops@[p]).0@ == k
                        &&& forall|j: int|
                            p < j < self.stops@.len() ==> (#[trigger] self.stops@[j]).0@ != k
                    };
                lemma_stops_assoc_last_match(self.stops@, p, k);
                assert(stops_live_at(self.stops@, p));
                assert(self.stops@[p].1@.name == nm);
            }
        }
        r
    }
}

/// No later entry shadows the entry at `i`.
pub open spec fn stops_live_at(s: Seq<(StopPointRef, Stop)>, i: int) -> bool {
    &&& 0 <= i < s.len()
    &&& forall|j: int| i < j < s.len() ==> (#[trigger] s[j]).0@ != s[i].0@
}

/// The rows a built catalog list was loaded from.
pub open spec fn stops_taken(s: Seq<(StopPointRef, Stop)>) -> Seq<crate::db::StopRowV> {
    s.map_values(
        |p: (StopPointRef, Stop)|
            crate::db::StopRowV {
                name: p.1@.name,
                stop_point_ref: p.0@,
                lat: p.1@.lat,
                lon: p.1@.lon,
            },
    )
}

/// A catalog list built row by row describes the same mapping as the rows.
proof fn lemma_stops_assoc_matches_catalog(s: Seq<(StopPointRef, Stop)>)
    ensures
        stops_assoc(s) == catalog_of(stops_taken(s)),
    decreases s.len(),
{
    if s.len() == 0 {
        assert(stops_taken(s).len() == 0);
        assert(stops_assoc(s) =~= catalog_of(stops_taken(s)));
    } else {
        lemma_stops_assoc_matches_catalog(s.drop_last());
        assert(stops_taken(s).drop_last() =~= stops_taken(s.drop_last()));
        assert(stops_taken(s).last() == crate::db::StopRowV {
            name: s.last().1@.name,
            stop_point_ref: s.last().0@,
            lat: s.last().1@.lat,
            lon: s.last().1@.lon,
        });
        assert(stops_assoc(s) =~= catalog_of(stops_taken(s)));
    }
}


// ------------------------------------------------------------------
// Journeys
// ------------------------------------------------------------------

/// The model of one validated journey.
pub ghost struct JourneyV {
    pub last_update: int,
    pub journey_id: Seq<char>,
    pub data_source: Seq<char>,
    pub line_ref: Seq<char>,
    pub cancelled: bool,
    pub finished: bool,
    pub origin: StopV,
    pub destination: StopV,
    pub prev_stop: StopV,
    pub next_stop: Option<StopV>,
    pub prev_stop_planned_time: int,
    pub prev_stop_actual_time: int,
    pub next_stop_planned_time: Option<int>,
    pub to_visit: Set<Seq<char>>,
}

impl JourneyV {
    /// Every journey the engine builds satisfies this: its timestamps are in
    /// range, and it knows a next stop exactly when it knows a planned time
    /// there.
    pub open spec fn wf(self) -> bool {
        &&& ts_ok(self.last_update)
        &&& ts_ok(self.prev_stop_planned_time)
        &&& ts_ok(self.prev_stop_actual_time)
        &&& opt_ts_ok(self.next_stop_planned_time)
        &&& (self.next_stop is Some <==> self.next_stop_planned_time is Some)
    }
}

/// Resolve a stop reference against the catalog, falling back to a name
/// embedded in the call payload.
pub open spec fn resolve_stop(
    stops: Map<Seq<char>, StopV>,
    r: Seq<char>,
    fallback: Option<Seq<char>>,
) -> Option<StopV> {
    if stops.contains_key(r) {
        Option::Some(stops[r])
    } else {
        match fallback {
            Option::Some(name) => Option::Some(StopV { name, lat: Option::None, lon: Option::None }),
            Option::None => Option::None,
        }
    }
}

/// Resolve a recorded call's stop.
pub open spec fn resolve_recorded(stops: Map<Seq<char>, StopV>, c: RecordedCallV) -> Option<StopV> {
    resolve_stop(stops, c.stop_point_ref, c.fallback_name())
}

/// Resolve an estimated call's stop.
pub open spec fn resolve_estimated(stops: Map<Seq<char>, StopV>, c: EstimatedCallV) -> Option<
    StopV,
> {
    resolve_stop(stops, c.stop_point_ref, c.fallback_name())
}

/// The estimated call at index `q` is not cancelled and resolves to a stop
/// named `n`.
pub open spec fn visit_at(
    stops: Map<Seq<char>, StopV>,
    est: Seq<EstimatedCallV>,
    q: int,
    n: Seq<char>,
) -> bool {
    &&& 0 <= q < est.len()
    &&& !est[q].cancelled()
    &&& match resolve_estimated(stops, est[q]) {
        Option::Some(st) => st.name == n,
        Option::None => false,
    }
}

/// The names contributed by the first `k` estimated calls.
pub open spec fn visit_names_upto(
    stops: Map<Seq<char>, StopV>,
    est: Seq<EstimatedCallV>,
    k: int,
) -> Set<Seq<char>> {
    Set::new(|n: Seq<char>| exists|q: int| q < k && #[trigger] visit_at(stops, est, q, n))
}

/// The set of stop names still ahead: names of the resolvable, non-cancelled
/// estimated calls. A call that fails to resolve is skipped, not fatal.
pub open spec fn visit_names(stops: Map<Seq<char>, StopV>, est: Seq<EstimatedCallV>) -> Set<
    Seq<char>,
> {
    visit_names_upto(stops, est, est.len() as int)
}

/// What `Journey` construction yields on one raw entry, if anything: the
/// chain of fallback rules of the journey engine.
///
/// An entry yields a journey only if it has at least one recorded call, the
/// last recorded call has both a planned and an actual or expected time, and
/// the last recorded call, the first recorded call (origin) and a destination
/// all resolve. An absent next stop or an unresolvable estimated call is not
/// fatal.
pub open spec fn spec_build(
    stops: Map<Seq<char>, StopV>,
    id: Seq<char>,
    e: EstimatedVehicleJourneyV,
) -> Option<JourneyV> {
    match e.recorded_calls {
        Option::None => Option::None,
        Option::Some(recorded) => {
            if recorded.len() == 0 {
                Option::None
            } else {
                let estimated = e.estimated_or_empty();
                let prev = recorded.last();
                match prev.planned_time() {
                    Option::None => Option::None,
                    Option::Some(planned) => match prev.actual_time() {
                        Option::None => Option::None,
                        Option::Some(actual) => match resolve_recorded(stops, prev) {
                            Option::None => Option::None,
                            Option::Some(prev_stop) => match resolve_recorded(
                                stops,
                                recorded.first(),
                            ) {
                                Option::None => Option::None,
                                Option::Some(origin) => {
                                    let dest_opt = or_opt(
                                        if estimated.len() > 0 {
                                            resolve_estimated(stops, estimated.last())
                                        } else {
                                            Option::None
                                        },
                                        resolve_recorded(stops, prev),
                                    );
                                    match dest_opt {
                                        Option::None => Option::None,
                                        Option::Some(destination) => {
                                            let next_pair = if estimated.len() > 0 {
                                                match resolve_estimated(stops, estimated.first()) {
                                                    Option::None => Option::None,
                                                    Option::Some(st) => match estimated.first().planned_time() {
                                                        Option::None => Option::None,
                                                        Option::Some(t) => Option::Some((st, t)),
                                                    },
                                                }
                                            } else {
                                                Option::None
                                            };
                                            Option::Some(
                                                JourneyV {
                                                    last_update: e.recorded_at_time,
                                                    journey_id: id,
                                                    data_source: e.data_source,
                                                    line_ref: e.line_ref,
                                                    cancelled: e.cancellation == Option::<
                                                        bool,
                                                    >::Some(true),
                                                    finished: estimated.len() == 0,
                                                    origin,
                                                    destination,
                                                    prev_stop,
                                                    next_stop: match next_pair {
                                                        Option::Some(p) => Option::Some(p.0),
                                                        Option::None => Option::None,
                                                    },
                                                    prev_stop_planned_time: planned,
                                                    prev_stop_actual_time: actual,
                                                    next_stop_planned_time: match next_pair {
                                                        Option::Some(p) => Option::Some(p.1),
                                                        Option::None => Option::None,
                                                    },
                                                    to_visit: visit_names(stops, estimated),
                                                },
                                            )
                                        },
                                    }
                                },
                            },
                        },
                    },
                }
            }
        },
    }
}

/// One validated journey: the engine's derived, immutable record of a
/// vehicle run.
#[derive(Clone)]
pub struct Journey {
    last_update: i64,
    journey_id: JourneyId,
    data_source: String,
    line_ref: String,
    cancelled: bool,
    finished: bool,
    origin: Stop,
    destination: Stop,
    prev_stop: Stop,
    next_stop: Option<Stop>,
    prev_stop_planned_time: i64,
    prev_stop_actual_time: i64,
    next_stop_planned_time: Option<i64>,
    to_visit: Vec<String>,
}

impl View for Journey {
    type V = JourneyV;

    closed spec fn view(&self) -> JourneyV {
        JourneyV {
            last_update: self.last_update as int,
            journey_id: self.journey_id@,
            data_source: self.data_source@,
            line_ref: self.line_ref@,
            cancelled: self.cancelled,
            finished: self.finished,
            origin: self.origin@,
            destination: self.destination@,
            prev_stop: self.prev_stop@,
            next_stop: match self.next_stop {
                Option::Some(st) => Option::Some(st@),
                Option::None => Option::None,
            },
            prev_stop_planned_time: self.prev_stop_planned_time as int,
            prev_stop_actual_time: self.prev_stop_actual_time as int,
            next_stop_planned_time: crate::entur_siriformat::opt_ts_view(
                self.next_stop_planned_time,
            ),
            to_visit: self.to_visit@.map_values(|s: String| s@).to_set(),
        }
    }
}

impl DeepView for Journey {
    type V = JourneyV;

    open spec fn deep_view(&self) -> JourneyV {
        self.view()
    }
}

/// Copy a resolved stop.
fn copy_stop(st: &Stop) -> (r: Stop)
    ensures
        r@ == st@,
{
    Stop { name: st.name.clone(), lat: st.lat, lon: st.lon }
}

/// Resolve a recorded call's stop: catalog first, then the name embedded in
/// the call.
fn stop_with_fallback_recorded(stops: &Stops, call: &RecordedCall) -> (r: Option<Stop>)
    ensures
        r.deep_view() == resolve_recorded(stops@, call@),
{
    let id = StopPointRef(call.stop_point_ref.value.clone());
    match stops.get(&id) {
        Option::Some(st) => Option::Some(copy_stop(st)),
        Option::None => match &call.stop_point_name {
            Option::Some(names) => {
                if names.len() > 0 {
                    let st = Stop {
                        name: names[0].value.clone(),
                        lat: Option::None,
                        lon: Option::None,
                    };
                    proof {
                        assert(call@.fallback_name() == Option::Some(names.deep_view()[0]));
                    }
                    Option::Some(st)
                } else {
                    Option::None
                }
            },
            Option::None => Option::None,
        },
    }
}

/// Resolve an estimated call's stop: catalog first, then the name embedded
/// in the call.
fn stop_with_fallback_estimated(stops: &Stops, call: &EstimatedCall) -> (r: Option<Stop>)
    ensures
        r.deep_view() == resolve_estimated(stops@, call@),
{
    let id = StopPointRef(call.stop_point_ref.value.clone());
    match stops.get(&id) {
        Option::Some(st) => Option::Some(copy_stop(st)),
        Option::None => match &call.stop_point_name {
            Option::Some(names) => {
                if names.len() > 0 {
                    let st = Stop {
                        name: names[0].value.clone(),
                        lat: Option::None,
                        lon: Option::None,
                    };
                    proof {
                        assert(call@.fallback_name() == Option::Some(names.deep_view()[0]));
                    }
                    Option::Some(st)
                } else {
                    Option::None
                }
            },
            Option::None => Option::None,
        },
    }
}

/// Pushing one string onto a sequence inserts its view into the set of
/// views.
proof fn lemma_push_name_set(s: Seq<String>, x: String)
    ensures
        s.push(x).map_values(|t: String| t@).to_set() == s.map_values(|t: String| t@).to_set(
        ).insert(x@),
{
    let f = |t: String| t@;
    assert(s.push(x).map_values(f) =~= s.map_values(f).push(x@));
    let m = s.map_values(f);
    assert forall|y: Seq<char>| m.push(x@).to_set().contains(y) implies m.to_set().insert(
        x@,
    ).contains(y) by {
        let i = choose|i: int| 0 <= i < m.push(x@).len() && m.push(x@)[i] == y;
        if i < m.len() {
            assert(m[i] == y);
        }
    }
    assert forall|y: Seq<char>| m.to_set().insert(x@).contains(y) implies m.push(x@).to_set(
    ).contains(y) by {
        if y == x@ {
            assert(m.push(x@)[m.len() as int] == y);
        } else {
            let i = choose|i: int| 0 <= i < m.len() && m[i] == y;
            assert(m.push(x@)[i] == y);
        }
    }
    assert(m.push(x@).to_set() =~= m.to_set().insert(x@));
}

impl Journey {
    /// Build one validated journey from a raw entry, or nothing when a
    /// required part is missing or unresolvable: the engine's data-quality
    /// filter, not an error.
    pub fn new(stops: &Stops, journey_id: JourneyId, journey: EstimatedVehicleJourney) -> (r:
        Option<Journey>)
        requires
            journey@.times_ok(),
        ensures
            r.deep_view() == spec_build(stops@, journey_id@, journey@),
            r matches Option::Some(j) ==> j@.wf(),
    {
        let ghost stops_m = stops@;
        let ghost ev = journey@;
        let ghost idv = journey_id@;
        let last_update = journey.recorded_at_time;
        let recorded_calls = match journey.recorded_calls {
            Option::Some(rc) => rc.recorded_call,
            Option::None => {
                return Option::None;
            },
        };
        let ghost recv = recorded_calls.deep_view();
        if recorded_calls.len() == 0 {
            return Option::None;
        }
        let estimated = match journey.estimated_calls {
            Option::Some(ec) => ec.estimated_call,
            Option::None => Vec::new(),
        };
        let ghost estv = estimated.deep_view();
        proof {
            assert(estv =~= ev.estimated_or_empty());
        }
        let finished = estimated.len() == 0;
        let prev = &recorded_calls[recorded_calls.len() - 1];
        proof {
            assert(prev@ == recv.last());
        }
        let planned_opt = if prev.aimed_arrival_time.is_some() {
            prev.aimed_arrival_time
        } else {
            prev.aimed_departure_time
        };
        let prev_stop_planned_time = match planned_opt {
            Option::Some(t) => t,
            Option::None => {
                return Option::None;
            },
        };
        let actual_opt = if prev.actual_arrival_time.is_some() {
            prev.actual_arrival_time
        } else if prev.actual_departure_time.is_some() {
            prev.actual_departure_time
        } else if prev.expected_arrival_time.is_some() {
            prev.expected_arrival_time
        } else {
            prev.expected_departure_time
        };
        let prev_stop_actual_time = match actual_opt {
            Option::Some(t) => t,
            Option::None => {
                return Option::None;
            },
        };
        let prev_stop = match stop_with_fallback_recorded(stops, prev) {
            Option::Some(st) => st,
            Option::None => {
                return Option::None;
            },
        };
        let first_recorded = &recorded_calls[0];
        proof {
            assert(first_recorded@ == recv.first());
        }
        let origin = match stop_with_fallback_recorded(stops, first_recorded) {
            Option::Some(st) => st,
            Option::None => {
                return Option::None;
            },
        };
        let destination = {
            let mut d: Option<Stop> = Option::None;
            if estimated.len() > 0 {
                d = stop_with_fallback_estimated(stops, &estimated[estimated.len() - 1]);
                proof {
                    assert(estimated.deep_view()[estimated@.len() - 1] == estv.last());
                }
            }
            match d {
                Option::Some(st) => st,
                Option::None => copy_stop(&prev_stop),
            }
        };
        let (next_stop, next_stop_planned_time) = if estimated.len() > 0 {
            proof {
                assert(estimated.deep_view()[0] == estv.first());
            }
            match stop_with_fallback_estimated(stops, &estimated[0]) {
                Option::Some(st) => {
                    let pt = if estimated[0].aimed_arrival_time.is_some() {
                        estimated[0].aimed_arrival_time
                    } else {
                        estimated[0].aimed_departure_time
                    };
                    match pt {
                        Option::Some(t) => (Option::Some(st), Option::Some(t)),
                        Option::None => (Option::None, Option::None),
                    }
                },
                Option::None => (Option::None, Option::None),
            }
        } else {
            (Option::None, Option::None)
        };
        let mut to_visit: Vec<String> = Vec::new();
        let ghost mut names: Set<Seq<char>> = Set::empty();
        proof {
            assert(names =~= visit_names_upto(stops_m, estv, 0)) by {
                assert(forall|n: Seq<char>, q: int| q < 0 ==> !visit_at(stops_m, estv, q, n));
            }
            assert(to_visit@.map_values(|s: String| s@).to_set() =~= Set::<Seq<char>>::empty());
        }
        let en = estimated.len();
        let mut k: usize = 0;
        while k < en
            invariant
                en == estimated@.len(),
                k <= en,
                estv == estimated.deep_view(),
                stops_m == stops@,
                names == to_visit@.map_values(|s: String| s@).to_set(),
                names == visit_names_upto(stops_m, estv, k as int),
            decreases en - k,
        {
            let ghost names_before = names;
            let cancelled_call = match estimated[k].cancellation {
                Option::Some(b) => b,
                Option::None => false,
            };
            if !cancelled_call {
                match stop_with_fallback_estimated(stops, &estimated[k]) {
                    Option::Some(st) => {
                        proof {
                            lemma_push_name_set(to_visit@, st.name);
                            names = names.insert(st@.name);
                        }
                        let ghost stname = st@.name;
                        to_visit.push(st.name);
                        proof {
                            assert(visit_at(stops_m, estv, k as int, stname));
                            assert forall|n: Seq<char>|
                                visit_names_upto(stops_m, estv, k + 1 as int).contains(
                                    n,
                                ) implies names.contains(n) by {
                                let q = choose|q: int|
                                    q < k + 1 && #[trigger] visit_at(stops_m, estv, q, n);
                                if q < k {
                                    assert(names_before.contains(n));
                                }
                            }
                            assert forall|n: Seq<char>| names.contains(n) implies visit_names_upto(
                                stops_m,
                                estv,
                                k + 1 as int,
                            ).contains(n) by {
                                if n == stname {
                                    assert(visit_at(stops_m, estv, k as int, n));
                                } else {
                                    assert(names_before.contains(n));
                                    let q = choose|q: int|
                                        q < k as int && #[trigger] visit_at(stops_m, estv, q, n);
                                }
                            }
                            assert(names =~= visit_names_upto(stops_m, estv, k + 1 as int));
                        }
                    },
                    Option::None => {
                        proof {
                            assert forall|n: Seq<char>|
                                visit_names_upto(stops_m, estv, k + 1 as int).contains(
                                    n,
                                ) implies names.contains(n) by {
                                let q = choose|q: int|
                                    q < k + 1 && #[trigger] visit_at(stops_m, estv, q, n);
                                assert(q != k);
                            }
                            assert(names =~= visit_names_upto(stops_m, estv, k + 1 as int));
                        }
                    },
                }
            } else {
                proof {
                    assert(estv[k as int].cancelled());
                    assert forall|n: Seq<char>|
                        visit_names_upto(stops_m, estv, k + 1 as int).contains(n) implies names
                        .contains(n) by {
                        let q = choose|q: int| q < k + 1 && #[trigger] visit_at(stops_m, estv, q, n);
                        assert(q != k);
                    }
                    assert(names =~= visit_names_upto(stops_m, estv, k + 1 as int));
                }
            }
            k += 1;
        }
        let cancelled = match journey.cancellation {
            Option::Some(b) => b,
            Option::None => false,
        };
        let j = Journey {
            last_update,
            journey_id,
            data_source: journey.data_source,
            line_ref: journey.line_ref.value,
            cancelled,
            finished,
            origin,
            destination,
            prev_stop,
            next_stop,
            prev_stop_planned_time,
            prev_stop_actual_time,
            next_stop_planned_time,
            to_visit,
        };
        proof {
            assert(recorded_calls_times_ok_of(ev));
            assert(recv.last().times_ok());
            assert(j@.to_visit == visit_names(stops_m, estv));
            assert(spec_build(stops_m, idv, ev) == Option::Some(j@));
        }
        Option::Some(j)
    }
}

/// The recorded calls of an entry all have in-range times; follows from the
/// entry's own bound.
pub open spec fn recorded_calls_times_ok_of(e: EstimatedVehicleJourneyV) -> bool {
    match e.recorded_calls {
        Option::Some(calls) => crate::entur_siriformat::recorded_calls_times_ok(calls),
        Option::None => true,
    }
}


// ------------------------------------------------------------------
// The journey index
// ------------------------------------------------------------------

/// The index of current journeys, keyed by journey identity.
#[derive(Clone)]
pub struct Journeys {
    journeys: Vec<(JourneyId, Journey)>,
}

/// The mapping described by an association list of journeys, later entries
/// shadowing earlier ones.
pub open spec fn journeys_assoc(s: Seq<(JourneyId, Journey)>) -> Map<Seq<char>, JourneyV>
    decreases s.len(),
{
    if s.len() == 0 {
        Map::empty()
    } else {
        journeys_assoc(s.drop_last()).insert(s.last().0@, s.last().1@)
    }
}

/// No two entries carry the same key.
pub open spec fn journeys_unique(s: Seq<(JourneyId, Journey)>) -> bool {
    forall|i: int, j: int| 0 <= i < j < s.len() ==> (#[trigger] s[i]).0@ != (#[trigger] s[j]).0@
}

/// The abstract invariant of an index: every journey is filed under its own
/// identity and is well formed.
pub open spec fn index_inv(m: Map<Seq<char>, JourneyV>) -> bool {
    forall|k: Seq<char>| #[trigger] m.contains_key(k) ==> m[k].journey_id == k && m[k].wf()
}

impl View for Journeys {
    type V = Map<Seq<char>, JourneyV>;

    closed spec fn view(&self) -> Map<Seq<char>, JourneyV> {
        journeys_assoc(self.journeys@)
    }
}

impl Journeys {
    /// The representation invariant: unique keys, each journey filed under
    /// its own identity, every journey well formed.
    pub closed spec fn wf(&self) -> bool {
        &&& journeys_unique(self.journeys@)
        &&& forall|i: int|
            0 <= i < self.journeys@.len() ==> (#[trigger] self.journeys@[i]).1@.journey_id
                == self.journeys@[i].0@ && self.journeys@[i].1@.wf()
    }
}

/// A key occurs in the mapping exactly when some list entry carries it.
proof fn lemma_jassoc_contains(s: Seq<(JourneyId, Journey)>, k: Seq<char>)
    ensures
        journeys_assoc(s).contains_key(k) <==> exists|i: int|
            0 <= i < s.len() && (#[trigger] s[i]).0@ == k,
    decreases s.len(),
{
    if s.len() > 0 {
        lemma_jassoc_contains(s.drop_last(), k);
        assert(forall|i: int| 0 <= i < s.len() - 1 ==> (#[trigger] s[i]) == s.drop_last()[i]);
        if s.last().0@ == k {
            assert(s[s.len() - 1].0@ == k);
        } else if journeys_assoc(s).contains_key(k) {
            let i = choose|i: int| 0 <= i < s.drop_last().len() && (#[trigger] s.drop_last()[i]).0@
                == k;
            assert(s[i].0@ == k);
        } else {
            assert(forall|i: int| 0 <= i < s.len() - 1 ==> (#[trigger] s[i]).0@ != k) by {
                assert(forall|i: int|
                    0 <= i < s.drop_last().len() ==> (#[trigger] s.drop_last()[i]).0@ != k);
            }
        }
    }
}

/// The value filed under a key is the value of the last entry carrying it.
proof fn lemma_jassoc_last_match(s: Seq<(JourneyId, Journey)>, i: int, k: Seq<char>)
    requires
        0 <= i < s.len(),
        s[i].0@ == k,
        forall|j: int| i < j < s.len() ==> (#[trigger] s[j]).0@ != k,
    ensures
        journeys_assoc(s).contains_key(k),
        journeys_assoc(s)[k] == s[i].1@,
    decreases s.len(),
{
    if i == s.len() - 1 {
    } else {
        assert(forall|j: int| 0 <= j < s.len() - 1 ==> (#[trigger] s.drop_last()[j]) == s[j]);
        lemma_jassoc_last_match(s.drop_last(), i, k);
        assert(s.last().0@ != k);
    }
}

/// With unique keys, each entry is the one its key is filed under.
proof fn lemma_jassoc_value(s: Seq<(JourneyId, Journey)>, i: int)
    requires
        journeys_unique(s),
        0 <= i < s.len(),
    ensures
        journeys_assoc(s).contains_key(s[i].0@),
        journeys_assoc(s)[s[i].0@] == s[i].1@,
{
    lemma_jassoc_last_match(s, i, s[i].0@);
}

/// Removing one entry of a unique-keyed list removes exactly its key from
/// the mapping.
proof fn lemma_jassoc_remove(s: Seq<(JourneyId, Journey)>, i: int)
    requires
        journeys_unique(s),
        0 <= i < s.len(),
    ensures
        journeys_assoc(s.remove(i)) == journeys_assoc(s).remove(s[i].0@),
        journeys_unique(s.remove(i)),
    decreases s.len(),
{
    assert(journeys_unique(s.remove(i))) by {
        assert(forall|a: int|
            0 <= a < s.len() - 1 ==> (#[trigger] s.remove(i)[a]) == if a < i {
                s[a]
            } else {
                s[a + 1]
            });
    }
    if i == s.len() - 1 {
        assert(s.remove(i) =~= s.drop_last());
        lemma_jassoc_contains(s.drop_last(), s[i].0@);
        assert(forall|a: int| 0 <= a < s.len() - 1 ==> (#[trigger] s.drop_last()[a]) == s[a]);
        assert(!journeys_assoc(s.drop_last()).contains_key(s[i].0@));
        assert(journeys_assoc(s.remove(i)) =~= journeys_assoc(s).remove(s[i].0@));
    } else {
        assert(forall|a: int| 0 <= a < s.len() - 1 ==> (#[trigger] s.drop_last()[a]) == s[a]);
        lemma_jassoc_remove(s.drop_last(), i);
        assert(s.remove(i).drop_last() =~= s.drop_last().remove(i));
        assert(s.remove(i).last() == s.last());
        assert(s[i].0@ != s.last().0@);
        assert(journeys_assoc(s.remove(i)) =~= journeys_assoc(s).remove(s[i].0@));
    }
}

/// With unique keys, the mapping has exactly one entry per list element.
proof fn lemma_jassoc_len(s: Seq<(JourneyId, Journey)>)
    requires
        journeys_unique(s),
    ensures
        journeys_assoc(s).dom().finite(),
        journeys_assoc(s).dom().len() == s.len(),
    decreases s.len(),
{
    if s.len() > 0 {
        assert(forall|a: int| 0 <= a < s.len() - 1 ==> (#[trigger] s.drop_last()[a]) == s[a]);
        lemma_jassoc_len(s.drop_last());
        lemma_jassoc_contains(s.drop_last(), s.last().0@);
        assert(!journeys_assoc(s.drop_last()).contains_key(s.last().0@));
    }
}

/// The identity of the run a raw entry describes: the first present of the
/// dated journey reference, the framed journey reference's inner field, and
/// the block reference — an explicit, ordered chain of candidates.
pub fn journey_id_of(entry: &EstimatedVehicleJourney) -> (r: Option<String>)
    ensures
        r.deep_view() == entry@.journey_id(),
{
    match &entry.dated_vehicle_journey_ref {
        Option::Some(sv) => Option::Some(sv.value.clone()),
        Option::None => match &entry.framed_vehicle_journey_ref {
            Option::Some(fr) => Option::Some(fr.dated_vehicle_journey_ref.clone()),
            Option::None => match &entry.block_ref {
                Option::Some(sv) => Option::Some(sv.value.clone()),
                Option::None => Option::None,
            },
        },
    }
}

/// The index described by a sequence of raw entries: each entry that yields
/// an identity and a journey is filed under that identity, and an entry
/// displaces an already filed journey unless the filed one carries a
/// strictly newer record time. Entries whose record times differ thus end
/// with the newest record winning, however the input is ordered.
pub open spec fn spec_index(
    stops: Map<Seq<char>, StopV>,
    entries: Seq<EstimatedVehicleJourneyV>,
) -> Map<Seq<char>, JourneyV>
    decreases entries.len(),
{
    if entries.len() == 0 {
        Map::empty()
    } else {
        let m = spec_index(stops, entries.drop_last());
        let e = entries.last();
        match e.journey_id() {
            Option::None => m,
            Option::Some(id) => match spec_build(stops, id, e) {
                Option::None => m,
                Option::Some(j) => if m.contains_key(id) && m[id].last_update
                    > e.recorded_at_time {
                    m
                } else {
                    m.insert(id, j)
                },
            },
        }
    }
}

impl Journeys {
    /// Find the position a key is filed at, if any.
    fn find_index(&self, id: &JourneyId) -> (r: Option<usize>)
        ensures
            match r {
                Option::Some(i) => i < self.journeys@.len() && self.journeys@[i as int].0@ == id@,
                Option::None => forall|i: int|
                    0 <= i < self.journeys@.len() ==> (#[trigger] self.journeys@[i]).0@ != id@,
            },
    {
        let n = self.journeys.len();
        let mut i: usize = 0;
        while i < n
            invariant
                n == self.journeys@.len(),
                i <= n,
                forall|a: int| 0 <= a < i ==> (#[trigger] self.journeys@[a]).0@ != id@,
            decreases n - i,
        {
            if self.journeys[i].0.0 == id.0 {
                return Option::Some(i);
            }
            i += 1;
        }
        Option::None
    }

    /// File a journey under its identity, displacing any filed one.
    fn force_insert(&mut self, id: JourneyId, journey: Journey)
        requires
            old(self).wf(),
            journey@.wf(),
            journey@.journey_id == id@,
        ensures
            final(self).wf(),
            final(self)@ == old(self)@.insert(id@, journey@),
    {
        let ghost s0 = self.journeys@;
        match self.find_index(&id) {
            Option::Some(i) => {
                proof {
                    lemma_jassoc_remove(s0, i as int);
                }
                let _ = self.journeys.remove(i);
                let ghost s1 = self.journeys@;
                self.journeys.push((id, journey));
                proof {
                    assert(self.journeys@.drop_last() =~= s1);
                    assert(journeys_assoc(self.journeys@) =~= journeys_assoc(s0).insert(
                        id@,
                        journey@,
                    ));
                    assert(forall|a: int|
                        0 <= a < s1.len() ==> (#[trigger] s1[a]) == if a < i as int {
                            s0[a]
                        } else {
                            s0[a + 1]
                        });
                    lemma_jassoc_contains(s1, id@);
                }
            },
            Option::None => {
                self.journeys.push((id, journey));
                proof {
                    assert(self.journeys@.drop_last() =~= s0);
                    assert(journeys_assoc(self.journeys@) =~= journeys_assoc(s0).insert(
                        id@,
                        journey@,
                    ));
                }
            },
        }
    }

    /// File a journey under its identity unless the filed one carries a
    /// strictly newer record time.
    fn upsert(&mut self, id: JourneyId, journey: Journey)
        requires
            old(self).wf(),
            journey@.wf(),
            journey@.journey_id == id@,
        ensures
            final(self).wf(),
            final(self)@ == if old(self)@.contains_key(id@) && old(self)@[id@].last_update
                > journey@.last_update {
                old(self)@
            } else {
                old(self)@.insert(id@, journey@)
            },
    {
        let ghost s0 = self.journeys@;
        let keep = match self.find_index(&id) {
            Option::Some(i) => {
                proof {
                    lemma_jassoc_value(s0, i as int);
                }
                self.journeys[i].1.last_update > journey.last_update
            },
            Option::None => {
                proof {
                    lemma_jassoc_contains(s0, id@);
                }
                false
            },
        };
        if !keep {
            self.force_insert(id, journey);
        }
    }

    /// Build an index from one fetched batch of raw entries. Per identity,
    /// the entry with the newest record time wins; an entry that yields no
    /// journey is dropped silently.
    pub fn new(stops: &Stops, journeys: Vec<EstimatedVehicleJourney>) -> (r: Journeys)
        requires
            forall|i: int|
                0 <= i < journeys.deep_view().len() ==> (#[trigger] journeys.deep_view()[i]).times_ok(),
        ensures
            r.wf(),
            r@ == spec_index(stops@, journeys.deep_view()),
            index_inv(r@),
    {
        let ghost entries0 = journeys.deep_view();
        let ghost stops_m = stops@;
        let mut remaining = journeys;
        let mut r = Journeys { journeys: Vec::new() };
        let ghost mut done: int = 0;
        proof {
            assert(remaining.deep_view() =~= entries0.skip(0));
            assert(spec_index(stops_m, entries0.take(0)) =~= Map::<Seq<char>, JourneyV>::empty());
        }
        while remaining.len() > 0
            invariant
                stops_m == stops@,
                0 <= done <= entries0.len(),
                remaining.deep_view() == entries0.skip(done),
                forall|i: int|
                    0 <= i < entries0.len() ==> (#[trigger] entries0[i]).times_ok(),
                r.wf(),
                r@ == spec_index(stops_m, entries0.take(done)),
            decreases remaining@.len(),
        {
            let ghost rem_before = remaining.deep_view();
            let entry = remaining.remove(0);
            proof {
                assert(rem_before.len() > 0);
                assert(done < entries0.len());
                assert(entries0.skip(done)[0] == entries0[done]);
                assert(entry@ == rem_before.first());
                assert(rem_before.first() == entries0[done]);
                assert(remaining.deep_view() =~= rem_before.drop_first());
                assert(rem_before.drop_first() =~= entries0.skip(done + 1));
                assert(entries0.take(done + 1).drop_last() =~= entries0.take(done));
                assert(entries0.take(done + 1).last() == entries0[done]);
            }
            let ghost m_before = r@;
            match journey_id_of(&entry) {
                Option::Some(id_str) => {
                    let key = JourneyId(id_str.clone());
                    let jid = JourneyId(id_str);
                    match Journey::new(stops, jid, entry) {
                        Option::Some(j) => {
                            r.upsert(key, j);
                        },
                        Option::None => {},
                    }
                },
                Option::None => {},
            }
            proof {
                assert(r@ == spec_index(stops_m, entries0.take(done + 1)));
                done = done + 1;
            }
        }
        proof {
            assert(entries0.take(done) =~= entries0);
            assert forall|k: Seq<char>| #[trigger] r@.contains_key(k) implies r@[k].journey_id == k
                && r@[k].wf() by {
                lemma_jassoc_contains(r.journeys@, k);
                let i = choose|i: int| 0 <= i < r.journeys@.len() && (#[trigger] r.journeys@[i]).0@
                    == k;
                lemma_jassoc_value(r.journeys@, i);
            }
        }
        r
    }

    /// The number of journeys currently filed.
    pub fn len(&self) -> (r: usize)
        requires
            self.wf(),
        ensures
            r == self@.dom().len(),
    {
        proof {
            lemma_jassoc_len(self.journeys@);
        }
        self.journeys.len()
    }

    /// Fold another index into this one, wholesale: for every identity the
    /// other index knows, its journey displaces ours. Last writer wins; no
    /// per-field merging.
    pub fn merge_from(&mut self, other: Journeys)
        requires
            old(self).wf(),
            other.wf(),
        ensures
            final(self).wf(),
            final(self)@ == old(self)@.union_prefer_right(other@),
    {
        let ghost m0 = self@;
        let ghost pairs0 = other.journeys@;
        let mut rest = other.journeys;
        let ghost mut done: int = 0;
        proof {
            assert(rest@ =~= pairs0.skip(0));
            assert(journeys_assoc(pairs0.take(0)) =~= Map::<Seq<char>, JourneyV>::empty());
            assert(m0.union_prefer_right(journeys_assoc(pairs0.take(0))) =~= m0);
        }
        while rest.len() > 0
            invariant
                0 <= done <= pairs0.len(),
                rest@ == pairs0.skip(done),
                journeys_unique(pairs0),
                forall|i: int|
                    0 <= i < pairs0.len() ==> (#[trigger] pairs0[i]).1@.journey_id == pairs0[i].0@
                        && pairs0[i].1@.wf(),
                self.wf(),
                self@ == m0.union_prefer_right(journeys_assoc(pairs0.take(done))),
            decreases rest@.len(),
        {
            let pair = rest.remove(0);
            proof {
                assert(pair == pairs0[done]);
                assert(rest@ =~= pairs0.skip(done + 1));
                assert(pairs0.take(done + 1).drop_last() =~= pairs0.take(done));
                assert(pairs0.take(done + 1).last() == pairs0[done]);
            }
            let ghost m_before = self@;
            let (id, journey) = pair;
            self.force_insert(id, journey);
            proof {
                assert(self@ =~= m0.union_prefer_right(journeys_assoc(pairs0.take(done + 1))));
                done = done + 1;
            }
        }
        proof {
            assert(pairs0.take(done) =~= pairs0);
        }
    }

    /// What expiry leaves: exactly the journeys updated after the cutoff.
    pub open spec fn expire_map(m: Map<Seq<char>, JourneyV>, cutoff: int) -> Map<
        Seq<char>,
        JourneyV,
    > {
        Map::new(
            |k: Seq<char>| m.contains_key(k) && m[k].last_update > cutoff,
            |k: Seq<char>| m[k],
        )
    }

    /// Drop every journey whose `last_update` is at or before the cutoff,
    /// and keep all others.
    pub fn expire(&mut self, cutoff: i64)
        requires
            old(self).wf(),
        ensures
            final(self).wf(),
            final(self)@ == Journeys::expire_map(old(self)@, cutoff as int),
    {
        let ghost orig = self.journeys@;
        let mut v: Vec<(JourneyId, Journey)> = Vec::new();
        core::mem::swap(&mut v, &mut self.journeys);
        let mut kept: Vec<(JourneyId, Journey)> = Vec::new();
        let ghost mut done: int = 0;
        proof {
            assert(v@ =~= orig.skip(0));
            assert(journeys_assoc(kept@) =~= Journeys::expire_map(
                journeys_assoc(orig.take(0)),
                cutoff as int,
            ));
        }
        while v.len() > 0
            invariant
                0 <= done <= orig.len(),
                v@ == orig.skip(done),
                journeys_unique(orig),
                forall|i: int|
                    0 <= i < orig.len() ==> (#[trigger] orig[i]).1@.journey_id == orig[i].0@
                        && orig[i].1@.wf(),
                journeys_unique(kept@),
                forall|i: int|
                    0 <= i < kept@.len() ==> (#[trigger] kept@[i]).1@.journey_id == kept@[i].0@
                        && kept@[i].1@.wf(),
                forall|a: int|
                    0 <= a < kept@.len() ==> journeys_assoc(orig.take(done)).contains_key(
                        (#[trigger] kept@[a]).0@,
                    ),
                journeys_assoc(kept@) == Journeys::expire_map(
                    journeys_assoc(orig.take(done)),
                    cutoff as int,
                ),
            decreases v@.len(),
        {
            let pair = v.remove(0);
            proof {
                assert(pair == orig[done]);
                assert(v@ =~= orig.skip(done + 1));
                assert(orig.take(done + 1).drop_last() =~= orig.take(done));
                assert(orig.take(done + 1).last() == orig[done]);
                lemma_jassoc_contains(orig.take(done), pair.0@);
                assert(forall|a: int|
                    0 <= a < done ==> (#[trigger] orig.take(done)[a]) == orig[a]);
                assert(!journeys_assoc(orig.take(done)).contains_key(pair.0@));
            }
            let ghost kept_before = kept@;
            if pair.1.last_update > cutoff {
                kept.push(pair);
                proof {
                    assert(kept@.drop_last() =~= kept_before);
                    assert(journeys_unique(kept@)) by {
                        assert forall|i: int, j: int|
                            0 <= i < j < kept@.len() implies (#[trigger] kept@[i]).0@
                            != (#[trigger] kept@[j]).0@ by {
                            if j == kept@.len() - 1 {
                                assert(journeys_assoc(orig.take(done)).contains_key(
                                    kept_before[i].0@,
                                ));
                            }
                        }
                    }
                    assert(journeys_assoc(kept@) =~= Journeys::expire_map(
                        journeys_assoc(orig.take(done + 1)),
                        cutoff as int,
                    ));
                    assert forall|a: int|
                        0 <= a < kept@.len() implies journeys_assoc(
                        orig.take(done + 1),
                    ).contains_key((#[trigger] kept@[a]).0@) by {
                        assert(journeys_assoc(orig.take(done + 1)) == journeys_assoc(
                            orig.take(done),
                        ).insert(orig[done].0@, orig[done].1@));
                    }
                }
            } else {
                proof {
                    assert(journeys_assoc(kept@) =~= Journeys::expire_map(
                        journeys_assoc(orig.take(done + 1)),
                        cutoff as int,
                    ));
                    assert forall|a: int|
                        0 <= a < kept@.len() implies journeys_assoc(
                        orig.take(done + 1),
                    ).contains_key((#[trigger] kept@[a]).0@) by {
                        assert(journeys_assoc(orig.take(done + 1)) == journeys_assoc(
                            orig.take(done),
                        ).insert(orig[done].0@, orig[done].1@));
                    }
                }
            }
            proof {
                done = done + 1;
            }
        }
        self.journeys = kept;
        proof {
            assert(orig.take(done) =~= orig);
        }
    }
}


/// How long a vehicle may run beyond its planned arrival at the next stop
/// before it counts as possibly stuck: eight minutes, in seconds.
pub const STUCK_SLACK_SECONDS: i64 = 480;

/// A journey is possibly stuck when it knows a planned time at its next
/// stop and the clock has passed that time by more than the slack. A
/// journey on its last leg (no next stop) is never possibly stuck.
pub open spec fn spec_possibly_stuck(j: JourneyV, now: int) -> bool {
    match j.next_stop_planned_time {
        Option::Some(next) => now > next + STUCK_SLACK_SECONDS,
        Option::None => false,
    }
}

/// Whether a data source is one of the given codes.
pub open spec fn in_modes(modes: Seq<Seq<char>>, ds: Seq<char>) -> bool {
    exists|a: int| 0 <= a < modes.len() && modes[a] == ds
}

/// The data sources that carry trains.
pub open spec fn is_train_source(ds: Seq<char>) -> bool {
    ||| ds == "VYG"@
    ||| ds == "BNR"@
    ||| ds == "SJN"@
    ||| ds == "GOA"@
    ||| ds == "FLY"@
    ||| ds == "FLT"@
}

impl Journey {
    /// Seconds the vehicle was late at the last recorded stop; negative
    /// when it was early.
    pub fn recorded_delay_seconds(&self) -> (r: i64)
        requires
            self@.wf(),
        ensures
            r == self@.prev_stop_actual_time - self@.prev_stop_planned_time,
    {
        self.prev_stop_actual_time - self.prev_stop_planned_time
    }

    /// Whether the vehicle is overdue at its next stop: the planned travel
    /// time from the last recorded stop plus the slack has passed. `false`
    /// whenever there is no next stop.
    pub fn possibly_stuck(&self, now: i64) -> (r: bool)
        requires
            self@.wf(),
            crate::entur_siriformat::ts_ok(now as int),
        ensures
            r == spec_possibly_stuck(self@, now as int),
    {
        if let Option::Some(next) = self.next_stop_planned_time {
            let planned_travel_time = next - self.prev_stop_planned_time;
            let cushion = planned_travel_time + STUCK_SLACK_SECONDS;
            let cutoff = self.prev_stop_planned_time + cushion;
            now > cutoff
        } else {
            false
        }
    }

    /// Whether this journey still plans to visit a stop with the given
    /// name.
    pub fn visits(&self, stop_name: &String) -> (r: bool)
        ensures
            r == self@.to_visit.contains(stop_name@),
    {
        let r = vec_contains_string(&self.to_visit, stop_name);
        proof {
            let m = self.to_visit@.map_values(|s: String| s@);
            if r {
                let a = choose|a: int|
                    0 <= a < self.to_visit@.len() && (#[trigger] self.to_visit@[a])@ == stop_name@;
                assert(m[a] == stop_name@);
                assert(m.contains(stop_name@));
            } else {
                if self@.to_visit.contains(stop_name@) {
                    let a = choose|a: int| 0 <= a < m.len() && m[a] == stop_name@;
                    assert((self.to_visit@[a])@ == stop_name@);
                }
            }
        }
        r
    }

    /// Whether this journey belongs to a train data source.
    pub fn is_train(&self) -> (r: bool)
        ensures
            r == is_train_source(self@.data_source),
    {
        self.data_source == String::from_str("VYG") || self.data_source == String::from_str("BNR")
            || self.data_source == String::from_str("SJN") || self.data_source == String::from_str(
            "GOA",
        ) || self.data_source == String::from_str("FLY") || self.data_source == String::from_str(
            "FLT",
        )
    }
}

impl Journeys {
    /// All journeys that still plan to visit a stop with the given name, in
    /// no particular order, one per identity. An unknown name and a name no
    /// current journey visits both give an empty answer.
    pub fn by_visits(&self, stop_name: &str) -> (r: Vec<&Journey>)
        requires
            self.wf(),
        ensures
            forall|a: int|
                0 <= a < r@.len() ==> {
                    &&& self@.contains_key((#[trigger] r@[a])@.journey_id)
                    &&& self@[r@[a]@.journey_id] == r@[a]@
                    &&& r@[a]@.to_visit.contains(stop_name@)
                },
            forall|k: Seq<char>|
                #[trigger] self@.contains_key(k) && self@[k].to_visit.contains(stop_name@)
                    ==> exists|a: int| 0 <= a < r@.len() && (#[trigger] r@[a])@.journey_id == k,
            forall|a: int, b: int|
                0 <= a < b < r@.len() ==> (#[trigger] r@[a])@.journey_id != (#[trigger] r@[b])@.journey_id,
    {
        let name = String::from_str(stop_name);
        let n = self.journeys.len();
        let mut r: Vec<&Journey> = Vec::new();
        let mut i: usize = 0;
        while i < n
            invariant
                self.wf(),
                n == self.journeys@.len(),
                i <= n,
                name@ == stop_name@,
                forall|a: int|
                    0 <= a < r@.len() ==> {
                        &&& self@.contains_key((#[trigger] r@[a])@.journey_id)
                        &&& self@[r@[a]@.journey_id] == r@[a]@
                        &&& r@[a]@.to_visit.contains(name@)
                    },
                forall|a: int|
                    0 <= a < r@.len() ==> exists|p: int|
                        0 <= p < i && (#[trigger] r@[a])@.journey_id == self.journeys@[p].0@,
                forall|p: int|
                    0 <= p < i && (#[trigger] self.journeys@[p]).1@.to_visit.contains(name@)
                        ==> exists|a: int|
                        0 <= a < r@.len() && (#[trigger] r@[a])@.journey_id
                            == self.journeys@[p].0@,
                forall|a: int, b: int|
                    0 <= a < b < r@.len() ==> (#[trigger] r@[a])@.journey_id
                        != (#[trigger] r@[b])@.journey_id,
            decreases n - i,
        {
            let ghost r_before = r@;
            if self.journeys[i].1.visits(&name) {
                proof {
                    lemma_jassoc_value(self.journeys@, i as int);
                }
                r.push(&self.journeys[i].1);
                proof {
                    assert forall|a: int, b: int|
                        0 <= a < b < r@.len() implies (#[trigger] r@[a])@.journey_id
                        != (#[trigger] r@[b])@.journey_id by {
                        if b == r@.len() - 1 {
                            let p = choose|p: int|
                                0 <= p < i && (#[trigger] r_before[a])@.journey_id
                                    == self.journeys@[p].0@;
                            assert(self.journeys@[p].0@ != self.journeys@[i as int].0@);
                        }
                    }
                }
            }
            proof {
                assert forall|a: int| 0 <= a < r@.len() implies exists|p: int|
                    0 <= p < i + 1 && (#[trigger] r@[a])@.journey_id == self.journeys@[p].0@ by {
                    if a < r_before.len() {
                        let p = choose|p: int|
                            0 <= p < i && (#[trigger] r_before[a])@.journey_id
                                == self.journeys@[p].0@;
                        assert(r@[a]@.journey_id == self.journeys@[p].0@);
                    } else {
                        assert(r@[a]@.journey_id == self.journeys@[i as int].0@);
                    }
                }
                assert forall|p: int|
                    0 <= p < i + 1 && (#[trigger] self.journeys@[p]).1@.to_visit.contains(
                        name@,
                    ) implies exists|a: int|
                    0 <= a < r@.len() && (#[trigger] r@[a])@.journey_id
                        == self.journeys@[p].0@ by {
                    if p < i {
                        let a = choose|a: int|
                            0 <= a < r_before.len() && (#[trigger] r_before[a])@.journey_id
                                == self.journeys@[p].0@;
                        assert(r@[a]@.journey_id == self.journeys@[p].0@);
                    } else {
                        assert(r@[r@.len() - 1]@.journey_id == self.journeys@[i as int].0@);
                    }
                }
            }
            i += 1;
        }
        proof {
            assert forall|k: Seq<char>|
                #[trigger] self@.contains_key(k) && self@[k].to_visit.contains(
                    stop_name@,
                ) implies exists|a: int|
                0 <= a < r@.len() && (#[trigger] r@[a])@.journey_id == k by {
                lemma_jassoc_contains(self.journeys@, k);
                let p = choose|p: int| 0 <= p < self.journeys@.len()
                    && (#[trigger] self.journeys@[p]).0@ == k;
                lemma_jassoc_value(self.journeys@, p);
                assert(self.journeys@[p].1@.to_visit.contains(stop_name@));
            }
        }
        r
    }

    /// All journeys whose data source is one of the given codes, in no
    /// particular order, one per identity.
    pub fn by_mode(&self, modes: &Vec<String>) -> (r: Vec<&Journey>)
        requires
            self.wf(),
        ensures
            forall|a: int|
                0 <= a < r@.len() ==> {
                    &&& self@.contains_key((#[trigger] r@[a])@.journey_id)
                    &&& self@[r@[a]@.journey_id] == r@[a]@
                    &&& in_modes(modes.deep_view(), r@[a]@.data_source)
                },
            forall|k: Seq<char>|
                #[trigger] self@.contains_key(k) && in_modes(
                    modes.deep_view(),
                    self@[k].data_source,
                ) ==> exists|a: int| 0 <= a < r@.len() && (#[trigger] r@[a])@.journey_id == k,
            forall|a: int, b: int|
                0 <= a < b < r@.len() ==> (#[trigger] r@[a])@.journey_id != (#[trigger] r@[b])@.journey_id,
    {
        let ghost mv = modes.deep_view();
        let n = self.journeys.len();
        let mut r: Vec<&Journey> = Vec::new();
        let mut i: usize = 0;
        while i < n
            invariant
                mv == modes.deep_view(),
                self.wf(),
                n == self.journeys@.len(),
                i <= n,
                forall|a: int|
                    0 <= a < r@.len() ==> {
                        &&& self@.contains_key((#[trigger] r@[a])@.journey_id)
                        &&& self@[r@[a]@.journey_id] == r@[a]@
                        &&& in_modes(modes.deep_view(), r@[a]@.data_source)
                    },
                forall|a: int|
                    0 <= a < r@.len() ==> exists|p: int|
                        0 <= p < i && (#[trigger] r@[a])@.journey_id == self.journeys@[p].0@,
                forall|p: int|
                    0 <= p < i && in_modes(mv, (#[trigger] self.journeys@[p]).1@.data_source)
                        ==> exists|a: int|
                        0 <= a < r@.len() && (#[trigger] r@[a])@.journey_id
                            == self.journeys@[p].0@,
                forall|a: int, b: int|
                    0 <= a < b < r@.len() ==> (#[trigger] r@[a])@.journey_id
                        != (#[trigger] r@[b])@.journey_id,
            decreases n - i,
        {
            let ghost r_before = r@;
            let matches_mode = vec_contains_string(modes, &self.journeys[i].1.data_source);
            proof {
                let ds = self.journeys@[i as int].1.data_source@;
                assert(ds == self.journeys@[i as int].1@.data_source);
                assert(mv.len() == modes@.len());
                assert(forall|a: int| 0 <= a < mv.len() ==> #[trigger] mv[a] == (modes@[a])@);
                if matches_mode {
                    let a = choose|a: int|
                        0 <= a < modes@.len() && (#[trigger] modes@[a])@ == ds;
                    assert(mv[a] == ds);
                    assert(in_modes(mv, ds));
                } else {
                    if in_modes(mv, ds) {
                        let a = choose|a: int| 0 <= a < mv.len() && mv[a] == ds;
                        assert((modes@[a])@ == ds);
                    }
                }
            }
            if matches_mode {
                proof {
                    lemma_jassoc_value(self.journeys@, i as int);
                }
                r.push(&self.journeys[i].1);
                proof {
                    assert forall|a: int, b: int|
                        0 <= a < b < r@.len() implies (#[trigger] r@[a])@.journey_id
                        != (#[trigger] r@[b])@.journey_id by {
                        if b == r@.len() - 1 {
                            let p = choose|p: int|
                                0 <= p < i && (#[trigger] r_before[a])@.journey_id
                                    == self.journeys@[p].0@;
                            assert(self.journeys@[p].0@ != self.journeys@[i as int].0@);
                        }
                    }
                }
            }
            proof {
                assert forall|a: int| 0 <= a < r@.len() implies exists|p: int|
                    0 <= p < i + 1 && (#[trigger] r@[a])@.journey_id == self.journeys@[p].0@ by {
                    if a < r_before.len() {
                        let p = choose|p: int|
                            0 <= p < i && (#[trigger] r_before[a])@.journey_id
                                == self.journeys@[p].0@;
                        assert(r@[a]@.journey_id == self.journeys@[p].0@);
                    } else {
                        assert(r@[a]@.journey_id == self.journeys@[i as int].0@);
                    }
                }
                assert forall|p: int|
                    0 <= p < i + 1 && in_modes(
                        mv,
                        (#[trigger] self.journeys@[p]).1@.data_source,
                    ) implies exists|a: int|
                    0 <= a < r@.len() && (#[trigger] r@[a])@.journey_id
                        == self.journeys@[p].0@ by {
                    if p < i {
                        let a = choose|a: int|
                            0 <= a < r_before.len() && (#[trigger] r_before[a])@.journey_id
                                == self.journeys@[p].0@;
                        assert(r@[a]@.journey_id == self.journeys@[p].0@);
                    } else {
                        assert(r@[r@.len() - 1]@.journey_id == self.journeys@[i as int].0@);
                    }
                }
            }
            i += 1;
        }
        proof {
            assert forall|k: Seq<char>|
                #[trigger] self@.contains_key(k) && in_modes(
                    mv,
                    self@[k].data_source,
                ) implies exists|a: int|
                0 <= a < r@.len() && (#[trigger] r@[a])@.journey_id == k by {
                lemma_jassoc_contains(self.journeys@, k);
                let p = choose|p: int| 0 <= p < self.journeys@.len()
                    && (#[trigger] self.journeys@[p]).0@ == k;
                lemma_jassoc_value(self.journeys@, p);
                assert(in_modes(mv, self.journeys@[p].1@.data_source));
            }
        }
        r
    }

    /// All journeys of the train data sources, in no particular order, one
    /// per identity.
    pub fn train_journeys(&self) -> (r: Vec<&Journey>)
        requires
            self.wf(),
        ensures
            forall|a: int|
                0 <= a < r@.len() ==> {
                    &&& self@.contains_key((#[trigger] r@[a])@.journey_id)
                    &&& self@[r@[a]@.journey_id] == r@[a]@
                    &&& is_train_source(r@[a]@.data_source)
                },
            forall|k: Seq<char>|
                #[trigger] self@.contains_key(k) && is_train_source(self@[k].data_source)
                    ==> exists|a: int| 0 <= a < r@.len() && (#[trigger] r@[a])@.journey_id == k,
            forall|a: int, b: int|
                0 <= a < b < r@.len() ==> (#[trigger] r@[a])@.journey_id != (#[trigger] r@[b])@.journey_id,
    {
        let mut codes: Vec<String> = Vec::new();
        codes.push(String::from_str("VYG"));
        codes.push(String::from_str("BNR"));
        codes.push(String::from_str("SJN"));
        codes.push(String::from_str("GOA"));
        codes.push(String::from_str("FLY"));
        codes.push(String::from_str("FLT"));
        proof {
            let cv = codes.deep_view();
            assert(cv.len() == 6);
            assert(cv[0] == "VYG"@);
            assert(cv[1] == "BNR"@);
            assert(cv[2] == "SJN"@);
            assert(cv[3] == "GOA"@);
            assert(cv[4] == "FLY"@);
            assert(cv[5] == "FLT"@);
            assert forall|ds: Seq<char>| #[trigger] in_modes(cv, ds) implies is_train_source(
                ds,
            ) by {
                let a = choose|a: int| 0 <= a < cv.len() && cv[a] == ds;
            }
            assert forall|ds: Seq<char>| #[trigger] is_train_source(ds) implies in_modes(
                cv,
                ds,
            ) by {
                if ds == "VYG"@ {
                    assert(cv[0] == ds);
                } else if ds == "BNR"@ {
                    assert(cv[1] == ds);
                } else if ds == "SJN"@ {
                    assert(cv[2] == ds);
                } else if ds == "GOA"@ {
                    assert(cv[3] == ds);
                } else if ds == "FLY"@ {
                    assert(cv[4] == ds);
                } else {
                    assert(cv[5] == ds);
                }
            }
        }
        self.by_mode(&codes)
    }

    /// Runtime check for the representation invariant, so that a caller
    /// holding an index of unknown provenance can test it before calling
    /// the operations that require it.
    pub fn is_wf(&self) -> (r: bool)
        ensures
            r == self.wf(),
    {
        let n = self.journeys.len();
        let mut i: usize = 0;
        while i < n
            invariant
                n == self.journeys@.len(),
                i <= n,
                forall|a: int, b: int|
                    0 <= a < b < i ==> (#[trigger] self.journeys@[a]).0@
                        != (#[trigger] self.journeys@[b]).0@,
                forall|a: int|
                    0 <= a < i ==> (#[trigger] self.journeys@[a]).1@.journey_id
                        == self.journeys@[a].0@ && self.journeys@[a].1@.wf(),
            decreases n - i,
        {
            let pair = &self.journeys[i];
            if !(pair.1.journey_id.0 == pair.0.0) {
                return false;
            }
            if !journey_times_in_range(&pair.1) {
                return false;
            }
            let mut j: usize = 0;
            while j < i
                invariant
                    n == self.journeys@.len(),
                    i < n,
                    j <= i,
                    forall|a: int|
                        0 <= a < j ==> (#[trigger] self.journeys@[a]).0@
                            != self.journeys@[i as int].0@,
                decreases i - j,
            {
                if self.journeys[j].0.0 == self.journeys[i].0.0 {
                    return false;
                }
                j += 1;
            }
            proof {
                assert forall|a: int, b: int|
                    0 <= a < b < i + 1 implies (#[trigger] self.journeys@[a]).0@
                    != (#[trigger] self.journeys@[b]).0@ by {}
            }
            i += 1;
        }
        true
    }
}

/// Runtime check that a journey's timestamps are in range and its next-stop
/// fields agree.
fn journey_times_in_range(j: &Journey) -> (r: bool)
    ensures
        r == j@.wf(),
{
    let bound = crate::entur_siriformat::MAX_TS_SECONDS;
    let lu = -bound <= j.last_update && j.last_update <= bound;
    let pp = -bound <= j.prev_stop_planned_time && j.prev_stop_planned_time <= bound;
    let pa = -bound <= j.prev_stop_actual_time && j.prev_stop_actual_time <= bound;
    let np = match j.next_stop_planned_time {
        Option::Some(t) => -bound <= t && t <= bound,
        Option::None => true,
    };
    let agree = j.next_stop.is_some() == j.next_stop_planned_time.is_some();
    lu && pp && pa && np && agree
}


// ------------------------------------------------------------------
// Presentation of one journey
// ------------------------------------------------------------------

/// What follows the last colon of a string; the whole string when it has no
/// colon.
pub open spec fn after_last_colon(s: Seq<char>) -> Seq<char>
    decreases s.len(),
{
    if s.len() == 0 {
        s
    } else if s.last() == ':' {
        Seq::empty()
    } else {
        after_last_colon(s.drop_last()).push(s.last())
    }
}

/// A string with every trailing occurrence of a suffix removed.
pub open spec fn strip_suffix_all(s: Seq<char>, suffix: Seq<char>) -> Seq<char>
    decreases s.len(),
{
    if suffix.len() > 0 && s.len() >= suffix.len() && s.subrange(
        s.len() - suffix.len(),
        s.len() as int,
    ) == suffix {
        strip_suffix_all(s.subrange(0, s.len() - suffix.len()), suffix)
    } else {
        s
    }
}

/// The display label of a train journey: the line's short name, and the
/// origin and destination with the " stasjon" suffix trimmed.
pub open spec fn line_label(line_ref: Seq<char>, origin: Seq<char>, destination: Seq<char>) -> Seq<
    char,
> {
    after_last_colon(line_ref) + ": "@ + strip_suffix_all(origin, " stasjon"@) + " to "@
        + strip_suffix_all(destination, " stasjon"@)
}

/// `after_last_colon` is the tail that starts where the colons end.
proof fn lemma_after_last_colon(s: Seq<char>, idx: int)
    requires
        0 <= idx <= s.len(),
        forall|j: int| idx <= j < s.len() ==> s[j] != ':',
        idx == 0 || s[idx - 1] == ':',
    ensures
        after_last_colon(s) == s.subrange(idx, s.len() as int),
    decreases s.len(),
{
    if s.len() == 0 {
        assert(after_last_colon(s) =~= s.subrange(idx, s.len() as int));
    } else if s.last() == ':' {
        assert(idx == s.len());
        assert(after_last_colon(s) =~= s.subrange(idx, s.len() as int));
    } else {
        assert(idx < s.len());
        assert(forall|j: int| idx <= j < s.len() - 1 ==> s.drop_last()[j] == s[j]);
        lemma_after_last_colon(s.drop_last(), idx);
        assert(after_last_colon(s) =~= s.subrange(idx, s.len() as int));
    }
}

/// What follows the last colon, computed.
fn after_last_colon_exec(s: &str) -> (r: String)
    ensures
        r@ == after_last_colon(s@),
{
    let n = s.unicode_len();
    let mut idx: usize = 0;
    let mut i: usize = 0;
    while i < n
        invariant
            n == s@.len(),
            i <= n,
            idx <= i,
            forall|j: int| idx <= j < i ==> s@[j] != ':',
            idx == 0 || s@[idx - 1] == ':',
        decreases n - i,
    {
        if s.get_char(i) == ':' {
            idx = i + 1;
        }
        i += 1;
    }
    proof {
        lemma_after_last_colon(s@, idx as int);
    }
    let tail = s.substring_char(idx, n);
    String::from_str(tail)
}

/// A string with every trailing occurrence of " stasjon" removed, computed.
fn strip_stasjon_exec(s: &str) -> (r: String)
    ensures
        r@ == strip_suffix_all(s@, " stasjon"@),
{
    proof {
        reveal_strlit(" stasjon");
    }
    let suffix = String::from_str(" stasjon");
    let mut cur = String::from_str(s);
    let mut n = cur.as_str().unicode_len();
    while n >= 8 && String::from_str(cur.as_str().substring_char(n - 8, n)) == suffix
        invariant
            suffix@ == " stasjon"@,
            suffix@.len() == 8,
            n == cur@.len(),
            strip_suffix_all(cur@, " stasjon"@) == strip_suffix_all(s@, " stasjon"@),
        decreases n,
    {
        let shorter = String::from_str(cur.as_str().substring_char(0, n - 8));
        proof {
            assert(shorter@ == cur@.subrange(0, cur@.len() - 8));
        }
        cur = shorter;
        n = cur.as_str().unicode_len();
    }
    proof {
        assert(strip_suffix_all(cur@, " stasjon"@) == cur@);
    }
    cur
}

impl crate::api::JourneyDelay {
    /// The delay record of one journey, as a stop query answers it.
    pub fn from_journey(j: &Journey) -> (r: crate::api::JourneyDelay)
        requires
            j@.wf(),
        ensures
            r.vehicle_journey_id@ == j@.journey_id,
            r.line_ref@ == j@.line_ref,
            r.last_stop_name@ == j@.prev_stop.name,
            r.aimed_last_stop_time == j@.prev_stop_planned_time,
            r.actual_last_stop_time == j@.prev_stop_actual_time,
            r.recorded_delay_seconds == j@.prev_stop_actual_time - j@.prev_stop_planned_time,
            r.next_stop_name.deep_view() == match j@.next_stop {
                Option::Some(st) => Option::Some(st.name),
                Option::None => Option::None,
            },
            crate::entur_siriformat::opt_ts_view(r.aimed_next_stop_time)
                == j@.next_stop_planned_time,
    {
        let recorded_delay_seconds = j.recorded_delay_seconds();
        crate::api::JourneyDelay {
            vehicle_journey_id: j.journey_id.0.clone(),
            line_ref: j.line_ref.clone(),
            last_stop_name: j.prev_stop.name.clone(),
            aimed_last_stop_time: j.prev_stop_planned_time,
            actual_last_stop_time: j.prev_stop_actual_time,
            recorded_delay_seconds,
            next_stop_name: match &j.next_stop {
                Option::Some(st) => Option::Some(st.name.clone()),
                Option::None => Option::None,
            },
            aimed_next_stop_time: j.next_stop_planned_time,
        }
    }
}

impl crate::api::TrainJourney {
    /// The listing record of one train journey, judged against the given
    /// clock reading.
    pub fn from_journey(j: &Journey, now: i64) -> (r: crate::api::TrainJourney)
        requires
            j@.wf(),
            crate::entur_siriformat::ts_ok(now as int),
        ensures
            r.vehicle_journey_id@ == j@.journey_id,
            r.line_ref@ == line_label(j@.line_ref, j@.origin.name, j@.destination.name),
            r.cancellation == j@.cancelled,
            r.data_source@ == j@.data_source,
            r.stop_name@ == j@.prev_stop.name,
            r.next_stop_name.deep_view() == match j@.next_stop {
                Option::Some(st) => Option::Some(st.name),
                Option::None => Option::None,
            },
            r.aimed_time == j@.prev_stop_planned_time,
            r.actual_time == j@.prev_stop_actual_time,
            r.delay_seconds == j@.prev_stop_actual_time - j@.prev_stop_planned_time,
            crate::entur_siriformat::opt_ts_view(r.next_stop_time) == j@.next_stop_planned_time,
            r.departed == true,
            r.possibly_stuck == spec_possibly_stuck(j@, now as int),
    {
        let recorded_delay_seconds = j.recorded_delay_seconds();
        let possibly_stuck = j.possibly_stuck(now);
        let line_part = after_last_colon_exec(j.line_ref.as_str());
        let origin_part = strip_stasjon_exec(j.origin.name.as_str());
        let dest_part = strip_stasjon_exec(j.destination.name.as_str());
        let label = line_part.concat(": ").concat(origin_part.as_str()).concat(" to ").concat(
            dest_part.as_str(),
        );
        proof {
            assert(label@ =~= line_label(j@.line_ref, j@.origin.name, j@.destination.name));
        }
        crate::api::TrainJourney {
            vehicle_journey_id: j.journey_id.0.clone(),
            line_ref: label,
            cancellation: j.cancelled,
            data_source: j.data_source.clone(),
            stop_name: j.prev_stop.name.clone(),
            next_stop_name: match &j.next_stop {
                Option::Some(st) => Option::Some(st.name.clone()),
                Option::None => Option::None,
            },
            aimed_time: j.prev_stop_planned_time,
            actual_time: j.prev_stop_actual_time,
            delay_seconds: recorded_delay_seconds,
            next_stop_time: j.next_stop_planned_time,
            departed: true,
            possibly_stuck,
        }
    }
}


// ------------------------------------------------------------------
// Laws of the engine
// ------------------------------------------------------------------

impl Journey {
    /// Whether the run is over: no estimated calls remained when the
    /// journey was built.
    pub fn finished(&self) -> (r: bool)
        ensures
            r == self@.finished,
    {
        self.finished
    }
}

/// A raw entry that carries none of the three identity candidates has no
/// identity, and building an index over any batch ignores it entirely.
pub proof fn lemma_entry_without_id_ignored(
    stops: Map<Seq<char>, StopV>,
    entries: Seq<EstimatedVehicleJourneyV>,
    e: EstimatedVehicleJourneyV,
)
    requires
        e.dated_vehicle_journey_ref is None,
        e.framed_dated_ref is None,
        e.block_ref is None,
    ensures
        e.journey_id() is None,
        spec_index(stops, entries.push(e)) == spec_index(stops, entries),
{
    assert(entries.push(e).drop_last() =~= entries);
    assert(entries.push(e).last() == e);
}

/// A raw entry whose last recorded call lacks a planned time, or lacks
/// every actual and expected time, yields no journey.
pub proof fn lemma_entry_without_times_builds_nothing(
    stops: Map<Seq<char>, StopV>,
    id: Seq<char>,
    e: EstimatedVehicleJourneyV,
)
    requires
        e.recorded_calls matches Option::Some(calls) && calls.len() > 0 && (
        calls.last().planned_time() is None || calls.last().actual_time() is None),
    ensures
        spec_build(stops, id, e) is None,
{
}

/// A journey without a next stop is never possibly stuck, whatever the
/// clock says.
pub proof fn lemma_last_leg_never_stuck(j: JourneyV, now: int)
    requires
        j.wf(),
        j.next_stop is None,
    ensures
        !spec_possibly_stuck(j, now),
{
}

/// Merging is last-writer-wins: wherever the merged-in index knows an
/// identity, the merged result carries its journey, wholesale.
pub proof fn lemma_merge_last_writer_wins(
    ours: Map<Seq<char>, JourneyV>,
    theirs: Map<Seq<char>, JourneyV>,
    x: Seq<char>,
)
    requires
        theirs.contains_key(x),
    ensures
        ours.union_prefer_right(theirs).contains_key(x),
        ours.union_prefer_right(theirs)[x] == theirs[x],
{
}

/// Expiry removes exactly the journeys not updated since the cutoff, so
/// expiring twice with one cutoff is expiring once.
pub proof fn lemma_expire_idempotent(m: Map<Seq<char>, JourneyV>, cutoff: int)
    ensures
        Journeys::expire_map(Journeys::expire_map(m, cutoff), cutoff) == Journeys::expire_map(
            m,
            cutoff,
        ),
{
    assert(Journeys::expire_map(Journeys::expire_map(m, cutoff), cutoff) =~= Journeys::expire_map(
        m,
        cutoff,
    ));
}


/// Within one batch, the newest record for an identity wins: wherever an
/// entry of the batch yields a journey under some identity, the built index
/// carries that identity, and what it carries was recorded no earlier than
/// that entry — however the batch is ordered.
pub proof fn lemma_index_carries_newest(
    stops: Map<Seq<char>, StopV>,
    entries: Seq<EstimatedVehicleJourneyV>,
    i: int,
    id: Seq<char>,
)
    requires
        0 <= i < entries.len(),
        entries[i].journey_id() == Option::Some(id),
        spec_build(stops, id, entries[i]) is Some,
    ensures
        spec_index(stops, entries).contains_key(id),
        spec_index(stops, entries)[id].last_update >= entries[i].recorded_at_time,
    decreases entries.len(),
{
    let e = entries.last();
    if i == entries.len() - 1 {
        assert(spec_build(stops, id, e) matches Option::Some(j) ==> j.last_update
            == e.recorded_at_time);
    } else {
        assert(entries.drop_last()[i] == entries[i]);
        lemma_index_carries_newest(stops, entries.drop_last(), i, id);
    }
}


/// The index invents nothing: every identity the built index knows came
/// from some entry of the batch, and what is filed is exactly the journey
/// that entry yields.
pub proof fn lemma_index_only_built(
    stops: Map<Seq<char>, StopV>,
    entries: Seq<EstimatedVehicleJourneyV>,
    id: Seq<char>,
)
    requires
        spec_index(stops, entries).contains_key(id),
    ensures
        exists|i: int|
            {
                &&& 0 <= i < entries.len()
                &&& (#[trigger] entries[i]).journey_id() == Option::Some(id)
                &&& spec_build(stops, id, entries[i]) == Option::Some(
                    spec_index(stops, entries)[id],
                )
            },
    decreases entries.len(),
{
    let m = spec_index(stops, entries);
    let prev = spec_index(stops, entries.drop_last());
    let e = entries.last();
    assert(forall|i: int| 0 <= i < entries.len() - 1 ==> (#[trigger] entries.drop_last()[i])
        == entries[i]);
    let filed_here = {
        &&& e.journey_id() == Option::Some(id)
        &&& spec_build(stops, id, e) is Some
        &&& m[id] == spec_build(stops, id, e)->Some_0
    };
    if filed_here {
        let i = entries.len() - 1;
        assert(entries[i].journey_id() == Option::Some(id) && spec_build(stops, id, entries[i])
            == Option::Some(m[id]));
    } else {
        assert(prev.contains_key(id) && m[id] == prev[id]);
        lemma_index_only_built(stops, entries.drop_last(), id);
        let i = choose|i: int|
            {
                &&& 0 <= i < entries.drop_last().len()
                &&& (#[trigger] entries.drop_last()[i]).journey_id() == Option::Some(id)
                &&& spec_build(stops, id, entries.drop_last()[i]) == Option::Some(prev[id])
            };
        assert(entries[i].journey_id() == Option::Some(id) && spec_build(stops, id, entries[i])
            == Option::Some(m[id]));
    }
}

} // verus!
