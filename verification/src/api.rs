//! The view types the HTTP layer consumes, and the small presentation
//! computations behind them.

use vstd::prelude::*;

verus! {

/// The decimal digit character for one digit value.
pub open spec fn dec_digit(d: int) -> char
    recommends
        0 <= d < 10,
{
    if d == 0 {
        '0'
    } else if d == 1 {
        '1'
    } else if d == 2 {
        '2'
    } else if d == 3 {
        '3'
    } else if d == 4 {
        '4'
    } else if d == 5 {
        '5'
    } else if d == 6 {
        '6'
    } else if d == 7 {
        '7'
    } else if d == 8 {
        '8'
    } else {
        '9'
    }
}

/// The decimal digits of a natural number, most significant first.
pub open spec fn dec_digits(n: nat) -> Seq<char>
    decreases n,
{
    if n < 10 {
        seq![dec_digit(n as int)]
    } else {
        dec_digits(n / 10).push(dec_digit((n % 10) as int))
    }
}

/// The decimal rendering of an integer, with a leading minus sign when
/// negative.
pub open spec fn dec_int(i: int) -> Seq<char> {
    if i < 0 {
        seq!['-'] + dec_digits((-i) as nat)
    } else {
        dec_digits(i as nat)
    }
}

fn digit_str(d: u64) -> (r: &'static str)
    requires
        d < 10,
    ensures
        r@ == seq![dec_digit(d as int)],
{
    proof {
        reveal_strlit("0");
        reveal_strlit("1");
        reveal_strlit("2");
        reveal_strlit("3");
        reveal_strlit("4");
        reveal_strlit("5");
        reveal_strlit("6");
        reveal_strlit("7");
        reveal_strlit("8");
        reveal_strlit("9");
    }
    match d {
        0 => "0",
        1 => "1",
        2 => "2",
        3 => "3",
        4 => "4",
        5 => "5",
        6 => "6",
        7 => "7",
        8 => "8",
        _ => "9",
    }
}

fn u64_dec(n: u64) -> (r: String)
    ensures
        r@ == dec_digits(n as nat),
    decreases n,
{
    if n < 10 {
        String::from_str(digit_str(n))
    } else {
        let q = n / 10;
        let d = n % 10;
        let prefix = u64_dec(q);
        let r = prefix.concat(digit_str(d));
        proof {
            assert(r@ =~= dec_digits((n / 10) as nat).push(dec_digit((n % 10) as int)));
        }
        r
    }
}

/// Whole minutes of a delay given in seconds, truncated toward zero as
/// integer division truncates.
pub open spec fn delay_minutes(seconds: int) -> int {
    if seconds >= 0 {
        seconds / 60
    } else {
        -((-seconds) / 60)
    }
}

/// Render a delay in seconds as whole minutes, e.g. "2 min"; negative
/// delays keep their sign.
pub fn format_delay(seconds: &i32) -> (r: String)
    ensures
        r@ == dec_int(delay_minutes(*seconds as int)) + " min"@,
{
    let s64: i64 = *seconds as i64;
    let neg = s64 < 0;
    let mag: u64 = if neg {
        (-s64) as u64
    } else {
        s64 as u64
    };
    let m: u64 = mag / 60;
    let digits = u64_dec(m);
    let with_sign = if neg && m > 0 {
        let signed = String::from_str("-").concat(digits.as_str());
        proof {
            reveal_strlit("-");
            assert(signed@ =~= dec_int(delay_minutes(s64 as int)));
        }
        signed
    } else {
        proof {
            assert(digits@ =~= dec_int(delay_minutes(s64 as int)));
        }
        digits
    };
    let r = with_sign.concat(" min");
    proof {
        assert(r@ =~= dec_int(delay_minutes(*seconds as int)) + " min"@);
    }
    r
}

/// One journey's delay at its last recorded stop, as the JSON answer to a
/// stop query carries it.
pub struct JourneyDelay {
    pub vehicle_journey_id: String,
    pub line_ref: String,
    pub last_stop_name: String,
    pub aimed_last_stop_time: i64,
    pub actual_last_stop_time: i64,
    pub recorded_delay_seconds: i64,
    pub next_stop_name: Option<String>,
    pub aimed_next_stop_time: Option<i64>,
}

/// One train journey as the train listing carries it.
pub struct TrainJourney {
    pub vehicle_journey_id: String,
    pub line_ref: String,
    pub cancellation: bool,
    pub data_source: String,
    pub stop_name: String,
    pub next_stop_name: Option<String>,
    pub aimed_time: i64,
    pub actual_time: i64,
    pub delay_seconds: i64,
    pub next_stop_time: Option<i64>,
    pub departed: bool,
    pub possibly_stuck: bool,
}

/// How many listed trains are more than a minute late.
pub open spec fn delayed_count_of(s: Seq<TrainJourney>) -> nat
    decreases s.len(),
{
    if s.len() == 0 {
        0
    } else {
        delayed_count_of(s.drop_last()) + if s.last().delay_seconds > 60 {
            1nat
        } else {
            0nat
        }
    }
}

/// How many listed trains are possibly stuck.
pub open spec fn stuck_count_of(s: Seq<TrainJourney>) -> nat
    decreases s.len(),
{
    if s.len() == 0 {
        0
    } else {
        stuck_count_of(s.drop_last()) + if s.last().possibly_stuck {
            1nat
        } else {
            0nat
        }
    }
}

/// The data behind the rendered train page.
pub struct TrainsPage {
    pub trains: Vec<TrainJourney>,
    pub timestamp: String,
    pub delayed_count: usize,
    pub stuck_count: usize,
    pub assets_path: String,
}

/// Relies on chrono's `Utc::now` and chrono-tz's Europe/Oslo time zone: the
/// current wall-clock time rendered for display. Nothing is promised of the
/// result, which depends on the clock.
#[verifier::external_body]
fn oslo_now_string() -> String {
    chrono::Utc::now().with_timezone(&chrono_tz::Europe::Oslo).format(
        "%Y-%m-%d %H:%M:%S",
    ).to_string()
}

impl TrainsPage {
    /// Assemble the page data: the listed trains unchanged, the counts of
    /// delayed and possibly stuck trains among them, and a display
    /// timestamp read from the clock.
    pub fn new(trains: Vec<TrainJourney>, assets_path: String) -> (r: TrainsPage)
        ensures
            r.trains == trains,
            r.assets_path == assets_path,
            r.delayed_count == delayed_count_of(trains@),
            r.stuck_count == stuck_count_of(trains@),
    {
        let n = trains.len();
        let mut delayed_count: usize = 0;
        let mut stuck_count: usize = 0;
        let mut i: usize = 0;
        while i < n
            invariant
                n == trains@.len(),
                i <= n,
                delayed_count == delayed_count_of(trains@.take(i as int)),
                stuck_count == stuck_count_of(trains@.take(i as int)),
                delayed_count <= i,
                stuck_count <= i,
            decreases n - i,
        {
            proof {
                assert(trains@.take(i + 1 as int).drop_last() =~= trains@.take(i as int));
                assert(trains@.take(i + 1 as int).last() == trains@[i as int]);
            }
            if trains[i].delay_seconds > 60 {
                delayed_count += 1;
            }
            if trains[i].possibly_stuck {
                stuck_count += 1;
            }
            i += 1;
        }
        proof {
            assert(trains@.take(n as int) =~= trains@);
        }
        let timestamp = oslo_now_string();
        TrainsPage { trains, timestamp, delayed_count, stuck_count, assets_path }
    }
}

/// The health report of the refresh loop.
pub struct Healthy {
    pub last_successful_sync: Option<u32>,
    pub next_sync_attempt: Option<u32>,
    pub healthy: bool,
}

impl Healthy {
    /// Health is both counters present with a gap under ten attempts;
    /// anything else reads as unhealthy.
    pub fn new(last_successful_sync: Option<u32>, next_sync_attempt: Option<u32>) -> (r: Healthy)
        ensures
            r.last_successful_sync == last_successful_sync,
            r.next_sync_attempt == next_sync_attempt,
            r.healthy == match (last_successful_sync, next_sync_attempt) {
                (Option::Some(last), Option::Some(next)) => next - last < 10,
                _ => false,
            },
    {
        let healthy = match (last_successful_sync, next_sync_attempt) {
            (Option::Some(last), Option::Some(next)) => (next as i64) - (last as i64) < 10,
            _ => false,
        };
        Healthy { last_successful_sync, next_sync_attempt, healthy }
    }
}


/// The listing order of trains: a possibly stuck train stands before one
/// that is not; among equals, a larger delay stands first. `a` may stand at
/// or before `b`.
pub open spec fn listed_no_later(a: TrainJourney, b: TrainJourney) -> bool {
    if a.possibly_stuck != b.possibly_stuck {
        a.possibly_stuck
    } else {
        a.delay_seconds >= b.delay_seconds
    }
}

fn listed_no_later_exec(a: &TrainJourney, b: &TrainJourney) -> (r: bool)
    ensures
        r == listed_no_later(*a, *b),
{
    if a.possibly_stuck != b.possibly_stuck {
        a.possibly_stuck
    } else {
        a.delay_seconds >= b.delay_seconds
    }
}

/// Order the listed trains: possibly stuck first, then by delay, largest
/// first. The result holds exactly the given trains.
pub fn sort_trains(trains: Vec<TrainJourney>) -> (r: Vec<TrainJourney>)
    ensures
        r@.to_multiset() == trains@.to_multiset(),
        forall|i: int, j: int| 0 <= i < j < r@.len() ==> listed_no_later(r@[i], r@[j]),
{
    broadcast use vstd::seq_lib::group_to_multiset_ensures;

    let mut rest = trains;
    let ghost all = rest@.to_multiset();
    let mut r: Vec<TrainJourney> = Vec::new();
    proof {
        assert(r@.to_multiset().add(rest@.to_multiset()) =~= all);
    }
    while rest.len() > 0
        invariant
            r@.to_multiset().add(rest@.to_multiset()) == all,
            all == trains@.to_multiset(),
            forall|i: int, j: int| 0 <= i < j < r@.len() ==> listed_no_later(r@[i], r@[j]),
            forall|i: int, j: int|
                0 <= i < r@.len() && 0 <= j < rest@.len() ==> listed_no_later(r@[i], rest@[j]),
        decreases rest@.len(),
    {
        let n = rest.len();
        let mut m: usize = 0;
        let mut j: usize = 1;
        while j < n
            invariant
                n == rest@.len(),
                m < j <= n || (j == 1 && m == 0),
                m < n,
                1 <= j <= n,
                forall|q: int| 0 <= q < j ==> listed_no_later(rest@[m as int], rest@[q]),
            decreases n - j,
        {
            if !listed_no_later_exec(&rest[m], &rest[j]) {
                m = j;
            }
            j += 1;
        }
        let ghost rest_before = rest@;
        let ghost r_before = r@;
        let x = rest.remove(m);
        r.push(x);
        proof {
            broadcast use vstd::seq_lib::group_to_multiset_ensures;

            assert(rest@ == rest_before.remove(m as int));
            assert(rest_before.remove(m as int).to_multiset() =~= rest_before.to_multiset().remove(
                rest_before[m as int],
            ));
            assert(r@ == r_before.push(rest_before[m as int]));
            assert(r_before.push(rest_before[m as int]).to_multiset() =~= r_before.to_multiset(
            ).insert(rest_before[m as int]));
            assert(rest_before.to_multiset().contains(rest_before[m as int]));
            assert(r@.to_multiset().add(rest@.to_multiset()) =~= r_before.to_multiset().add(
                rest_before.to_multiset(),
            ));
            assert(forall|q: int|
                0 <= q < rest@.len() ==> #[trigger] rest@[q] == if q < m as int {
                    rest_before[q]
                } else {
                    rest_before[q + 1]
                });
        }
    }
    r
}

} // verus!
