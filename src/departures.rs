//! Departures of the monitor feed and the live departure store, keyed by the
//! IFOPT reference of the stop.
use vstd::prelude::*;
use vstd::hash_map::StringHashMap;
use crate::time::{parse_rfc3339, rfc3339_seconds, trunc_div};

verus! {

/// One stop event of the departure monitor, as far as departures need it.
pub struct StopEvent {
    pub line_number: Option<String>,
    pub destination: Option<String>,
    /// Planned departure, RFC 3339.
    pub planned_departure: Option<String>,
    /// Estimated departure, RFC 3339.
    pub estimated_departure: Option<String>,
    pub platform: Option<String>,
}

/// A departure from a stop.
pub struct Departure {
    pub stop_ifopt: String,
    pub line_number: String,
    pub destination: String,
    pub planned_departure: String,
    pub estimated_departure: Option<String>,
    pub delay_minutes: Option<i32>,
    pub platform: Option<String>,
}

/// An event yields a departure where it names a line, a destination and a
/// planned time, and that time is not before `now`.
pub open spec fn keeps(e: StopEvent, now: i64) -> bool {
    &&& e.line_number is Some
    &&& e.destination is Some
    &&& e.planned_departure is Some
    &&& !(rfc3339_seconds(e.planned_departure->0@) matches Some(p) && p < now)
}

/// Whole minutes from planned to estimated, where both are given and read.
pub open spec fn delay_of(planned: Seq<char>, estimated: Option<String>) -> Option<i32> {
    match estimated {
        Some(e) => match (rfc3339_seconds(planned), rfc3339_seconds(e@)) {
            (Some(p), Some(q)) => Some(trunc_div(q - p, 60) as i32),
            _ => None,
        },
        None => None,
    }
}

pub open spec fn departure_of(stop: String, e: StopEvent) -> Departure {
    Departure {
        stop_ifopt: stop,
        line_number: e.line_number->0,
        destination: e.destination->0,
        planned_departure: e.planned_departure->0,
        estimated_departure: e.estimated_departure,
        delay_minutes: delay_of(e.planned_departure->0@, e.estimated_departure),
        platform: e.platform,
    }
}

/// The departures that the events give, in order.
pub open spec fn departures_of(stop: String, es: Seq<StopEvent>, now: i64) -> Seq<Departure>
    decreases es.len(),
{
    if es.len() == 0 {
        Seq::empty()
    } else if keeps(es.last(), now) {
        departures_of(stop, es.drop_last(), now).push(departure_of(stop, es.last()))
    } else {
        departures_of(stop, es.drop_last(), now)
    }
}

fn copy_opt(s: &Option<String>) -> (r: Option<String>)
    ensures
        r == *s,
{
    match s {
        Some(x) => Some(x.clone()),
        None => None,
    }
}

fn delay_minutes(planned: &String, estimated: &Option<String>) -> (r: Option<i32>)
    ensures
        r == delay_of(planned@, *estimated),
{
    match estimated {
        Some(e) => match (parse_rfc3339(planned.as_str()), parse_rfc3339(e.as_str())) {
            (Some(p), Some(q)) => {
                let d: i64 = q - p;
                let m: i64 = if d >= 0 {
                    d / 60
                } else {
                    0 - ((0 - d) / 60)
                };
                Some(#[verifier::truncate] (m as i32))
            },
            _ => None,
        },
        None => None,
    }
}

/// The departures of one stop from its events: events without a line, a
/// destination or a planned time are skipped, and so are those planned
/// before `now`.
pub fn parse_departures(stop_ifopt: &String, stop_events: &Vec<StopEvent>, now: i64) -> (r: Vec<Departure>)
    ensures
        r@ == departures_of(*stop_ifopt, stop_events@, now),
{
    let mut out: Vec<Departure> = Vec::new();
    let mut k: usize = 0;
    while k < stop_events.len()
        invariant
            k <= stop_events@.len(),
            out@ == departures_of(*stop_ifopt, stop_events@.subrange(0, k as int), now),
        decreases stop_events@.len() - k,
    {
        let ghost after = stop_events@.subrange(0, k + 1);
        assert(after.drop_last() =~= stop_events@.subrange(0, k as int));
        let e = &stop_events[k];
        match (&e.line_number, &e.destination, &e.planned_departure) {
            (Some(line), Some(dest), Some(planned)) => {
                let past = match parse_rfc3339(planned.as_str()) {
                    Some(p) => p < now,
                    None => false,
                };
                if !past {
                    out.push(
                        Departure {
                            stop_ifopt: stop_ifopt.clone(),
                            line_number: line.clone(),
                            destination: dest.clone(),
                            planned_departure: planned.clone(),
                            estimated_departure: copy_opt(&e.estimated_departure),
                            delay_minutes: delay_minutes(planned, &e.estimated_departure),
                            platform: copy_opt(&e.platform),
                        },
                    );
                }
            },
            _ => {},
        }
        k = k + 1;
    }
    assert(stop_events@.subrange(0, k as int) =~= stop_events@);
    out
}

/// A departure whose estimated time equals its planned time has no delay.
pub proof fn lemma_on_time_has_no_delay(planned: String, estimated: String)
    requires
        estimated@ == planned@,
        rfc3339_seconds(planned@) is Some,
    ensures
        delay_of(planned@, Some(estimated)) == Some(0i32),
{
    assert(trunc_div(0, 60) == 0);
    assert((0int as i32) == 0i32) by (bit_vector);
}

/// A departure planned strictly before `now` is never kept.
pub proof fn lemma_past_departure_dropped(stop: String, es: Seq<StopEvent>, now: i64, d: Departure)
    requires
        departures_of(stop, es, now).contains(d),
    ensures
        !(rfc3339_seconds(d.planned_departure@) matches Some(p) && p < now),
    decreases es.len(),
{
    if es.len() > 0 {
        let rest = departures_of(stop, es.drop_last(), now);
        if keeps(es.last(), now) && d == departure_of(stop, es.last()) {
        } else {
            if keeps(es.last(), now) {
                let i = choose|i: int| 0 <= i < departures_of(stop, es, now).len() && departures_of(stop, es, now)[i] == d;
                assert(rest.contains(d)) by {
                    assert(i < rest.len());
                    assert(rest[i] == d);
                }
            }
            lemma_past_departure_dropped(stop, es.drop_last(), now, d);
        }
    }
}

/// The outcome of one stop's fetch: its events, or why the fetch failed.
pub type FetchOutcome = Result<Vec<StopEvent>, String>;

/// The store after one stop's outcome: replaced by a non-empty list, removed
/// on an empty one, left as it was on a failed fetch.
pub open spec fn apply_outcome(
    m: Map<Seq<char>, Seq<Departure>>,
    stop: String,
    outcome: Result<Seq<StopEvent>, String>,
    now: i64,
) -> Map<Seq<char>, Seq<Departure>> {
    match outcome {
        Ok(es) => {
            let d = departures_of(stop, es, now);
            if d.len() == 0 {
                m.remove(stop@)
            } else {
                m.insert(stop@, d)
            }
        },
        Err(_) => m,
    }
}

pub open spec fn outcome_view(o: FetchOutcome) -> Result<Seq<StopEvent>, String> {
    match o {
        Ok(v) => Ok(v@),
        Err(e) => Err(e),
    }
}

/// The store after every outcome, in order.
pub open spec fn apply_outcomes(
    m: Map<Seq<char>, Seq<Departure>>,
    rs: Seq<(String, FetchOutcome)>,
    now: i64,
) -> Map<Seq<char>, Seq<Departure>>
    decreases rs.len(),
{
    if rs.len() == 0 {
        m
    } else {
        apply_outcome(apply_outcomes(m, rs.drop_last(), now), rs.last().0, outcome_view(rs.last().1), now)
    }
}

/// Number of outcomes that are fetched lists with at least one upcoming departure.
pub open spec fn stored_count(rs: Seq<(String, FetchOutcome)>, now: i64) -> nat
    decreases rs.len(),
{
    if rs.len() == 0 {
        0
    } else {
        stored_count(rs.drop_last(), now) + match outcome_view(rs.last().1) {
            Ok(es) => if departures_of(rs.last().0, es, now).len() > 0 {
                1nat
            } else {
                0nat
            },
            Err(_) => 0nat,
        }
    }
}

/// Number of failed fetches.
pub open spec fn failed_count(rs: Seq<(String, FetchOutcome)>) -> nat
    decreases rs.len(),
{
    if rs.len() == 0 {
        0
    } else {
        failed_count(rs.drop_last()) + if rs.last().1 is Err {
            1nat
        } else {
            0nat
        }
    }
}

/// The live departures, keyed by the IFOPT reference of the stop.
pub struct DepartureStore {
    map: StringHashMap<Vec<Departure>>,
}

impl DepartureStore {
    pub closed spec fn view(&self) -> Map<Seq<char>, Seq<Departure>> {
        self.map@.map_values(|v: Vec<Departure>| v@)
    }

    pub fn new() -> (r: DepartureStore)
        ensures
            r.view() == Map::<Seq<char>, Seq<Departure>>::empty(),
    {
        let r = DepartureStore { map: StringHashMap::new() };
        assert(r.view() =~= Map::<Seq<char>, Seq<Departure>>::empty());
        r
    }

    /// The departures held for a stop.
    pub fn get(&self, stop_ifopt: &str) -> (r: Option<&Vec<Departure>>)
        ensures
            match r {
                Some(v) => self.view().contains_key(stop_ifopt@) && v@ == self.view()[stop_ifopt@],
                None => !self.view().contains_key(stop_ifopt@),
            },
    {
        self.map.get(stop_ifopt)
    }

    /// Applies the outcome of one departure sync: each stop fetched with
    /// upcoming departures is replaced, each fetched without is removed, and
    /// each whose fetch failed keeps what it had. Returns the number of stops
    /// stored and the number of failed fetches.
    pub fn apply_results(&mut self, results: Vec<(String, FetchOutcome)>, now: i64) -> (r: (usize, usize))
        ensures
            final(self).view() == apply_outcomes(old(self).view(), results@, now),
            r.0 == stored_count(results@, now),
            r.1 == failed_count(results@),
    {
        let ghost start = self.view();
        let mut stored: usize = 0;
        let mut failed: usize = 0;
        let mut k: usize = 0;
        while k < results.len()
            invariant
                k <= results@.len(),
                self.view() == apply_outcomes(start, results@.subrange(0, k as int), now),
                stored == stored_count(results@.subrange(0, k as int), now),
                failed == failed_count(results@.subrange(0, k as int)),
                stored + failed <= k,
            decreases results@.len() - k,
        {
            let ghost after = results@.subrange(0, k + 1);
            assert(after.drop_last() =~= results@.subrange(0, k as int));
            let (stop, outcome) = &results[k];
            let ghost before = self.view();
            match outcome {
                Ok(events) => {
                    let deps = parse_departures(stop, events, now);
                    if deps.len() == 0 {
                        self.map.remove(stop.as_str());
                        assert(self.view() =~= before.remove(stop@));
                    } else {
                        let ghost dv = deps@;
                        self.map.insert(stop.clone(), deps);
                        assert(self.view() =~= before.insert(stop@, dv));
                        stored = stored + 1;
                    }
                },
                Err(_) => {
                    failed = failed + 1;
                },
            }
            k = k + 1;
        }
        assert(results@.subrange(0, k as int) =~= results@);
        (stored, failed)
    }
}

} // verus!
