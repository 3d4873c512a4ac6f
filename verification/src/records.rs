//! The normalized departure records both providers feed, and the two
//! computations that build them: joining bus predictions to the day's trips
//! by trip identifier, and flattening the rail station/destination/estimate
//! nesting into records timed from the current moment.

use crate::datetime::{
    checked_add_minutes, dt_from_total, minutes_between, total_seconds_limit, total_seconds_of,
    wf, DateTime,
};
use crate::parse::{i64_of_str, parse_i64, parse_timestamp, timestamp_of};
use std::collections::HashMap;
use vstd::prelude::*;

verus! {

broadcast use vstd::std_specs::hash::group_hash_axioms;

/// One of the day's bus trips, as far as the join reads it.
pub struct Trip {
    pub trip_id: u32,
    pub direction: String,
}

pub struct TripV {
    pub trip_id: u32,
    pub direction: Seq<char>,
}

impl View for Trip {
    type V = TripV;

    open spec fn view(&self) -> TripV {
        TripV { trip_id: self.trip_id, direction: self.direction@ }
    }
}

impl DeepView for Trip {
    type V = TripV;

    open spec fn deep_view(&self) -> TripV {
        self@
    }
}

/// One bus departure prediction, as far as the join reads it.
pub struct Prediction {
    pub trip_id: u32,
    pub route_name: String,
    pub predicted_departure: String,
}

pub struct PredictionV {
    pub trip_id: u32,
    pub route_name: Seq<char>,
    pub predicted_departure: Seq<char>,
}

impl View for Prediction {
    type V = PredictionV;

    open spec fn view(&self) -> PredictionV {
        PredictionV {
            trip_id: self.trip_id,
            route_name: self.route_name@,
            predicted_departure: self.predicted_departure@,
        }
    }
}

impl DeepView for Prediction {
    type V = PredictionV;

    open spec fn deep_view(&self) -> PredictionV {
        self@
    }
}

/// The normalized record both fetchers produce: a route label, a stop or
/// station name, and — where a prediction was joined — a direction and a
/// predicted local departure time.
pub struct StopInfo {
    pub route: String,
    pub name: String,
    pub direction: Option<String>,
    pub prediction: Option<DateTime>,
}

pub struct StopInfoV {
    pub route: Seq<char>,
    pub name: Seq<char>,
    pub direction: Option<Seq<char>>,
    pub prediction: Option<DateTime>,
}

impl View for StopInfo {
    type V = StopInfoV;

    open spec fn view(&self) -> StopInfoV {
        StopInfoV {
            route: self.route@,
            name: self.name@,
            direction: match self.direction {
                Some(d) => Some(d@),
                None => None,
            },
            prediction: self.prediction,
        }
    }
}

impl DeepView for StopInfo {
    type V = StopInfoV;

    open spec fn deep_view(&self) -> StopInfoV {
        self@
    }
}

/// What one bus prediction came to: a joined record, or the data
/// inconsistency it ran into, surfaced per record rather than aborting the
/// run.
pub enum ActOutcome {
    Record(StopInfo),
    /// The prediction names a trip the day's trip list does not hold.
    MissingTrip { trip_id: u32 },
    /// The prediction's departure field is no `YYYY-MM-DDTHH:MM:SS` time.
    BadTimestamp { trip_id: u32, text: String },
}

pub enum ActOutcomeV {
    Record(StopInfoV),
    MissingTrip { trip_id: u32 },
    BadTimestamp { trip_id: u32, text: Seq<char> },
}

impl View for ActOutcome {
    type V = ActOutcomeV;

    open spec fn view(&self) -> ActOutcomeV {
        match self {
            ActOutcome::Record(s) => ActOutcomeV::Record(s@),
            ActOutcome::MissingTrip { trip_id } => ActOutcomeV::MissingTrip { trip_id: *trip_id },
            ActOutcome::BadTimestamp { trip_id, text } => ActOutcomeV::BadTimestamp {
                trip_id: *trip_id,
                text: text@,
            },
        }
    }
}

impl DeepView for ActOutcome {
    type V = ActOutcomeV;

    open spec fn deep_view(&self) -> ActOutcomeV {
        self@
    }
}

/// The record a stop gets when nothing could be predicted for it.
pub open spec fn fallback_v(route: Seq<char>, name: Seq<char>) -> StopInfoV {
    StopInfoV { route, name, direction: None, prediction: None }
}

/// The trips keyed by identifier, a later entry shadowing an earlier one.
pub open spec fn trips_index(trips: Seq<TripV>) -> Map<u32, TripV>
    decreases trips.len(),
{
    if trips.len() == 0 {
        Map::empty()
    } else {
        trips_index(trips.drop_last()).insert(trips.last().trip_id, trips.last())
    }
}

/// What one matching prediction contributes, looked up in the trip index.
pub open spec fn outcome_of(
    route: Seq<char>,
    name: Seq<char>,
    idx: Map<u32, TripV>,
    p: PredictionV,
) -> ActOutcomeV {
    if !idx.contains_key(p.trip_id) {
        ActOutcomeV::MissingTrip { trip_id: p.trip_id }
    } else {
        match timestamp_of(p.predicted_departure) {
            Some(dt) => ActOutcomeV::Record(
                StopInfoV {
                    route,
                    name,
                    direction: Some(idx[p.trip_id].direction),
                    prediction: Some(dt),
                },
            ),
            None => ActOutcomeV::BadTimestamp { trip_id: p.trip_id, text: p.predicted_departure },
        }
    }
}

/// The outcomes of the predictions whose route name matches, in order.
pub open spec fn outcomes_for(
    route: Seq<char>,
    name: Seq<char>,
    idx: Map<u32, TripV>,
    preds: Seq<PredictionV>,
) -> Seq<ActOutcomeV>
    decreases preds.len(),
{
    if preds.len() == 0 {
        Seq::empty()
    } else {
        let rest = outcomes_for(route, name, idx, preds.drop_last());
        let p = preds.last();
        if p.route_name == route {
            rest.push(outcome_of(route, name, idx, p))
        } else {
            rest
        }
    }
}

pub open spec fn has_record(outs: Seq<ActOutcomeV>) -> bool {
    exists|i: int| 0 <= i < outs.len() && (#[trigger] outs[i]) is Record
}

/// Everything one bus stop contributes: the matching predictions' outcomes,
/// and — when the predictions were unavailable or none joined — the one
/// fallback record.
pub open spec fn act_stop_outcomes(
    route: Seq<char>,
    name: Seq<char>,
    trips: Seq<TripV>,
    preds: Option<Seq<PredictionV>>,
) -> Seq<ActOutcomeV> {
    match preds {
        None => seq![ActOutcomeV::Record(fallback_v(route, name))],
        Some(ps) => {
            let outs = outcomes_for(route, name, trips_index(trips), ps);
            if has_record(outs) {
                outs
            } else {
                outs.push(ActOutcomeV::Record(fallback_v(route, name)))
            }
        },
    }
}

/// The predictions aimed at the queried route.
pub open spec fn matches_route(route: Seq<char>) -> spec_fn(PredictionV) -> bool {
    |p: PredictionV| p.route_name == route
}

/// Law: a stop whose predictions endpoint answered non-success yields
/// exactly one outcome — the fallback record, with no direction and no
/// prediction — whatever the day's trips hold.
pub proof fn lemma_unavailable_predictions_one_fallback(
    route: Seq<char>,
    name: Seq<char>,
    trips: Seq<TripV>,
)
    ensures
        act_stop_outcomes(route, name, trips, None) =~= seq![
            ActOutcomeV::Record(fallback_v(route, name)),
        ],
{
}

proof fn lemma_outcomes_filter(
    route: Seq<char>,
    name: Seq<char>,
    idx: Map<u32, TripV>,
    preds: Seq<PredictionV>,
)
    ensures
        outcomes_for(route, name, idx, preds) == outcomes_for(
            route,
            name,
            idx,
            preds.filter(matches_route(route)),
        ),
    decreases preds.len(),
{
    reveal_with_fuel(Seq::<PredictionV>::filter, 2);
    let f = matches_route(route);
    if preds.len() == 0 {
        assert(preds.filter(f) =~= Seq::<PredictionV>::empty());
    } else {
        lemma_outcomes_filter(route, name, idx, preds.drop_last());
        if f(preds.last()) {
            assert(preds.filter(f).drop_last() =~= preds.drop_last().filter(f));
            assert(preds.filter(f).last() == preds.last());
        } else {
            assert(preds.filter(f) == preds.drop_last().filter(f));
        }
    }
}

/// Law: predictions whose route name is not the route under query leave no
/// trace — the stop's outcomes equal those of the matching predictions
/// alone.
pub proof fn lemma_foreign_route_predictions_excluded(
    route: Seq<char>,
    name: Seq<char>,
    trips: Seq<TripV>,
    preds: Seq<PredictionV>,
)
    ensures
        act_stop_outcomes(route, name, trips, Some(preds)) == act_stop_outcomes(
            route,
            name,
            trips,
            Some(preds.filter(matches_route(route))),
        ),
{
    lemma_outcomes_filter(route, name, trips_index(trips), preds);
}

/// Law: a rail minutes field reading `Leaving` always yields a record that
/// is zero minutes away at the moment of computation.
pub proof fn lemma_leaving_zero_minutes(
    station_name: Seq<char>,
    destination: Seq<char>,
    est: EstimateV,
    now: DateTime,
)
    requires
        wf(now),
        est.minutes == "Leaving"@,
    ensures
        estimate_outcome(station_name, destination, est, now) matches Ok(rec)
            && rec.prediction matches Some(p) && minutes_between(p, now) == 0,
{
    crate::datetime::lemma_total_seconds_bounds(now);
    let ts = total_seconds_of(now);
    assert(exists|dt: DateTime| wf(dt) && total_seconds_of(dt) == ts) by {
        assert(wf(now) && total_seconds_of(now) == ts);
    }
    let w = dt_from_total(ts);
    assert(wf(w) && total_seconds_of(w) == ts);
}

/// Pushing anything but a record leaves `has_record` unchanged.
proof fn lemma_push_keeps_has_record(outs: Seq<ActOutcomeV>, o: ActOutcomeV)
    requires
        !(o is Record),
    ensures
        has_record(outs.push(o)) == has_record(outs),
{
    let nv = outs.push(o);
    if has_record(outs) {
        let w = choose|w: int| 0 <= w < outs.len() && (#[trigger] outs[w]) is Record;
        assert(nv[w] is Record);
    }
    if has_record(nv) {
        let w = choose|w: int| 0 <= w < nv.len() && (#[trigger] nv[w]) is Record;
        if w < outs.len() {
            assert(outs[w] is Record);
        }
    }
}

/// Character-by-character string equality.
fn str_eq(a: &str, b: &str) -> (r: bool)
    ensures
        r == (a@ == b@),
{
    let la = a.unicode_len();
    let lb = b.unicode_len();
    if la != lb {
        return false;
    }
    let mut i: usize = 0;
    while i < la
        invariant
            i <= la,
            la == a@.len() == b@.len(),
            forall|j: int| 0 <= j < i ==> a@[j] == b@[j],
        decreases la - i,
    {
        if a.get_char(i) != b.get_char(i) {
            return false;
        }
        i = i + 1;
    }
    proof {
        assert(a@ =~= b@);
    }
    true
}

fn fallback_record(route: &str, name: &str) -> (r: StopInfo)
    ensures
        r@ == fallback_v(route@, name@),
{
    StopInfo {
        route: String::from_str(route),
        name: String::from_str(name),
        direction: None,
        prediction: None,
    }
}

/// Join one bus stop's predictions to the day's trips: for each prediction
/// on the queried route, the joined record (direction from its trip,
/// departure parsed from its timestamp) or the inconsistency found; one
/// fallback record where the predictions were unavailable or none joined.
pub fn act_stop_records(
    route: &str,
    stop_name: &str,
    trips: &Vec<Trip>,
    predictions: &Option<Vec<Prediction>>,
) -> (r: Vec<ActOutcome>)
    ensures
        r.deep_view() == act_stop_outcomes(
            route@,
            stop_name@,
            trips.deep_view(),
            match predictions {
                Some(ps) => Some(ps.deep_view()),
                None => None,
            },
        ),
{
    let ghost tv = trips.deep_view();
    let ps = match predictions {
        Some(ps) => ps,
        None => {
            let mut out: Vec<ActOutcome> = Vec::new();
            out.push(ActOutcome::Record(fallback_record(route, stop_name)));
            proof {
                assert(out.deep_view() =~= seq![
                    ActOutcomeV::Record(fallback_v(route@, stop_name@)),
                ]);
            }
            return out;
        },
    };
    let mut index: HashMap<u32, usize> = HashMap::new();
    let mut i: usize = 0;
    while i < trips.len()
        invariant
            i <= trips.len(),
            tv == trips.deep_view(),
            tv.len() == trips@.len(),
            forall|k: u32| #[trigger]
                index@.contains_key(k) == trips_index(tv.take(i as int)).contains_key(k),
            forall|k: u32| #[trigger]
                index@.contains_key(k) ==> index@[k] < i && trips@[index@[k] as int]@
                    == trips_index(tv.take(i as int))[k],
        decreases trips.len() - i,
    {
        proof {
            assert(tv.take(i + 1).drop_last() =~= tv.take(i as int));
            assert(tv.take(i + 1).last() == trips@[i as int]@);
        }
        index.insert(trips[i].trip_id, i);
        i = i + 1;
    }
    proof {
        assert(tv.take(trips@.len() as int) =~= tv);
    }
    let ghost pv = ps.deep_view();
    let ghost idxm = trips_index(tv);
    let mut out: Vec<ActOutcome> = Vec::new();
    let mut pushed = false;
    let mut j: usize = 0;
    while j < ps.len()
        invariant
            j <= ps.len(),
            tv == trips.deep_view(),
            tv.len() == trips@.len(),
            pv == ps.deep_view(),
            pv.len() == ps@.len(),
            idxm == trips_index(tv),
            forall|k: u32| #[trigger] index@.contains_key(k) == idxm.contains_key(k),
            forall|k: u32| #[trigger]
                index@.contains_key(k) ==> index@[k] < trips@.len() && trips@[index@[k] as int]@
                    == idxm[k],
            out.deep_view() == outcomes_for(route@, stop_name@, idxm, pv.take(j as int)),
            pushed == has_record(out.deep_view()),
        decreases ps.len() - j,
    {
        let ghost old_out = out.deep_view();
        proof {
            assert(pv.take(j + 1).drop_last() =~= pv.take(j as int));
            assert(pv.take(j + 1).last() == ps@[j as int]@);
        }
        let p = &ps[j];
        if str_eq(p.route_name.as_str(), route) {
            match index.get(&p.trip_id) {
                None => {
                    out.push(ActOutcome::MissingTrip { trip_id: p.trip_id });
                    proof {
                        let nv = out.deep_view();
                        assert(nv =~= old_out.push(outcome_of(route@, stop_name@, idxm, p@)));
                        lemma_push_keeps_has_record(
                            old_out,
                            outcome_of(route@, stop_name@, idxm, p@),
                        );
                    }
                },
                Some(ti) => {
                    let trip = &trips[*ti];
                    match parse_timestamp(p.predicted_departure.as_str()) {
                        Some(dt) => {
                            out.push(
                                ActOutcome::Record(
                                    StopInfo {
                                        route: String::from_str(route),
                                        name: String::from_str(stop_name),
                                        direction: Some(trip.direction.clone()),
                                        prediction: Some(dt),
                                    },
                                ),
                            );
                            pushed = true;
                            proof {
                                let nv = out.deep_view();
                                assert(nv =~= old_out.push(
                                    outcome_of(route@, stop_name@, idxm, p@),
                                ));
                                assert(nv[nv.len() - 1] is Record);
                            }
                        },
                        None => {
                            out.push(
                                ActOutcome::BadTimestamp {
                                    trip_id: p.trip_id,
                                    text: p.predicted_departure.clone(),
                                },
                            );
                            proof {
                                let nv = out.deep_view();
                                assert(nv =~= old_out.push(
                                    outcome_of(route@, stop_name@, idxm, p@),
                                ));
                                lemma_push_keeps_has_record(
                                    old_out,
                                    outcome_of(route@, stop_name@, idxm, p@),
                                );
                            }
                        },
                    }
                },
            }
        } else {
            proof {
                assert(out.deep_view() == outcomes_for(
                    route@,
                    stop_name@,
                    idxm,
                    pv.take(j + 1),
                ));
            }
        }
        j = j + 1;
    }
    proof {
        assert(pv.take(ps@.len() as int) =~= pv);
    }
    if !pushed {
        let ghost old_out = out.deep_view();
        out.push(ActOutcome::Record(fallback_record(route, stop_name)));
        proof {
            assert(out.deep_view() =~= old_out.push(
                ActOutcomeV::Record(fallback_v(route@, stop_name@)),
            ));
        }
    }
    out
}

/// One rail departure estimate, as far as the flattening reads it: the
/// minutes-to-arrival field and the line colour used as the route label.
pub struct Estimate {
    pub minutes: String,
    pub color: String,
}

pub struct EstimateV {
    pub minutes: Seq<char>,
    pub color: Seq<char>,
}

impl View for Estimate {
    type V = EstimateV;

    open spec fn view(&self) -> EstimateV {
        EstimateV { minutes: self.minutes@, color: self.color@ }
    }
}

impl DeepView for Estimate {
    type V = EstimateV;

    open spec fn deep_view(&self) -> EstimateV {
        self@
    }
}

/// A rail destination's estimated departures.
pub struct Etd {
    pub destination: String,
    pub estimates: Vec<Estimate>,
}

pub struct EtdV {
    pub destination: Seq<char>,
    pub estimates: Seq<EstimateV>,
}

impl View for Etd {
    type V = EtdV;

    open spec fn view(&self) -> EtdV {
        EtdV { destination: self.destination@, estimates: self.estimates.deep_view() }
    }
}

impl DeepView for Etd {
    type V = EtdV;

    open spec fn deep_view(&self) -> EtdV {
        self@
    }
}

/// A rail station's answer: its name and its destinations' estimates.
pub struct Station {
    pub name: String,
    pub etds: Vec<Etd>,
}

pub struct StationV {
    pub name: Seq<char>,
    pub etds: Seq<EtdV>,
}

impl View for Station {
    type V = StationV;

    open spec fn view(&self) -> StationV {
        StationV { name: self.name@, etds: self.etds.deep_view() }
    }
}

impl DeepView for Station {
    type V = StationV;

    open spec fn deep_view(&self) -> StationV {
        self@
    }
}

/// What stops a rail fetch: a minutes field that spells no integer, or a
/// predicted time the calendar model cannot carry.
#[derive(Debug)]
pub enum BartError {
    InvalidMinutes { minutes: String },
    OutOfRangePrediction,
}

pub enum BartErrorV {
    InvalidMinutes { minutes: Seq<char> },
    OutOfRangePrediction,
}

impl View for BartError {
    type V = BartErrorV;

    open spec fn view(&self) -> BartErrorV {
        match self {
            BartError::InvalidMinutes { minutes } => BartErrorV::InvalidMinutes {
                minutes: minutes@,
            },
            BartError::OutOfRangePrediction => BartErrorV::OutOfRangePrediction,
        }
    }
}

/// What a rail minutes field denotes: zero for the literal `Leaving`, else
/// the integer it spells.
pub open spec fn minutes_of(s: Seq<char>) -> Option<i64> {
    if s == "Leaving"@ {
        Some(0)
    } else {
        i64_of_str(s)
    }
}

/// The record one rail estimate contributes: the line colour as route, the
/// station as stop, the destination as direction, and now plus the minutes
/// field as predicted departure.
pub open spec fn estimate_outcome(
    station_name: Seq<char>,
    destination: Seq<char>,
    est: EstimateV,
    now: DateTime,
) -> Result<StopInfoV, BartErrorV> {
    match minutes_of(est.minutes) {
        None => Err(BartErrorV::InvalidMinutes { minutes: est.minutes }),
        Some(m) => {
            let ts = total_seconds_of(now) + m * 60;
            if 0 <= ts < total_seconds_limit() {
                Ok(
                    StopInfoV {
                        route: est.color,
                        name: station_name,
                        direction: Some(destination),
                        prediction: Some(dt_from_total(ts)),
                    },
                )
            } else {
                Err(BartErrorV::OutOfRangePrediction)
            }
        },
    }
}

pub open spec fn estimates_outcome(
    station_name: Seq<char>,
    destination: Seq<char>,
    ests: Seq<EstimateV>,
    now: DateTime,
) -> Result<Seq<StopInfoV>, BartErrorV>
    decreases ests.len(),
{
    if ests.len() == 0 {
        Ok(Seq::empty())
    } else {
        match estimate_outcome(station_name, destination, ests[0], now) {
            Err(e) => Err(e),
            Ok(rec) => match estimates_outcome(station_name, destination, ests.skip(1), now) {
                Err(e) => Err(e),
                Ok(rest) => Ok(seq![rec] + rest),
            },
        }
    }
}

pub open spec fn etds_outcome(station_name: Seq<char>, etds: Seq<EtdV>, now: DateTime) -> Result<
    Seq<StopInfoV>,
    BartErrorV,
>
    decreases etds.len(),
{
    if etds.len() == 0 {
        Ok(Seq::empty())
    } else {
        match estimates_outcome(station_name, etds[0].destination, etds[0].estimates, now) {
            Err(e) => Err(e),
            Ok(recs) => match etds_outcome(station_name, etds.skip(1), now) {
                Err(e) => Err(e),
                Ok(rest) => Ok(recs + rest),
            },
        }
    }
}

/// Every record the rail stations contribute, flattened station by
/// destination by estimate, or the first failure met in that order.
pub open spec fn bart_outcome(stations: Seq<StationV>, now: DateTime) -> Result<
    Seq<StopInfoV>,
    BartErrorV,
>
    decreases stations.len(),
{
    if stations.len() == 0 {
        Ok(Seq::empty())
    } else {
        match etds_outcome(stations[0].name, stations[0].etds, now) {
            Err(e) => Err(e),
            Ok(recs) => match bart_outcome(stations.skip(1), now) {
                Err(e) => Err(e),
                Ok(rest) => Ok(recs + rest),
            },
        }
    }
}

fn estimate_record(
    station_name: &str,
    destination: &str,
    est: &Estimate,
    now: &DateTime,
) -> (r: Result<StopInfo, BartError>)
    requires
        wf(*now),
    ensures
        match r {
            Ok(s) => estimate_outcome(station_name@, destination@, est@, *now) == Ok::<
                StopInfoV,
                BartErrorV,
            >(s@),
            Err(e) => estimate_outcome(station_name@, destination@, est@, *now) == Err::<
                StopInfoV,
                BartErrorV,
            >(e@),
        },
{
    let m = if str_eq(est.minutes.as_str(), "Leaving") {
        Some(0i64)
    } else {
        parse_i64(est.minutes.as_str())
    };
    match m {
        None => Err(BartError::InvalidMinutes { minutes: est.minutes.clone() }),
        Some(mv) => match checked_add_minutes(now, mv) {
            None => Err(BartError::OutOfRangePrediction),
            Some(p) => Ok(
                StopInfo {
                    route: est.color.clone(),
                    name: String::from_str(station_name),
                    direction: Some(String::from_str(destination)),
                    prediction: Some(p),
                },
            ),
        },
    }
}

fn estimates_records(
    station_name: &str,
    destination: &str,
    ests: &Vec<Estimate>,
    from: usize,
    now: &DateTime,
) -> (r: Result<Vec<StopInfo>, BartError>)
    requires
        wf(*now),
        from <= ests.len(),
    ensures
        match r {
            Ok(v) => estimates_outcome(
                station_name@,
                destination@,
                ests.deep_view().skip(from as int),
                *now,
            ) == Ok::<Seq<StopInfoV>, BartErrorV>(v.deep_view()),
            Err(e) => estimates_outcome(
                station_name@,
                destination@,
                ests.deep_view().skip(from as int),
                *now,
            ) == Err::<Seq<StopInfoV>, BartErrorV>(e@),
        },
    decreases ests.len() - from,
{
    let ghost tail = ests.deep_view().skip(from as int);
    if from == ests.len() {
        let empty: Vec<StopInfo> = Vec::new();
        proof {
            assert(tail =~= Seq::<EstimateV>::empty());
            assert(empty.deep_view() =~= Seq::<StopInfoV>::empty());
        }
        return Ok(empty);
    }
    proof {
        assert(tail[0] == ests@[from as int]@);
        assert(tail.skip(1) =~= ests.deep_view().skip(from + 1));
    }
    let rec = match estimate_record(station_name, destination, &ests[from], now) {
        Ok(rec) => rec,
        Err(e) => { return Err(e) },
    };
    let mut rest = match estimates_records(station_name, destination, ests, from + 1, now) {
        Ok(rest) => rest,
        Err(e) => { return Err(e) },
    };
    let ghost restv = rest.deep_view();
    rest.insert(0, rec);
    proof {
        assert(rest.deep_view() =~= seq![rest@[0]@] + restv);
    }
    Ok(rest)
}

fn etds_records(station_name: &str, etds: &Vec<Etd>, from: usize, now: &DateTime) -> (r: Result<
    Vec<StopInfo>,
    BartError,
>)
    requires
        wf(*now),
        from <= etds.len(),
    ensures
        match r {
            Ok(v) => etds_outcome(station_name@, etds.deep_view().skip(from as int), *now) == Ok::<
                Seq<StopInfoV>,
                BartErrorV,
            >(v.deep_view()),
            Err(e) => etds_outcome(station_name@, etds.deep_view().skip(from as int), *now)
                == Err::<Seq<StopInfoV>, BartErrorV>(e@),
        },
    decreases etds.len() - from,
{
    let ghost tail = etds.deep_view().skip(from as int);
    if from == etds.len() {
        let empty: Vec<StopInfo> = Vec::new();
        proof {
            assert(tail =~= Seq::<EtdV>::empty());
            assert(empty.deep_view() =~= Seq::<StopInfoV>::empty());
        }
        return Ok(empty);
    }
    proof {
        assert(tail[0] == etds@[from as int]@);
        assert(tail.skip(1) =~= etds.deep_view().skip(from + 1));
    }
    let etd = &etds[from];
    proof {
        assert(etd.estimates.deep_view().skip(0) =~= etd.estimates.deep_view());
    }
    let mut recs = match estimates_records(
        station_name,
        etd.destination.as_str(),
        &etd.estimates,
        0,
        now,
    ) {
        Ok(recs) => recs,
        Err(e) => { return Err(e) },
    };
    let mut rest = match etds_records(station_name, etds, from + 1, now) {
        Ok(rest) => rest,
        Err(e) => { return Err(e) },
    };
    let ghost recsv = recs.deep_view();
    let ghost restv = rest.deep_view();
    recs.append(&mut rest);
    proof {
        assert(recs.deep_view() =~= recsv + restv);
    }
    Ok(recs)
}

/// Flatten the rail stations' answers into departure records, station by
/// destination by estimate, timing each from `now`; the first minutes field
/// that spells no integer, or the first predicted time the calendar cannot
/// carry, stops the fetch with that error.
pub fn bart_records(stations: &Vec<Station>, now: &DateTime) -> (r: Result<Vec<StopInfo>, BartError>)
    requires
        wf(*now),
    ensures
        match r {
            Ok(v) => bart_outcome(stations.deep_view(), *now) == Ok::<Seq<StopInfoV>, BartErrorV>(
                v.deep_view(),
            ),
            Err(e) => bart_outcome(stations.deep_view(), *now) == Err::<Seq<StopInfoV>, BartErrorV>(
                e@,
            ),
        },
{
    proof {
        assert(stations.deep_view().skip(0) =~= stations.deep_view());
    }
    stations_records(stations, 0, now)
}

fn stations_records(stations: &Vec<Station>, from: usize, now: &DateTime) -> (r: Result<
    Vec<StopInfo>,
    BartError,
>)
    requires
        wf(*now),
        from <= stations.len(),
    ensures
        match r {
            Ok(v) => bart_outcome(stations.deep_view().skip(from as int), *now) == Ok::<
                Seq<StopInfoV>,
                BartErrorV,
            >(v.deep_view()),
            Err(e) => bart_outcome(stations.deep_view().skip(from as int), *now) == Err::<
                Seq<StopInfoV>,
                BartErrorV,
            >(e@),
        },
    decreases stations.len() - from,
{
    let ghost tail = stations.deep_view().skip(from as int);
    if from == stations.len() {
        let empty: Vec<StopInfo> = Vec::new();
        proof {
            assert(tail =~= Seq::<StationV>::empty());
            assert(empty.deep_view() =~= Seq::<StopInfoV>::empty());
        }
        return Ok(empty);
    }
    proof {
        assert(tail[0] == stations@[from as int]@);
        assert(tail.skip(1) =~= stations.deep_view().skip(from + 1));
    }
    let station = &stations[from];
    proof {
        assert(station.etds.deep_view().skip(0) =~= station.etds.deep_view());
    }
    let mut recs = match etds_records(station.name.as_str(), &station.etds, 0, now) {
        Ok(recs) => recs,
        Err(e) => { return Err(e) },
    };
    let mut rest = match stations_records(stations, from + 1, now) {
        Ok(rest) => rest,
        Err(e) => { return Err(e) },
    };
    let ghost recsv = recs.deep_view();
    let ghost restv = rest.deep_view();
    recs.append(&mut rest);
    proof {
        assert(recs.deep_view() =~= recsv + restv);
    }
    Ok(recs)
}

} // verus!
