//! Expansion of headway-based trip templates into concrete journeys.

use vstd::prelude::*;
use vstd::string::StringExecFns;

verus! {

/// A stop of a template, at the times of its first run.
pub struct TemplateStopTime {
    pub stop_point_id: String,
    pub sequence: u32,
    pub arrival: u32,
    pub departure: u32,
}

/// A stop of a concrete journey, in seconds.
pub struct StopTime {
    pub stop_point_id: String,
    pub sequence: u32,
    pub arrival: u64,
    pub departure: u64,
}

/// A trip that runs every `headway_secs` seconds from `start_time` until
/// before `end_time`.
pub struct Frequency {
    pub trip_id: String,
    pub start_time: u32,
    pub end_time: u32,
    pub headway_secs: u32,
    pub stop_times: Vec<TemplateStopTime>,
}

/// One concrete run.
pub struct VehicleJourney {
    pub id: String,
    pub stop_times: Vec<StopTime>,
}

/// The template's times are inverted or its headway is zero.
#[derive(Debug, Clone, PartialEq, Eq)]
pub struct InvalidFrequency {
    pub trip_id: String,
}

/// The character of the digit `d`.
pub open spec fn digit(d: nat) -> char {
    seq!['0', '1', '2', '3', '4', '5', '6', '7', '8', '9'][d as int]
}

/// `n` written in decimal, without sign or leading zeros.
pub open spec fn decimal(n: nat) -> Seq<char>
    decreases n,
{
    if n < 10 {
        seq![digit(n)]
    } else {
        decimal(n / 10).push(digit(n % 10))
    }
}

/// Relies on the `Display` of `u64` (through `to_string`): decimal digits,
/// with no sign, padding or separator.
#[verifier::external_body]
fn decimal_string(n: u64) -> (r: String)
    ensures
        r@ == decimal(n as nat),
{
    n.to_string()
}

/// The number of `k >= 0` with `start + k * headway < end`.
pub open spec fn run_count(start: int, end: int, headway: int) -> nat {
    if end <= start || headway <= 0 {
        0
    } else {
        ((end - start + headway - 1) / headway) as nat
    }
}

/// The id of run `k` of trip `trip`: `{trip}:{k}`.
pub open spec fn run_id(trip: Seq<char>, k: nat) -> Seq<char> {
    trip + seq![':'] + decimal(k)
}

/// `s` is `t` moved `shift` seconds later.
pub open spec fn is_shifted(s: StopTime, t: TemplateStopTime, shift: int) -> bool {
    &&& s.stop_point_id@ == t.stop_point_id@
    &&& s.sequence == t.sequence
    &&& s.arrival == t.arrival + shift
    &&& s.departure == t.departure + shift
}

/// `j` is run `k` of `f`.
pub open spec fn is_run(j: VehicleJourney, f: Frequency, k: nat) -> bool {
    &&& j.id@ == run_id(f.trip_id@, k)
    &&& j.stop_times@.len() == f.stop_times@.len()
    &&& forall|i: int|
        0 <= i < j.stop_times@.len() ==> is_shifted(
            #[trigger] j.stop_times@[i],
            f.stop_times@[i],
            k * f.headway_secs,
        )
}

/// `v` holds the runs of `f`, in order.
pub open spec fn is_expansion(v: Seq<VehicleJourney>, f: Frequency) -> bool {
    &&& v.len() == run_count(f.start_time as int, f.end_time as int, f.headway_secs as int)
    &&& forall|k: int| 0 <= k < v.len() ==> is_run(#[trigger] v[k], f, k as nat)
}

/// `k` runs fit before `end` exactly when `k` is below the run count.
pub proof fn lemma_run_count(start: int, end: int, headway: int, k: nat)
    requires
        start < end,
        headway > 0,
    ensures
        k < run_count(start, end, headway) <==> start + k * headway < end,
        run_count(start, end, headway) <= end - start,
{
    let d = end - start;
    let c = (d + headway - 1) / headway;
    assert(c * headway <= d + headway - 1 && d + headway - 1 < c * headway + headway && c <= d) by (nonlinear_arith)
        requires
            c == (d + headway - 1) / headway,
            headway > 0,
            d > 0,
    ;
    assert(c > 0) by (nonlinear_arith)
        requires
            c == (d + headway - 1) / headway,
            headway > 0,
            d > 0,
    ;
    assert(run_count(start, end, headway) == c);
    if k < c {
        assert(k * headway <= c * headway - headway) by (nonlinear_arith)
            requires
                k <= c - 1,
                headway > 0,
        ;
    } else {
        assert(k * headway >= c * headway) by (nonlinear_arith)
            requires
                k >= c,
                headway > 0,
        ;
    }
}

fn shifted_stop_times(f: &Frequency, shift: u64) -> (r: Vec<StopTime>)
    requires
        shift <= u32::MAX,
    ensures
        r@.len() == f.stop_times@.len(),
        forall|i: int| 0 <= i < r@.len() ==> is_shifted(#[trigger] r@[i], f.stop_times@[i], shift as int),
{
    let mut out: Vec<StopTime> = Vec::new();
    let mut i: usize = 0;
    while i < f.stop_times.len()
        invariant
            i <= f.stop_times@.len(),
            out@.len() == i,
            shift <= u32::MAX,
            forall|j: int| 0 <= j < i ==> is_shifted(#[trigger] out@[j], f.stop_times@[j], shift as int),
        decreases f.stop_times@.len() - i,
    {
        let t = &f.stop_times[i];
        out.push(StopTime {
            stop_point_id: t.stop_point_id.clone(),
            sequence: t.sequence,
            arrival: t.arrival as u64 + shift,
            departure: t.departure as u64 + shift,
        });
        i = i + 1;
    }
    out
}

impl Frequency {
    /// One journey per run, from `start_time` every `headway_secs` seconds
    /// while before `end_time`; run `k` has every time of the template moved
    /// `k * headway_secs` later and the id `{trip_id}:{k}`.
    pub fn expand(&self) -> (r: Result<Vec<VehicleJourney>, InvalidFrequency>)
        ensures
            r is Err <==> self.end_time <= self.start_time || self.headway_secs == 0,
            r matches Err(e) ==> e.trip_id@ == self.trip_id@,
            r matches Ok(v) ==> is_expansion(v@, *self),
    {
        if self.end_time <= self.start_time || self.headway_secs == 0 {
            return Err(InvalidFrequency { trip_id: self.trip_id.clone() });
        }
        let ghost count = run_count(self.start_time as int, self.end_time as int, self.headway_secs as int);
        let h = self.headway_secs as u64;
        let end = self.end_time as u64;
        let mut t: u64 = self.start_time as u64;
        let mut k: u64 = 0;
        let mut out: Vec<VehicleJourney> = Vec::new();
        proof {
            lemma_run_count(self.start_time as int, self.end_time as int, h as int, 0);
        }
        while t < end
            invariant
                h == self.headway_secs,
                h > 0,
                end == self.end_time,
                self.start_time < self.end_time,
                t == self.start_time + k * h,
                t < end ==> k < count,
                t >= end ==> k >= count,
                count == run_count(self.start_time as int, self.end_time as int, self.headway_secs as int),
                k <= count,
                count <= u32::MAX,
                out@.len() == k,
                forall|j: int| 0 <= j < k ==> is_run(#[trigger] out@[j], *self, j as nat),
            decreases count - k,
        {
            let stop_times = shifted_stop_times(self, t - self.start_time as u64);
            let mut id = self.trip_id.clone();
            id.append(":");
            let suffix = decimal_string(k);
            id.append(suffix.as_str());
            proof {
                reveal_strlit(":");
                assert(id@ =~= run_id(self.trip_id@, k as nat));
                assert((t - self.start_time) as int == k as nat * self.headway_secs);
            }
            let j = VehicleJourney { id, stop_times };
            assert(is_run(j, *self, k as nat));
            out.push(j);
            let ghost k1: nat = (k + 1) as nat;
            proof {
                lemma_run_count(self.start_time as int, self.end_time as int, self.headway_secs as int, k1);
                assert(k1 * h == k * h + h) by (nonlinear_arith)
                    requires
                        k1 == k + 1,
                ;
            }
            t = t + h;
            k = k + 1;
            assert(t == self.start_time + k1 * h);
        }
        Ok(out)
    }
}

/// Expanding one template gives exactly one journey for each `k >= 0` with
/// `start_time + k * headway_secs < end_time`, run `k` having each time of
/// the template moved by exactly `k * headway_secs`; two expansions of the
/// same template give the same ids, in the same order.
pub proof fn lemma_expansion_deterministic(
    f: Frequency,
    v1: Seq<VehicleJourney>,
    v2: Seq<VehicleJourney>,
    k: nat,
)
    requires
        f.start_time < f.end_time,
        f.headway_secs > 0,
        is_expansion(v1, f),
        is_expansion(v2, f),
    ensures
        k < v1.len() <==> f.start_time + k * f.headway_secs < f.end_time,
        v1.len() == v2.len(),
        k < v1.len() ==> v1[k as int].id@ == v2[k as int].id@,
        k < v1.len() ==> forall|i: int|
            0 <= i < f.stop_times@.len() ==> v1[k as int].stop_times@[i].arrival == f.stop_times@[i].arrival
                + k * f.headway_secs,
{
    lemma_run_count(f.start_time as int, f.end_time as int, f.headway_secs as int, k);
    if k < v1.len() {
        assert(is_run(v1[k as int], f, k));
        assert(is_run(v2[k as int], f, k));
        assert forall|i: int| 0 <= i < f.stop_times@.len() implies v1[k as int].stop_times@[i].arrival
            == f.stop_times@[i].arrival + k * f.headway_secs by {
            assert(is_shifted(v1[k as int].stop_times@[i], f.stop_times@[i], k * f.headway_secs));
        }
    }
}

} // verus!
