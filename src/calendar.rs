//! Service calendars: a weekday pattern over a validity range, with dates
//! added and removed by exception.

use vstd::prelude::*;

verus! {

/// A pattern of service dates. Dates are day numbers, day 0 being Thursday
/// 1970-01-01; `weekdays[0]` is Monday and `weekdays[6]` Sunday.
pub struct Calendar {
    pub id: String,
    pub weekdays: [bool; 7],
    pub start_date: u32,
    pub end_date: u32,
    pub added: Vec<u32>,
    pub removed: Vec<u32>,
}

/// Why a calendar was refused: it has no date of service.
#[derive(Debug, Clone, PartialEq, Eq)]
pub struct InvalidCalendar {
    pub calendar_id: String,
}

/// The weekday of day `d`, Monday being 0.
pub open spec fn weekday(d: int) -> int {
    (d + 3) % 7
}

/// Day `d` lies in the validity range on one of the pattern's weekdays.
pub open spec fn in_pattern(c: &Calendar, d: int) -> bool {
    c.start_date <= d <= c.end_date && c.weekdays@[weekday(d)]
}

/// Day `d` is a date of service: in the pattern or added, and not removed.
pub open spec fn is_active(c: &Calendar, d: u32) -> bool {
    (in_pattern(c, d as int) || c.added@.contains(d)) && !c.removed@.contains(d)
}

fn contains_date(v: &Vec<u32>, d: u32) -> (r: bool)
    ensures
        r == v@.contains(d),
{
    let mut i: usize = 0;
    while i < v.len()
        invariant
            i <= v@.len(),
            forall|j: int| 0 <= j < i ==> v@[j] != d,
        decreases v@.len() - i,
    {
        if v[i] == d {
            return true;
        }
        i = i + 1;
    }
    false
}

proof fn lemma_push_contains(before: Seq<u32>, after: Seq<u32>, pushed: bool, v: u32, x: u32)
    requires
        pushed ==> after == before.push(v),
        !pushed ==> after == before,
    ensures
        after.contains(x) <==> (before.contains(x) || (pushed && x == v)),
{
    if pushed {
        if x == v {
            assert(after[after.len() - 1] == x);
        }
        if after.contains(x) && x != v {
            let k = choose|k: int| 0 <= k < after.len() && after[k] == x;
            assert(before[k] == x);
        }
        if before.contains(x) {
            let k = choose|k: int| 0 <= k < before.len() && before[k] == x;
            assert(after[k] == x);
        }
    }
}

impl Calendar {
    /// Whether day `d` is in the validity range on one of the weekdays.
    pub fn matches_pattern(&self, d: u32) -> (r: bool)
        ensures
            r == in_pattern(self, d as int),
    {
        let w: usize = ((d as u64 + 3) % 7) as usize;
        self.start_date <= d && d <= self.end_date && self.weekdays[w]
    }

    /// The dates of service, each once: the pattern's dates and the added
    /// ones, less the removed ones. Pattern dates come first, ascending.
    pub fn effective_dates(&self) -> (r: Vec<u32>)
        ensures
            forall|d: u32| r@.contains(d) <==> is_active(self, d),
            r@.no_duplicates(),
    {
        let mut out: Vec<u32> = Vec::new();
        let mut d: u64 = self.start_date as u64;
        while d <= self.end_date as u64
            invariant
                self.start_date <= d <= self.end_date as u64 + 1 || d == self.start_date,
                forall|x: u32|
                    #[trigger] out@.contains(x) <==> (x < d && in_pattern(self, x as int) && !self.removed@.contains(x)),
                forall|i: int| 0 <= i < out@.len() ==> out@[i] < d,
                out@.no_duplicates(),
            decreases self.end_date as u64 + 1 - d,
        {
            let day = d as u32;
            let ghost before = out@;
            let keep = self.matches_pattern(day) && !contains_date(&self.removed, day);
            if keep {
                out.push(day);
            }
            proof {
                assert forall|x: u32|
                    #[trigger] out@.contains(x) <==> (x < d + 1 && in_pattern(self, x as int)
                        && !self.removed@.contains(x)) by {
                    lemma_push_contains(before, out@, keep, day, x);
                    assert(before.contains(x) <==> (x < d && in_pattern(self, x as int)
                        && !self.removed@.contains(x)));
                    assert(day as int == d);
                }
            }
            d = d + 1;
        }
        let mut i: usize = 0;
        while i < self.added.len()
            invariant
                i <= self.added@.len(),
                forall|x: u32|
                    #[trigger] out@.contains(x) <==> ((in_pattern(self, x as int) || self.added@.subrange(
                        0,
                        i as int,
                    ).contains(x)) && !self.removed@.contains(x)),
                out@.no_duplicates(),
            decreases self.added@.len() - i,
        {
            let a = self.added[i];
            let ghost before = out@;
            let keep = !contains_date(&self.removed, a) && !contains_date(&out, a);
            if keep {
                out.push(a);
            }
            proof {
                let pre = self.added@.subrange(0, i as int);
                let post = self.added@.subrange(0, i + 1);
                assert(post =~= pre.push(a));
                assert forall|x: u32|
                    #[trigger] out@.contains(x) <==> ((in_pattern(self, x as int) || post.contains(x))
                        && !self.removed@.contains(x)) by {
                    lemma_push_contains(before, out@, keep, a, x);
                    lemma_push_contains(pre, post, true, a, x);
                    assert(before.contains(x) <==> ((in_pattern(self, x as int) || pre.contains(x))
                        && !self.removed@.contains(x)));
                }
            }
            i = i + 1;
        }
        assert(self.added@.subrange(0, i as int) =~= self.added@);
        out
    }

    /// The dates of service, refused when there is none.
    pub fn checked_dates(&self) -> (r: Result<Vec<u32>, InvalidCalendar>)
        ensures
            r is Err <==> forall|d: u32| !is_active(self, d),
            r matches Err(e) ==> e.calendar_id@ == self.id@,
            r matches Ok(v) ==> (forall|d: u32| v@.contains(d) <==> is_active(self, d))
                && v@.no_duplicates(),
    {
        let dates = self.effective_dates();
        if dates.len() == 0 {
            proof {
                assert forall|d: u32| !is_active(self, d) by {
                    assert(!dates@.contains(d));
                    assert(dates@.contains(d) <==> is_active(self, d));
                }
            }
            Err(InvalidCalendar { calendar_id: self.id.clone() })
        } else {
            proof {
                assert(dates@.contains(dates@[0]));
                assert(is_active(self, dates@[0]));
            }
            Ok(dates)
        }
    }
}

} // verus!
