use navitia_model::calendar::Calendar;
use navitia_model::frequency::{Frequency, TemplateStopTime};

fn template(start: u32, end: u32, headway: u32) -> Frequency {
    Frequency {
        trip_id: "trip".to_string(),
        start_time: start,
        end_time: end,
        headway_secs: headway,
        stop_times: vec![
            TemplateStopTime { stop_point_id: "a".to_string(), sequence: 0, arrival: 3600, departure: 3660 },
            TemplateStopTime { stop_point_id: "b".to_string(), sequence: 1, arrival: 4200, departure: 4260 },
        ],
    }
}

#[test]
fn frequency_expands_one_journey_per_headway() {
    let runs = template(3600, 7200, 600).expand().ok().unwrap();
    assert_eq!(runs.len(), 6);
    for (k, j) in runs.iter().enumerate() {
        assert_eq!(j.id, format!("trip:{}", k));
        assert_eq!(j.stop_times.len(), 2);
        assert_eq!(j.stop_times[0].arrival, 3600 + 600 * k as u64);
        assert_eq!(j.stop_times[0].departure, 3660 + 600 * k as u64);
        assert_eq!(j.stop_times[1].arrival, 4200 + 600 * k as u64);
        assert_eq!(j.stop_times[1].stop_point_id, "b");
        assert_eq!(j.stop_times[1].sequence, 1);
    }
}

#[test]
fn frequency_interval_is_half_open() {
    assert_eq!(template(3600, 7201, 600).expand().ok().unwrap().len(), 7);
    assert_eq!(template(0, 1, 600).expand().ok().unwrap().len(), 1);
}

#[test]
fn frequency_ids_are_stable_and_decimal() {
    let a = template(0, 7000, 600).expand().ok().unwrap();
    let b = template(0, 7000, 600).expand().ok().unwrap();
    let ids_a: Vec<String> = a.iter().map(|j| j.id.clone()).collect();
    let ids_b: Vec<String> = b.iter().map(|j| j.id.clone()).collect();
    assert_eq!(ids_a, ids_b);
    assert_eq!(ids_a.len(), 12);
    assert_eq!(ids_a[10], "trip:10");
    assert_eq!(ids_a[11], "trip:11");
}

#[test]
fn frequency_refuses_inverted_or_zero_headway() {
    assert_eq!(template(7200, 3600, 600).expand().err().unwrap().trip_id, "trip");
    assert!(template(3600, 3600, 600).expand().is_err());
    assert!(template(0, 3600, 0).expand().is_err());
}

// Day 4 is Monday 1970-01-05.
fn mon_wed_two_weeks(added: Vec<u32>, removed: Vec<u32>) -> Calendar {
    Calendar {
        id: "cal".to_string(),
        weekdays: [true, false, true, false, false, false, false],
        start_date: 4,
        end_date: 17,
        added,
        removed,
    }
}

#[test]
fn calendar_pattern_dates() {
    assert_eq!(mon_wed_two_weeks(vec![], vec![]).effective_dates(), vec![4, 6, 11, 13]);
}

#[test]
fn calendar_exceptions_add_sunday_remove_wednesday() {
    let c = mon_wed_two_weeks(vec![10], vec![13]);
    let mut dates = c.effective_dates();
    dates.sort();
    assert_eq!(dates, vec![4, 6, 10, 11]);
}

#[test]
fn calendar_added_date_is_listed_once() {
    let c = mon_wed_two_weeks(vec![6, 30, 30], vec![]);
    assert_eq!(c.effective_dates(), vec![4, 6, 11, 13, 30]);
}

#[test]
fn calendar_without_dates_is_refused() {
    let c = mon_wed_two_weeks(vec![], vec![4, 6, 11, 13]);
    assert!(c.effective_dates().is_empty());
    assert_eq!(c.checked_dates().err().unwrap().calendar_id, "cal");
    assert!(mon_wed_two_weeks(vec![], vec![]).checked_dates().is_ok());
}

#[test]
fn calendar_pattern_matching() {
    let c = mon_wed_two_weeks(vec![], vec![]);
    assert!(c.matches_pattern(4));
    assert!(!c.matches_pattern(5));
    assert!(!c.matches_pattern(18));
    assert!(!c.matches_pattern(u32::MAX));
}
