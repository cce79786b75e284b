use vj_copilot::analysis_schedule::AnalysisSchedule;

fn run(samples: usize, audible: bool) -> (usize, usize, Vec<bool>) {
    let mut schedule = AnalysisSchedule::new(200, 25);
    let mut meters = 0;
    let mut readings = 0;
    let mut searches = Vec::new();
    for _ in 0..samples {
        let events = schedule.advance();
        if events.interval_complete {
            schedule.record_reading(audible);
        }
        if events.meter_complete {
            let tick = schedule.take_meter_tick();
            meters += 1;
            if tick.reading {
                readings += 1;
                searches.push(tick.search);
            }
        }
    }
    (meters, readings, searches)
}

#[test]
fn meters_every_interval_and_reads_every_analysis_interval() {
    let (meters, readings, _) = run(1_000, true);
    assert_eq!(meters, 40);
    assert_eq!(readings, 5);
}

#[test]
fn search_features_wait_for_five_audible_readings() {
    let (_, _, searches) = run(1_000, true);
    assert_eq!(searches, vec![false, false, false, false, true]);
}

#[test]
fn silence_keeps_search_features_back() {
    let (_, _, searches) = run(1_000, false);
    assert!(searches.iter().all(|ready| !ready));
}

#[test]
fn one_silent_reading_blocks_the_next_five() {
    let mut schedule = AnalysisSchedule::new(1, 1);
    let pattern = [true, true, true, true, true, false, true, true, true, true, true];
    let mut searches = Vec::new();
    for audible in pattern {
        let events = schedule.advance();
        assert!(events.interval_complete && events.meter_complete);
        schedule.record_reading(audible);
        searches.push(schedule.take_meter_tick().search);
    }
    assert_eq!(
        searches,
        vec![false, false, false, false, true, false, false, false, false, false, true]
    );
}

#[test]
fn meter_reports_carry_a_reading_when_an_interval_completed_since_the_last_one() {
    // Analysis intervals of 3 samples, meter intervals of 2; readings alternate audible.
    let (n, m) = (3_usize, 2_usize);
    let mut schedule = AnalysisSchedule::new(n, m);
    let mut readings = 0_usize;
    let mut recent: Vec<bool> = Vec::new();
    for k in 1..=30_usize {
        let events = schedule.advance();
        assert_eq!(events.interval_complete, k % n == 0);
        assert_eq!(events.meter_complete, k % m == 0);
        if events.interval_complete {
            let audible = readings % 7 != 3;
            readings += 1;
            recent.push(audible);
            schedule.record_reading(audible);
        }
        if events.meter_complete {
            let tick = schedule.take_meter_tick();
            let expected_reading = (k + 1 - m..=k).any(|j| j % n == 0);
            assert_eq!(tick.reading, expected_reading);
            assert_eq!(tick.reading, k % n < m);
            let last_five_audible =
                recent.len() >= 5 && recent[recent.len() - 5..].iter().all(|audible| *audible);
            assert_eq!(tick.search, tick.reading && last_five_audible);
        }
    }
}
