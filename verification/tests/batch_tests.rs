use reel_forge::batch::{
    auto_chunk_size, auto_should_back_off, auto_worker_limit, clamp_workers, extension_matches,
    file_folder, finish_report, ledger_line, millisecond_stamp, parse_worker_mode, AutoTuner, BatchTally,
    ResourceSnapshot, TunerOutcome, WorkerMode,
};
use reel_forge::natural::{natural_order, natural_path_cmp, natural_str_cmp};
use std::cmp::Ordering;

fn calm() -> ResourceSnapshot {
    ResourceSnapshot { peak_cpu_hundredths: 5000, peak_memory_hundredths: 4000, peak_process_memory_mb: 100 }
}

#[test]
fn worker_modes() {
    assert_eq!(parse_worker_mode(" AUTO "), WorkerMode::Auto);
    assert_eq!(parse_worker_mode("6"), WorkerMode::Fixed(6));
    assert_eq!(parse_worker_mode("+3"), WorkerMode::Fixed(3));
    assert_eq!(parse_worker_mode("0"), WorkerMode::Fixed(1));
    assert_eq!(parse_worker_mode("many"), WorkerMode::Fixed(4));
    assert_eq!(parse_worker_mode("-2"), WorkerMode::Fixed(4));
    assert_eq!(parse_worker_mode("99999999999999999999999"), WorkerMode::Fixed(4));
}

#[test]
fn worker_limits() {
    assert_eq!(auto_worker_limit(8, 3), 3);
    assert_eq!(auto_worker_limit(1, 10), 2);
    assert_eq!(auto_worker_limit(16, 0), 1);
    assert_eq!(clamp_workers(0, 5), 1);
    assert_eq!(clamp_workers(9, 5), 5);
}

#[test]
fn chunk_sizes() {
    assert_eq!(auto_chunk_size(3, 100, true), 6);
    assert_eq!(auto_chunk_size(3, 100, false), 12);
    assert_eq!(auto_chunk_size(0, 100, true), 2);
    assert_eq!(auto_chunk_size(5, 7, false), 7);
    assert_eq!(auto_chunk_size(5, 0, false), 1);
}

#[test]
fn back_off_thresholds() {
    assert!(!auto_should_back_off(calm()));
    assert!(auto_should_back_off(ResourceSnapshot { peak_cpu_hundredths: 9200, ..calm() }));
    assert!(auto_should_back_off(ResourceSnapshot { peak_memory_hundredths: 8800, ..calm() }));
    assert!(!auto_should_back_off(ResourceSnapshot { peak_cpu_hundredths: 9199, peak_memory_hundredths: 8799, ..calm() }));
}

#[test]
fn tuner_ramps_then_settles() {
    let mut t = AutoTuner::new(40, 8, None);
    let p = t.next_pass().unwrap();
    assert_eq!((p.start, p.chunk_size, p.workers, p.tuning), (0, 4, 2, true));
    assert!(t.finish_pass(4000, calm()) == TunerOutcome::Increased(4));
    let p = t.next_pass().unwrap();
    assert_eq!((p.start, p.chunk_size, p.workers), (4, 8, 4));
    assert!(t.finish_pass(4000, calm()) == TunerOutcome::Increased(6));
    let p = t.next_pass().unwrap();
    assert_eq!((p.start, p.chunk_size, p.workers), (12, 12, 6));
    assert!(t.finish_pass(6100, calm()) == TunerOutcome::SettledOnPlateau(4));
    let p = t.next_pass().unwrap();
    assert_eq!((p.start, p.chunk_size, p.workers, p.tuning), (24, 16, 4, false));
    assert!(t.finish_pass(1, calm()) == TunerOutcome::Unchanged);
    assert!(t.next_pass().is_none());
}

#[test]
fn tuner_settles_under_pressure_or_at_the_end() {
    let mut t = AutoTuner::new(10, 8, None);
    let hot = ResourceSnapshot { peak_cpu_hundredths: 9500, ..calm() };
    assert!(t.finish_pass(1000, hot) == TunerOutcome::SettledUnderPressure(2));
    assert_eq!(t.chosen_workers, Some(2));
    let mut t = AutoTuner::new(3, 8, None);
    assert!(t.finish_pass(1000, calm()) == TunerOutcome::SettledAfterRamp(2));
    assert!(t.next_pass().is_none());
}

#[test]
fn tuner_reuses_a_settled_count() {
    let t = AutoTuner::new(20, 3, Some(7));
    assert_eq!(t.chosen_workers, Some(3));
    let p = t.next_pass().unwrap();
    assert_eq!((p.workers, p.chunk_size, p.tuning), (3, 12, false));
}

#[test]
fn stamps_keep_last_eight_digits() {
    assert_eq!(millisecond_stamp(1718000123456), "00123456");
    assert_eq!(millisecond_stamp(42), "42");
}

#[test]
fn ledger_lines() {
    assert_eq!(ledger_line(Some("week1"), Some("May")), "week1:May");
    assert_eq!(ledger_line(None, None), "scripts:root");
}

#[test]
fn extensions() {
    let wanted = vec!["mp4".to_string(), "mov".to_string()];
    assert!(extension_matches("MP4", &wanted));
    assert!(!extension_matches("mkv", &wanted));
}

#[test]
fn natural_names() {
    assert_eq!(natural_str_cmp("week2", "week10"), Ordering::Less);
    assert_eq!(natural_str_cmp("Week10", "week2"), Ordering::Greater);
    assert_eq!(natural_str_cmp("File", "file"), Ordering::Equal);
    assert_eq!(natural_str_cmp("a", "a1"), Ordering::Less);
    assert_eq!(natural_str_cmp("b", "a"), Ordering::Greater);
    assert_eq!(natural_str_cmp("", ""), Ordering::Equal);
}

#[test]
fn natural_order_is_antisymmetric() {
    let names = ["x9", "x10", "X10", "a", "b1c", "b01c", "z"];
    for a in names {
        for b in names {
            assert_eq!(natural_str_cmp(a, b), natural_str_cmp(b, a).reverse());
        }
        assert_eq!(natural_str_cmp(a, a), Ordering::Equal);
    }
}

#[test]
fn natural_paths() {
    let p = |v: &[&str]| v.iter().map(|s| s.to_string()).collect::<Vec<String>>();
    assert_eq!(natural_path_cmp(&p(&["in", "w2", "a.txt"]), &p(&["in", "w10", "a.txt"])), Ordering::Less);
    assert_eq!(natural_path_cmp(&p(&["in"]), &p(&["in", "x"])), Ordering::Less);
    assert_eq!(natural_path_cmp(&p(&["in", "b"]), &p(&["in", "B"])), Ordering::Equal);
}

fn parts(p: &str) -> Vec<String> {
    p.split('/').map(|c| c.to_string()).collect()
}

#[test]
fn script_files_sort_naturally() {
    let paths = vec![
        parts("in/week10/b.txt"),
        parts("in/week2/b.txt"),
        parts("in/week2/A.txt"),
        parts("in/Week2/a.txt"),
        parts("in/week2/day1.txt"),
    ];
    let order = natural_order(&paths);
    assert_eq!(order, vec![2, 3, 1, 4, 0]);
    assert_eq!(natural_order(&Vec::new()), Vec::<usize>::new());
}

#[test]
fn natural_order_is_stable_for_ties() {
    let paths = vec![parts("x/File"), parts("x/file"), parts("x/FILE")];
    assert_eq!(natural_order(&paths), vec![0, 1, 2]);
}

#[test]
fn batch_tally_counts_and_ledger() {
    let mut tally = BatchTally::new();
    assert!(tally.record_file(3, 3));
    assert!(!tally.record_file(1, 2));
    assert!(!tally.record_file(0, 0));
    assert_eq!(tally.succeeded, 4);
    assert_eq!(tally.total, 5);
}

#[test]
fn batch_file_folders() {
    assert_eq!(file_folder(true, Some("Week 3 Scripts")), Some("week-3-scripts".to_string()));
    assert_eq!(file_folder(true, None), Some("scripts".to_string()));
    assert_eq!(file_folder(true, Some("!!")), Some("reel".to_string()));
    assert_eq!(file_folder(false, Some("Week 3")), None);
}

#[test]
fn unlocked_tuner_settles_within_limit() {
    for total in [1usize, 2, 5, 17, 40] {
        for max in [1usize, 2, 3, 8] {
            let mut t = AutoTuner::new(total, max, None);
            while t.next_pass().is_some() {
                t.finish_pass(1000, calm());
            }
            let b = t.chosen_workers.expect("settled");
            assert!(1 <= b && b <= max);
            assert_eq!(t.next_index, total);
        }
    }
}

#[test]
fn finished_run_reports() {
    assert_eq!(finish_report(false), ("Done \u{2705}".to_string(), "\u{1f389} Process finished!".to_string()));
    assert_eq!(finish_report(true), ("Stopped".to_string(), "\u{23f9} Render stopped.".to_string()));
}

#[test]
fn locked_tuner_keeps_its_count() {
    let mut t = AutoTuner::new(23, 3, Some(7));
    assert_eq!(t.chosen_workers, Some(3));
    while let Some(p) = t.next_pass() {
        let remaining = 23 - p.start;
        assert_eq!(p.workers, 3.min(remaining).max(1));
        assert_eq!(p.chunk_size, auto_chunk_size(p.workers, remaining, false));
        assert!(!p.tuning);
        assert!(t.finish_pass(50, calm()) == TunerOutcome::Unchanged);
        assert_eq!(t.chosen_workers, Some(3));
    }
    assert_eq!(t.next_index, 23);
}
