use path_tracer::plan::{Action, ScheduleError};
use path_tracer::scheduler::Scheduler;

fn drain(s: &mut Scheduler<String>, out: &mut Vec<String>) {
    while let Some(text) = s.ready() {
        out.push(text.clone());
        assert!(s.advance());
    }
}

#[test]
fn refuses_empty_image_and_empty_pool() {
    assert_eq!(Scheduler::<String>::new(0, 4).err(), Some(ScheduleError::NoRows));
    assert_eq!(Scheduler::<String>::new(3, 0).err(), Some(ScheduleError::NoWorkers));
    assert_eq!(Scheduler::<String>::new(0, 0).err(), Some(ScheduleError::NoRows));
    assert!(Scheduler::<String>::new(1, 1).is_ok());
}

#[test]
fn fresh_scheduler_reports_its_dimensions() {
    let s = Scheduler::<u8>::new(5, 2).unwrap();
    assert_eq!(s.height(), 5);
    assert_eq!(s.workers(), 2);
    assert_eq!(s.issued(), 0);
    assert_eq!(s.emitted(), 0);
    assert_eq!(s.in_flight(), 0);
    assert_eq!(s.failed_row(), None);
    assert!(!s.is_finished());
    assert_eq!(s.action(), Action::Start);
}

#[test]
fn rows_are_handed_out_top_to_bottom() {
    let mut s = Scheduler::<u8>::new(3, 3).unwrap();
    assert_eq!(s.start(), Some(0));
    assert_eq!(s.start(), Some(1));
    assert_eq!(s.start(), Some(2));
    assert_eq!(s.start(), None);
    assert_eq!(s.issued(), 3);
}

#[test]
fn never_more_rows_in_flight_than_workers() {
    let mut s = Scheduler::<u8>::new(10, 3).unwrap();
    assert_eq!(s.start(), Some(0));
    assert_eq!(s.start(), Some(1));
    assert_eq!(s.start(), Some(2));
    assert_eq!(s.in_flight(), 3);
    assert_eq!(s.action(), Action::Wait);
    assert_eq!(s.start(), None);
    assert_eq!(s.in_flight(), 3);
    assert!(s.complete(1, 11));
    assert_eq!(s.in_flight(), 2);
    assert_eq!(s.action(), Action::Start);
    assert_eq!(s.start(), Some(3));
    assert_eq!(s.start(), None);
    assert_eq!(s.in_flight(), 3);
}

#[test]
fn a_row_waits_for_the_rows_above_it() {
    let mut s = Scheduler::<String>::new(3, 3).unwrap();
    s.start();
    s.start();
    s.start();
    assert!(s.complete(2, "c".to_string()));
    assert!(s.ready().is_none());
    assert!(!s.advance());
    assert_eq!(s.emitted(), 0);
    assert!(s.complete(1, "b".to_string()));
    assert!(s.ready().is_none());
    assert_eq!(s.action(), Action::Wait);
    assert!(s.complete(0, "a".to_string()));
    assert_eq!(s.action(), Action::Emit);
    let mut out = Vec::new();
    drain(&mut s, &mut out);
    assert_eq!(out, vec!["a".to_string(), "b".to_string(), "c".to_string()]);
    assert!(s.is_finished());
    assert_eq!(s.action(), Action::Finished);
}

fn render_in_order(order: &[usize], workers: usize) -> Vec<String> {
    let height = order.len();
    let mut s = Scheduler::<String>::new(height, workers).unwrap();
    let mut out = Vec::new();
    let mut reported = 0;
    loop {
        match s.action() {
            Action::Start => {
                assert!(s.start().is_some());
            }
            Action::Emit => drain(&mut s, &mut out),
            Action::Wait => {
                // Report the running row that comes first in `order`.
                let mut done = false;
                for k in 0..height {
                    let row = order[(reported + k) % height];
                    if s.is_running(row) {
                        assert!(s.complete(row, format!("row {}", row)));
                        done = true;
                        break;
                    }
                }
                assert!(done);
                reported += 1;
            }
            Action::Finished => return out,
            Action::Abort(row) => panic!("row {} failed", row),
        }
        assert!(s.in_flight() <= workers);
    }
}

#[test]
fn output_does_not_depend_on_completion_order() {
    let expected: Vec<String> = (0..6).map(|r| format!("row {}", r)).collect();
    assert_eq!(render_in_order(&[0, 1, 2, 3, 4, 5], 1), expected);
    assert_eq!(render_in_order(&[0, 1, 2, 3, 4, 5], 3), expected);
    assert_eq!(render_in_order(&[5, 4, 3, 2, 1, 0], 3), expected);
    assert_eq!(render_in_order(&[2, 0, 5, 1, 4, 3], 4), expected);
    assert_eq!(render_in_order(&[3, 5, 1, 0, 2, 4], 6), expected);
    assert_eq!(render_in_order(&[3, 5, 1, 0, 2, 4], 100), expected);
}

#[test]
fn reports_for_rows_that_are_not_running_are_refused() {
    let mut s = Scheduler::<u8>::new(2, 1).unwrap();
    assert!(!s.complete(0, 1));
    assert!(!s.fail(0));
    assert!(!s.complete(7, 1));
    assert_eq!(s.start(), Some(0));
    assert!(s.is_running(0));
    assert!(!s.is_running(1));
    assert!(s.complete(0, 5));
    assert!(!s.complete(0, 6));
    assert_eq!(s.ready(), Some(&5));
    assert!(!s.fail(0));
    assert_eq!(s.failed_row(), None);
}

#[test]
fn a_failed_row_fails_the_render() {
    let mut s = Scheduler::<u8>::new(4, 2).unwrap();
    assert_eq!(s.start(), Some(0));
    assert_eq!(s.start(), Some(1));
    assert!(s.fail(1));
    assert_eq!(s.failed_row(), Some(1));
    assert_eq!(s.action(), Action::Abort(1));
    assert_eq!(s.start(), None);
    assert!(s.complete(0, 9));
    assert_eq!(s.action(), Action::Abort(1));
    assert_eq!(s.ready(), Some(&9));
    assert!(s.advance());
    assert!(s.ready().is_none());
    assert!(!s.advance());
    assert!(!s.is_finished());
    assert_eq!(s.action(), Action::Abort(1));
}

#[test]
fn the_first_failure_is_remembered() {
    let mut s = Scheduler::<u8>::new(4, 3).unwrap();
    s.start();
    s.start();
    s.start();
    assert!(s.fail(2));
    assert!(s.fail(0));
    assert_eq!(s.failed_row(), Some(2));
    assert_eq!(s.in_flight(), 1);
}

#[test]
fn single_row_single_worker() {
    let mut s = Scheduler::<u8>::new(1, 1).unwrap();
    assert_eq!(s.action(), Action::Start);
    assert_eq!(s.start(), Some(0));
    assert_eq!(s.action(), Action::Wait);
    assert!(s.complete(0, 42));
    assert_eq!(s.action(), Action::Emit);
    assert_eq!(s.ready(), Some(&42));
    assert!(s.advance());
    assert_eq!(s.action(), Action::Finished);
    assert!(s.is_finished());
}
