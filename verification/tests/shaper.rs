use iced_logic::shaper::{JobAction, Worker};

#[test]
fn the_first_job_clones_the_fonts() {
    let mut worker = Worker::new();
    assert_eq!(JobAction::Shape { refresh_fonts: true }, worker.on_job(3, 3));
    assert_eq!(JobAction::Shape { refresh_fonts: false }, worker.on_job(3, 3));
}

#[test]
fn stale_jobs_are_dropped() {
    let mut worker = Worker::new();
    assert_eq!(JobAction::Drop, worker.on_job(2, 3));
    assert_eq!(JobAction::Shape { refresh_fonts: true }, worker.on_job(3, 3));
    assert_eq!(JobAction::Shape { refresh_fonts: true }, worker.on_job(4, 4), "a new epoch reclones");
}

#[test]
fn a_burst_notifies_only_when_something_was_kept() {
    let mut worker = Worker::new();
    assert!(!worker.on_burst_end());
    assert!(!worker.on_shaped(1, 2), "work from a mid-shape font load is discarded");
    assert!(!worker.on_burst_end());
    assert!(worker.on_shaped(2, 2));
    assert!(!worker.on_shaped(2, 3));
    assert!(worker.on_burst_end());
    assert!(!worker.on_burst_end(), "each burst notifies at most once");
}

#[test]
fn one_notification_covers_a_whole_burst() {
    let mut worker = Worker::new();
    // Three current jobs, one stale: a single notification at the end.
    for job_epoch in [5, 5, 4, 5] {
        if let JobAction::Shape { .. } = worker.on_job(job_epoch, 5) {
            let _ = worker.on_shaped(5, 5);
        }
    }
    assert!(worker.on_burst_end());
    // A burst whose jobs are all stale or discarded notifies nobody.
    assert_eq!(JobAction::Drop, worker.on_job(4, 5));
    assert!(matches!(worker.on_job(5, 5), JobAction::Shape { .. }));
    assert!(!worker.on_shaped(5, 6));
    assert!(!worker.on_burst_end());
}
