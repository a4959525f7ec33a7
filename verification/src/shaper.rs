//! The decisions of the off-thread shaping worker: which queued jobs to
//! shape, when to refresh its private font system, which results to keep
//! and when to notify the application.
use vstd::prelude::*;

verus! {

/// What the worker does with a queued job.
#[derive(Debug, Clone, Copy, PartialEq, Eq, Structural)]
pub enum JobAction {
    /// The job was queued in a font epoch that has since been flushed:
    /// it is dropped, not shaped stale.
    Drop,
    /// The job is shaped; first the private font system is cloned afresh
    /// from the global one when `refresh_fonts` is set.
    Shape {
        /// Whether the private font system belongs to another epoch.
        refresh_fonts: bool,
    },
}

/// The decision `on_job` makes for a worker whose font system belongs to
/// `fonts_epoch`.
pub open spec fn job_action(fonts_epoch: Option<u64>, job_epoch: u64, epoch: u64) -> JobAction {
    if job_epoch != epoch {
        JobAction::Drop
    } else {
        JobAction::Shape { refresh_fonts: fonts_epoch != Some(epoch) }
    }
}

/// The state of the shaping worker.
pub struct Worker {
    fonts_epoch: Option<u64>,
    shaped: bool,
}

impl Worker {
    /// The font epoch of the worker's private font system, if it has one.
    pub closed spec fn fonts_epoch(&self) -> Option<u64> {
        self.fonts_epoch
    }

    /// Whether a paragraph was cached since the current burst began.
    pub closed spec fn shaped(&self) -> bool {
        self.shaped
    }

    /// A worker without a private font system, at the start of a burst.
    pub fn new() -> (worker: Worker)
        ensures
            worker.fonts_epoch() is None,
            !worker.shaped(),
    {
        Worker { fonts_epoch: None, shaped: false }
    }

    /// Decides on a job queued in font epoch `job_epoch` when the current
    /// font epoch is `epoch`.
    pub fn on_job(&mut self, job_epoch: u64, epoch: u64) -> (action: JobAction)
        ensures
            action == job_action(old(self).fonts_epoch(), job_epoch, epoch),
            job_epoch != epoch ==> final(self).fonts_epoch() == old(self).fonts_epoch(),
            job_epoch == epoch ==> final(self).fonts_epoch() == Some(epoch),
            final(self).shaped() == old(self).shaped(),
    {
        if job_epoch != epoch {
            return JobAction::Drop;
        }
        let refresh_fonts = match self.fonts_epoch {
            Some(fonts_epoch) => fonts_epoch != epoch,
            None => true,
        };
        self.fonts_epoch = Some(epoch);
        JobAction::Shape { refresh_fonts }
    }

    /// Decides on a paragraph shaped in font epoch `epoch` when the current
    /// font epoch is `epoch_now`: work from a mid-shape font load is
    /// discarded (the flush already cleared its pending key, so it will
    /// re-queue), anything else is cached.
    pub fn on_shaped(&mut self, epoch: u64, epoch_now: u64) -> (keep: bool)
        ensures
            keep == (epoch == epoch_now),
            final(self).shaped() == (old(self).shaped() || keep),
            final(self).fonts_epoch() == old(self).fonts_epoch(),
    {
        let keep = epoch == epoch_now;
        if keep {
            self.shaped = true;
        }
        keep
    }

    /// Ends a burst of jobs: one notification covers all of it, and only
    /// when something was cached.
    pub fn on_burst_end(&mut self) -> (notify: bool)
        ensures
            notify == old(self).shaped(),
            !final(self).shaped(),
            final(self).fonts_epoch() == old(self).fonts_epoch(),
    {
        let notify = self.shaped;
        self.shaped = false;
        notify
    }
}

/// Whether a job queued in font epoch `job_epoch`, taken up when the font
/// epoch is `epoch` and finished when it is `epoch_now`, ends in the
/// cache: `on_job` has it shaped and `on_shaped` keeps the result.
pub open spec fn job_cached(job_epoch: u64, epoch: u64, epoch_now: u64) -> bool {
    job_action(None, job_epoch, epoch) is Shape && epoch == epoch_now
}

/// Whether the worker has cached something once it has run the burst
/// `jobs`, each given as `(job_epoch, epoch, epoch_now)`, having started
/// from `shaped`: `on_job` leaves the flag as it is and `on_shaped` raises
/// it exactly when it keeps a result.
pub open spec fn shaped_after(shaped: bool, jobs: Seq<(u64, u64, u64)>) -> bool
    decreases jobs.len(),
{
    if jobs.len() == 0 {
        shaped
    } else {
        let job = jobs.last();
        shaped_after(shaped, jobs.drop_last()) || job_cached(job.0, job.1, job.2)
    }
}

/// One notification per burst: a burst that starts afresh (as every burst
/// after `on_burst_end` does) ends with the notification due exactly when
/// at least one of its jobs was cached, and with none when every job was
/// dropped or discarded as stale.
pub proof fn law_one_notification_per_burst(jobs: Seq<(u64, u64, u64)>)
    ensures
        shaped_after(false, jobs) <==> exists|i: int|
            0 <= i < jobs.len() && #[trigger] job_cached(jobs[i].0, jobs[i].1, jobs[i].2),
    decreases jobs.len(),
{
    if jobs.len() > 0 {
        let rest = jobs.drop_last();
        law_one_notification_per_burst(rest);
        let last = jobs.len() - 1;
        if shaped_after(false, jobs) {
            if shaped_after(false, rest) {
                let i = choose|i: int| 0 <= i < rest.len() && #[trigger] job_cached(rest[i].0, rest[i].1, rest[i].2);
                assert(jobs[i] == rest[i]);
            } else {
                assert(job_cached(jobs[last].0, jobs[last].1, jobs[last].2));
            }
        }
        if exists|i: int| 0 <= i < jobs.len() && #[trigger] job_cached(jobs[i].0, jobs[i].1, jobs[i].2) {
            let i = choose|i: int| 0 <= i < jobs.len() && #[trigger] job_cached(jobs[i].0, jobs[i].1, jobs[i].2);
            if i < last {
                assert(rest[i] == jobs[i]);
            }
        }
    }
}

/// A job from a flushed epoch is never shaped, and a job of the current
/// epoch reuses the private font system of that epoch.
pub proof fn law_stale_jobs_are_never_shaped(fonts_epoch: Option<u64>, job_epoch: u64, epoch: u64)
    ensures
        job_epoch != epoch ==> !(job_action(fonts_epoch, job_epoch, epoch) is Shape),
        job_epoch == epoch && fonts_epoch == Some(epoch) ==> job_action(fonts_epoch, job_epoch, epoch)
            == (JobAction::Shape { refresh_fonts: false }),
{
}

} // verus!
