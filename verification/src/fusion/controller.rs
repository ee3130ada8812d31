//! The wiring of a run: how many workers each pool gets and in which order
//! the conversions are handed out. The controller does no work itself.

use crate::config::convert::{task_views, ConvertTask};
use crate::converter::controller::{dispatch_order, is_dispatch_order};
use crate::pool::pool_size;
use vstd::prelude::*;

verus! {

/// How the convert stage is set up.
#[derive(Debug)]
pub struct ConvertPlan {
    /// The number of workers of the pool.
    pub workers: usize,
    /// The tasks in the order in which they are handed out.
    pub tasks: Vec<ConvertTask>,
}

/// How the combine stage is set up. A pool without tasks is not started.
#[derive(Debug, Clone, Copy, PartialEq, Eq, Structural)]
pub struct CombinePlan {
    /// The number of workers of the pool of PDF deliverables.
    pub pdf_workers: Option<usize>,
    /// The number of workers of the pool of RTF deliverables.
    pub rtf_workers: Option<usize>,
}

/// The workers of a pool with `tasks` tasks where a pool may have up to
/// `limit`: one per task within the limit, and no pool without tasks.
pub open spec fn workers_for(tasks: nat, limit: nat) -> Option<usize> {
    if tasks == 0 {
        None
    } else if tasks > limit {
        Some(limit as usize)
    } else {
        Some(tasks as usize)
    }
}

/// The wiring of a run.
#[derive(Debug, Clone, Copy)]
pub struct FusionController {
    workers: usize,
}

impl FusionController {
    /// The most workers that a pool may have.
    pub closed spec fn limit(&self) -> nat {
        self.workers as nat
    }

    /// A controller whose pools have up to `workers` workers each.
    pub fn new(workers: usize) -> (r: Self)
        ensures
            r.limit() == workers,
    {
        FusionController { workers }
    }

    /// Sets up the convert stage: one worker per task within the limit, and
    /// the tasks by ascending size of their source.
    pub fn convert(&self, tasks: &Vec<ConvertTask>) -> (r: ConvertPlan)
        ensures
            r.workers == (if tasks@.len() > self.limit() {
                self.limit()
            } else {
                tasks@.len()
            }),
            is_dispatch_order(task_views(tasks@), task_views(r.tasks@)),
    {
        ConvertPlan {
            workers: pool_size(tasks.len(), self.workers),
            tasks: dispatch_order(tasks),
        }
    }

    /// Sets up the combine stage for `pdf_tasks` PDF deliverables and
    /// `rtf_tasks` RTF deliverables.
    pub fn combine(&self, pdf_tasks: usize, rtf_tasks: usize) -> (r: CombinePlan)
        ensures
            r.pdf_workers == workers_for(pdf_tasks as nat, self.limit()),
            r.rtf_workers == workers_for(rtf_tasks as nat, self.limit()),
    {
        CombinePlan {
            pdf_workers: if pdf_tasks > 0 {
                Some(pool_size(pdf_tasks, self.workers))
            } else {
                None
            },
            rtf_workers: if rtf_tasks > 0 {
                Some(pool_size(rtf_tasks, self.workers))
            } else {
                None
            },
        }
    }
}

} // verus!
