//! The bookkeeping of the pool of workers that resolve faults: how many
//! workers are parked, how many were asked for, and whether the pool still
//! runs.
//!
//! A worker waits in three steps under the lock of the pool: it parks, it
//! sleeps while it must wait, and it takes a request or learns that the pool
//! was shut down.

use vstd::prelude::*;

verus! {

/// What a worker learns when it wakes up.
#[derive(Debug, Clone, Copy, PartialEq, Eq, Structural)]
pub enum ShouldRun {
    Running,
    Shutdown,
}

/// The counters of the pool.
#[derive(Debug, Clone, Copy, PartialEq, Eq, Structural)]
pub struct PoolState {
    /// The workers that are parked.
    pub workers_waiting: u32,
    /// The requests for a worker that no worker has taken yet.
    pub workers_requested: u32,
    /// Whether the pool was not shut down.
    pub should_run: bool,
}

/// A pool of workers.
#[derive(Debug)]
pub struct PopulateWorkers {
    /// The name of the threads of the pool.
    pub name: String,
    pub state: PoolState,
}

impl PoolState {
    /// A parked worker sleeps on: nobody asked for a worker, and the pool
    /// runs.
    pub open spec fn spec_must_wait(&self) -> bool {
        self.workers_requested == 0 && self.should_run
    }
}

impl PopulateWorkers {
    /// A pool that runs, with one request for a worker and no worker
    /// parked.
    pub fn new(name: &str) -> (r: PopulateWorkers)
        ensures
            r.name@ == name@,
            r.state == (PoolState { workers_waiting: 0, workers_requested: 1, should_run: true }),
    {
        PopulateWorkers {
            name: name.to_owned(),
            state: PoolState { workers_waiting: 0, workers_requested: 1, should_run: true },
        }
    }

    /// Shuts the pool down: every parked worker is to be woken, and learns
    /// of it.
    pub fn shutdown(&mut self)
        ensures
            final(self).state == (PoolState { should_run: false, ..old(self).state }),
            final(self).name == old(self).name,
            !final(self).state.spec_must_wait(),
    {
        self.state.should_run = false;
    }

    /// Asks for one more worker: one parked worker is to be woken.
    pub fn request_worker(&mut self)
        requires
            old(self).state.workers_requested < u32::MAX,
        ensures
            final(self).state == (PoolState {
                workers_requested: (old(self).state.workers_requested + 1) as u32,
                ..old(self).state
            }),
            final(self).name == old(self).name,
            !final(self).state.spec_must_wait(),
    {
        self.state.workers_requested += 1;
    }

    /// A worker parks.
    pub fn park(&mut self)
        requires
            old(self).state.workers_waiting < u32::MAX,
        ensures
            final(self).state == (PoolState {
                workers_waiting: (old(self).state.workers_waiting + 1) as u32,
                ..old(self).state
            }),
            final(self).name == old(self).name,
    {
        self.state.workers_waiting += 1;
    }

    /// Whether a parked worker sleeps on.
    pub fn must_wait(&self) -> (r: bool)
        ensures
            r == self.state.spec_must_wait(),
    {
        self.state.workers_requested == 0 && self.state.should_run
    }

    /// A parked worker wakes up for good. In a pool that was shut down it
    /// learns of that. Else it takes one request, and where no other worker
    /// is parked now, a new worker is to be spawned in its place: the flag
    /// says so.
    pub fn await_work(&mut self) -> (r: (ShouldRun, bool))
        requires
            old(self).state.workers_waiting > 0,
            !old(self).state.spec_must_wait(),
        ensures
            final(self).name == old(self).name,
            !old(self).state.should_run ==> r == (ShouldRun::Shutdown, false) && final(self).state
                == (PoolState {
                workers_waiting: (old(self).state.workers_waiting - 1) as u32,
                ..old(self).state
            }),
            old(self).state.should_run ==> r == (
                ShouldRun::Running,
                old(self).state.workers_waiting == 1,
            ) && final(self).state == (PoolState {
                workers_waiting: (old(self).state.workers_waiting - 1) as u32,
                workers_requested: (old(self).state.workers_requested - 1) as u32,
                should_run: true,
            }),
    {
        self.state.workers_waiting -= 1;
        if !self.state.should_run {
            return (ShouldRun::Shutdown, false);
        }
        self.state.workers_requested -= 1;
        let spawn = self.state.workers_waiting < 1;
        (ShouldRun::Running, spawn)
    }
}

} // verus!
