//! Asking the chain index: when it can be asked, and how many questions at a time.

use vstd::prelude::*;

use crate::keys::text_in;
use crate::names::str_equal;
use crate::text::{between, join};

verus! {

/// A second, in nanoseconds.
pub const SECOND: u128 = 1_000_000_000;

/// How the chain index is doing.
#[derive(Debug)]
pub enum KupoStatus {
    Healthy,
    /// It is not up to date yet.
    Syncing,
    /// It has lost its node.
    Disconnected,
    Error(String),
}

pub enum KupoStatusView {
    Healthy,
    Syncing,
    Disconnected,
    Error(Seq<char>),
}

impl View for KupoStatus {
    type V = KupoStatusView;

    open spec fn view(&self) -> KupoStatusView {
        match self {
            KupoStatus::Healthy => KupoStatusView::Healthy,
            KupoStatus::Syncing => KupoStatusView::Syncing,
            KupoStatus::Disconnected => KupoStatusView::Disconnected,
            KupoStatus::Error(reason) => KupoStatusView::Error(reason@),
        }
    }
}

/// Waits until the chain index is up to date.
pub struct SyncWait {
    last_status: Option<KupoStatus>,
}

/// What to do about a status.
#[derive(Debug)]
pub enum SyncStep {
    Ready,
    /// Ask again later. What is said of it is a warning the first time.
    Wait { delay: u128, message: String, is_new: bool },
}

/// How long to wait before asking again.
pub open spec fn delay_of(status: KupoStatusView) -> u128 {
    match status {
        KupoStatusView::Healthy => 0,
        KupoStatusView::Syncing => 1_000_000_000,
        KupoStatusView::Disconnected => 5_000_000_000,
        KupoStatusView::Error(_) => 10_000_000_000,
    }
}

/// How far a chain index has come.
pub open spec fn sync_text(progress: Option<Seq<char>>) -> Seq<char> {
    match progress {
        Some(progress) => "syncing ("@ + progress + ")"@,
        None => "syncing"@,
    }
}

/// What is said of a status.
pub open spec fn status_text(status: KupoStatusView, progress: Option<Seq<char>>, is_new: bool) -> Seq<char> {
    match status {
        KupoStatusView::Healthy => seq![],
        KupoStatusView::Syncing => if is_new {
            "Kupo server is "@ + sync_text(progress)
                + ". This source will be ignored until it is fully synced."@
        } else {
            "Kupo server is still "@ + sync_text(progress) + "."@
        },
        KupoStatusView::Disconnected => if is_new {
            "Kupo server is disconnected from the underlying node. Please check that it is configured correctly. This source will be ignored until kupo is connected and fully synced."@
        } else {
            "Kupo server is still disconnected from the underlying node."@
        },
        KupoStatusView::Error(reason) => if is_new {
            "Kupo server is unreachable or otherwise unhealthy: "@ + reason
                + ". Please ensure the server is running and configured correctly. This source will be ignored until it is."@
        } else {
            "Kupo server is still unhealthy: "@ + reason
        },
    }
}

/// Whether two statuses are the same.
fn same_status(a: &KupoStatus, b: &KupoStatus) -> (r: bool)
    ensures
        r == (a@ == b@),
{
    match (a, b) {
        (KupoStatus::Healthy, KupoStatus::Healthy) => true,
        (KupoStatus::Syncing, KupoStatus::Syncing) => true,
        (KupoStatus::Disconnected, KupoStatus::Disconnected) => true,
        (KupoStatus::Error(a), KupoStatus::Error(b)) => str_equal(a.as_str(), b.as_str()),
        _ => false,
    }
}

impl SyncWait {
    /// The status that was seen last.
    pub closed spec fn last(&self) -> Option<KupoStatusView> {
        match self.last_status {
            Some(status) => Some(status@),
            None => None,
        }
    }

    pub fn new() -> (r: Self)
        ensures
            r.last() is None,
    {
        SyncWait { last_status: None }
    }

    /// What to do about a status.
    pub fn receive(&mut self, status: KupoStatus, progress: &Option<String>) -> (r: SyncStep)
        ensures
            final(self).last() == Some(status@),
            match r {
                SyncStep::Ready => status@ is Healthy,
                SyncStep::Wait { delay, message, is_new } => {
                    &&& status@ !is Healthy
                    &&& is_new == (old(self).last() != Some(status@))
                    &&& delay == delay_of(status@)
                    &&& message@ == status_text(status@, text_in(*progress), is_new)
                },
            },
    {
        let is_new = match &self.last_status {
            Some(last) => !same_status(last, &status),
            None => true,
        };
        let step = match &status {
            KupoStatus::Healthy => SyncStep::Ready,
            KupoStatus::Syncing => {
                let syncing = match progress {
                    Some(progress) => between("syncing (", progress.as_str(), ")"),
                    None => "syncing".to_owned(),
                };
                let message = if is_new {
                    between(
                        "Kupo server is ",
                        syncing.as_str(),
                        ". This source will be ignored until it is fully synced.",
                    )
                } else {
                    between("Kupo server is still ", syncing.as_str(), ".")
                };
                SyncStep::Wait { delay: SECOND, message, is_new }
            },
            KupoStatus::Disconnected => {
                let message = if is_new {
                    "Kupo server is disconnected from the underlying node. Please check that it is configured correctly. This source will be ignored until kupo is connected and fully synced.".to_owned()
                } else {
                    "Kupo server is still disconnected from the underlying node.".to_owned()
                };
                SyncStep::Wait { delay: 5 * SECOND, message, is_new }
            },
            KupoStatus::Error(reason) => {
                let message = if is_new {
                    between(
                        "Kupo server is unreachable or otherwise unhealthy: ",
                        reason.as_str(),
                        ". Please ensure the server is running and configured correctly. This source will be ignored until it is.",
                    )
                } else {
                    join("Kupo server is still unhealthy: ", reason.as_str())
                };
                SyncStep::Wait { delay: 10 * SECOND, message, is_new }
            },
        };
        self.last_status = Some(status);
        step
    }
}

/// Tasks, of which only so many run at a time.
pub struct MaxConcurrencyFutureSet<T> {
    running: usize,
    queued: Vec<T>,
    concurrency: usize,
}

impl<T> MaxConcurrencyFutureSet<T> {
    /// How many tasks run.
    pub closed spec fn running(&self) -> usize {
        self.running
    }

    /// The tasks that wait.
    pub closed spec fn queued(&self) -> Seq<T> {
        self.queued@
    }

    /// How many tasks may run.
    pub closed spec fn concurrency(&self) -> usize {
        self.concurrency
    }

    #[verifier::type_invariant]
    spec fn wf(&self) -> bool {
        0 < self.concurrency && self.running <= self.concurrency
    }

    pub fn new(concurrency: usize) -> (r: Self)
        requires
            concurrency > 0,
        ensures
            r.running() == 0,
            r.queued() == Seq::<T>::empty(),
            r.concurrency() == concurrency,
    {
        MaxConcurrencyFutureSet { running: 0, queued: Vec::new(), concurrency }
    }

    /// Takes a task, and gives it back if it is to run now.
    pub fn push(&mut self, task: T) -> (r: Option<T>)
        ensures
            final(self).concurrency() == old(self).concurrency(),
            if old(self).running() < old(self).concurrency() {
                &&& r == Some(task)
                &&& final(self).running() == old(self).running() + 1
                &&& final(self).queued() == old(self).queued()
            } else {
                &&& r is None
                &&& final(self).running() == old(self).running()
                &&& final(self).queued() == old(self).queued().push(task)
            },
    {
        proof {
            use_type_invariant(&*self);
        }
        if self.running < self.concurrency {
            self.running = self.running + 1;
            Some(task)
        } else {
            let mut queued: Vec<T> = Vec::new();
            core::mem::swap(&mut self.queued, &mut queued);
            queued.push(task);
            self.queued = queued;
            None
        }
    }

    /// A task that ran has ended.
    pub fn finish(&mut self)
        requires
            old(self).running() > 0,
        ensures
            final(self).running() == old(self).running() - 1,
            final(self).queued() == old(self).queued(),
            final(self).concurrency() == old(self).concurrency(),
    {
        proof {
            use_type_invariant(&*self);
        }
        self.running = self.running - 1;
    }

    /// The task to run next, once none runs any more: the one that came last.
    pub fn next_task(&mut self) -> (r: Option<T>)
        ensures
            final(self).concurrency() == old(self).concurrency(),
            if old(self).running() == 0 && old(self).queued().len() > 0 {
                &&& r == Some(old(self).queued().last())
                &&& final(self).running() == 1
                &&& final(self).queued() == old(self).queued().drop_last()
            } else {
                &&& r is None
                &&& final(self).running() == old(self).running()
                &&& final(self).queued() == old(self).queued()
            },
    {
        proof {
            use_type_invariant(&*self);
        }
        if self.running > 0 {
            return None;
        }
        let mut queued: Vec<T> = Vec::new();
        core::mem::swap(&mut self.queued, &mut queued);
        let task = queued.pop();
        self.queued = queued;
        if task.is_some() {
            self.running = 1;
        }
        task
    }

    /// How many tasks run: no more than may.
    pub fn count(&self) -> (r: usize)
        ensures
            r == self.running(),
            r <= self.concurrency(),
    {
        proof {
            use_type_invariant(self);
        }
        self.running
    }
}

} // verus!
