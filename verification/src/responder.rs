//! The responder: it owns every penalty transaction from the moment a
//! breach is decrypted until the transaction is settled on chain or its
//! owner is evicted.
//!
//! The responder submits nothing itself. It says which transactions are to
//! be submitted, and is told how each submission went.

use crate::appointment::{AppointmentId, Locator};
use crate::cryptography::{transaction_id_of, PenaltyTransaction};
use crate::ids::{TransactionId, UserId};
use crate::model::{
    contains_txid, contains_user, lemma_filter_map_of_all, lemma_views_push, views,
};
use vstd::prelude::*;

verus! {

/// Where a penalty transaction stands.
#[derive(Debug, Clone, Copy, PartialEq, Eq, Structural)]
pub enum JobStatus {
    /// To be submitted: no submission was accepted yet, or the transaction
    /// left the pending pool and is submitted again.
    Broadcasting,
    /// Submitted, and not yet buried under enough blocks.
    AwaitingConfirmation,
    /// Buried under enough blocks. Final.
    Confirmed,
    /// Given up because its owner was evicted. Final.
    Abandoned,
}

/// A decrypted penalty transaction with the appointment it came from.
#[derive(Debug)]
pub struct Breach {
    pub user_id: UserId,
    pub locator: Locator,
    pub penalty: PenaltyTransaction,
}

/// A breach as a mathematical value.
pub struct BreachView {
    pub user_id: Seq<u8>,
    pub locator: Seq<u8>,
    pub penalty: Seq<u8>,
}

impl View for Breach {
    type V = BreachView;

    open spec fn view(&self) -> BreachView {
        BreachView { user_id: self.user_id@, locator: self.locator@, penalty: self.penalty@ }
    }
}

impl Clone for Breach {
    fn clone(&self) -> (copy: Self)
        ensures
            copy@ == self@,
    {
        Breach { user_id: self.user_id, locator: self.locator, penalty: self.penalty.clone() }
    }
}

/// One penalty transaction that the responder tracks.
#[derive(Debug)]
pub struct ResponderJob {
    pub user_id: UserId,
    pub locator: Locator,
    pub penalty: PenaltyTransaction,
    /// Height of the block at which the transaction was last handed out for
    /// submission.
    pub broadcast_height: u32,
    /// Number of blocks of the chain that hold the transaction or follow
    /// the one that holds it.
    pub confirmation_count: u32,
    pub status: JobStatus,
}

/// A job as a mathematical value.
pub struct JobView {
    pub user_id: Seq<u8>,
    pub locator: Seq<u8>,
    pub penalty: Seq<u8>,
    pub broadcast_height: u32,
    pub confirmation_count: nat,
    pub status: JobStatus,
}

impl View for ResponderJob {
    type V = JobView;

    open spec fn view(&self) -> JobView {
        JobView {
            user_id: self.user_id@,
            locator: self.locator@,
            penalty: self.penalty@,
            broadcast_height: self.broadcast_height,
            confirmation_count: self.confirmation_count as nat,
            status: self.status,
        }
    }
}

impl Clone for ResponderJob {
    fn clone(&self) -> (copy: Self)
        ensures
            copy@ == self@,
    {
        ResponderJob {
            user_id: self.user_id,
            locator: self.locator,
            penalty: self.penalty.clone(),
            broadcast_height: self.broadcast_height,
            confirmation_count: self.confirmation_count,
            status: self.status,
        }
    }
}

impl JobView {
    /// The appointment that the job answers.
    pub open spec fn id(self) -> (Seq<u8>, Seq<u8>) {
        (self.user_id, self.locator)
    }

    /// The id of the penalty transaction.
    pub open spec fn txid(self) -> Seq<u8> {
        transaction_id_of(self.penalty).unwrap()
    }

    /// Whether the job is neither confirmed nor abandoned.
    pub open spec fn is_active(self) -> bool {
        self.status is Broadcasting || self.status is AwaitingConfirmation
    }

    /// Whether a new block with the given transactions adds a confirmation:
    /// the transaction was in the chain before, or it is in the block.
    pub open spec fn confirms_in(self, txids: Seq<Seq<u8>>) -> bool {
        self.confirmation_count > 0 || txids.contains(self.txid())
    }

    /// Whether the transaction is handed out for submission at a new block:
    /// it is in no block, the chain source can be reached, and either no
    /// submission was accepted yet or the pending pool has lost it.
    pub open spec fn needs_broadcast(
        self,
        txids: Seq<Seq<u8>>,
        mempool: Seq<Seq<u8>>,
        reachable: bool,
    ) -> bool {
        &&& self.is_active()
        &&& !self.confirms_in(txids)
        &&& reachable
        &&& (self.status is Broadcasting || !mempool.contains(self.txid()))
    }

    /// The job after a new block.
    pub open spec fn connected(
        self,
        height: u32,
        txids: Seq<Seq<u8>>,
        mempool: Seq<Seq<u8>>,
        reachable: bool,
        threshold: nat,
    ) -> JobView {
        if !self.is_active() {
            self
        } else if self.confirms_in(txids) {
            JobView {
                confirmation_count: self.confirmation_count + 1,
                status: if self.confirmation_count + 1 >= threshold {
                    JobStatus::Confirmed
                } else {
                    JobStatus::AwaitingConfirmation
                },
                ..self
            }
        } else if self.needs_broadcast(txids, mempool, reachable) {
            JobView { status: JobStatus::Broadcasting, broadcast_height: height, ..self }
        } else {
            self
        }
    }

    /// Whether a new block settles the job.
    pub open spec fn settles_in(self, txids: Seq<Seq<u8>>, threshold: nat) -> bool {
        self.is_active() && self.confirms_in(txids) && self.confirmation_count + 1 >= threshold
    }

    /// The job after the last block of the chain was taken away.
    pub open spec fn disconnected(self) -> JobView {
        if self.is_active() && self.confirmation_count > 0 {
            JobView {
                confirmation_count: (self.confirmation_count - 1) as nat,
                status: JobStatus::AwaitingConfirmation,
                ..self
            }
        } else {
            self
        }
    }

    /// A settled job after the chain source was asked again how many
    /// confirmations its transaction has: settled still where it has enough,
    /// else awaiting confirmation with what it has. A job that is not
    /// settled is left alone.
    pub open spec fn revalidated(
        self,
        id: (Seq<u8>, Seq<u8>),
        confirmations: u32,
        threshold: nat,
    ) -> JobView {
        if self.id() == id && self.status is Confirmed && confirmations < threshold {
            JobView {
                confirmation_count: confirmations as nat,
                status: JobStatus::AwaitingConfirmation,
                ..self
            }
        } else {
            self
        }
    }

    /// The job once its owner is evicted.
    pub open spec fn abandoned(self) -> JobView {
        JobView { status: JobStatus::Abandoned, ..self }
    }

    /// The job that a breach starts at a height.
    pub open spec fn started(breach: BreachView, height: u32) -> JobView {
        JobView {
            user_id: breach.user_id,
            locator: breach.locator,
            penalty: breach.penalty,
            broadcast_height: height,
            confirmation_count: 0,
            status: JobStatus::Broadcasting,
        }
    }

    /// What is submitted for the job.
    pub open spec fn breach(self) -> BreachView {
        BreachView { user_id: self.user_id, locator: self.locator, penalty: self.penalty }
    }

    /// The job after a submission of its transaction was answered.
    pub open spec fn answered(self, id: (Seq<u8>, Seq<u8>), accepted: bool) -> JobView {
        if self.id() == id && self.status is Broadcasting && accepted {
            JobView { status: JobStatus::AwaitingConfirmation, ..self }
        } else {
            self
        }
    }
}

impl BreachView {
    /// The appointment that the breach came from.
    pub open spec fn id(self) -> (Seq<u8>, Seq<u8>) {
        (self.user_id, self.locator)
    }
}

/// Whether no two jobs of a list answer the same appointment.
pub open spec fn distinct_jobs(jobs: Seq<JobView>) -> bool {
    forall|i: int, j: int|
        0 <= i < j < jobs.len() ==> (#[trigger] jobs[i]).id() != (#[trigger] jobs[j]).id()
}

/// The oldest job of a list that answers the given appointment.
pub open spec fn first_job(jobs: Seq<JobView>, id: (Seq<u8>, Seq<u8>)) -> Option<JobView>
    decreases jobs.len(),
{
    if jobs.len() == 0 {
        None
    } else {
        match first_job(jobs.drop_last(), id) {
            Some(job) => Some(job),
            None => if jobs.last().id() == id {
                Some(jobs.last())
            } else {
                None
            },
        }
    }
}

/// The responder's table as a mathematical value.
pub struct ResponderView {
    /// The jobs, oldest first.
    pub jobs: Seq<JobView>,
    /// The number of confirmations that settles a job.
    pub threshold: nat,
}

impl ResponderView {
    /// What holds of every responder: one confirmation at least settles a
    /// job, no active job has that many, and no two jobs answer the same
    /// appointment.
    pub open spec fn wf(self) -> bool {
        &&& 1 <= self.threshold <= u32::MAX
        &&& forall|i: int|
            0 <= i < self.jobs.len() && (#[trigger] self.jobs[i]).is_active()
                ==> self.jobs[i].confirmation_count < self.threshold
        &&& distinct_jobs(self.jobs)
    }

    /// The job that answers the given appointment.
    pub open spec fn job(self, id: (Seq<u8>, Seq<u8>)) -> Option<JobView> {
        first_job(self.jobs, id)
    }

    /// Whether a job answers the given appointment.
    pub open spec fn has_job(self, id: (Seq<u8>, Seq<u8>)) -> bool {
        self.job(id) is Some
    }

    /// What a function of jobs makes of the job that answers the given
    /// appointment, if there is one.
    pub open spec fn job_through(
        self,
        id: (Seq<u8>, Seq<u8>),
        step: spec_fn(JobView) -> JobView,
    ) -> Option<JobView> {
        match self.job(id) {
            Some(job) => Some(step(job)),
            None => None,
        }
    }

    /// The function that takes a job through a new block.
    pub open spec fn connecting(
        self,
        height: u32,
        txids: Seq<Seq<u8>>,
        mempool: Seq<Seq<u8>>,
        reachable: bool,
    ) -> spec_fn(JobView) -> JobView {
        |job: JobView| job.connected(height, txids, mempool, reachable, self.threshold)
    }

    /// The function that takes a job through the answer to a submission.
    pub open spec fn answering(id: (Seq<u8>, Seq<u8>), accepted: bool) -> spec_fn(
        JobView,
    ) -> JobView {
        |job: JobView| job.answered(id, accepted)
    }

    /// The function that takes a job through a new count of its
    /// confirmations.
    pub open spec fn revalidating(self, id: (Seq<u8>, Seq<u8>), confirmations: u32) -> spec_fn(
        JobView,
    ) -> JobView {
        |job: JobView| job.revalidated(id, confirmations, self.threshold)
    }

    /// The table after the confirmations of the job of an appointment were
    /// counted again.
    pub open spec fn revalidated(self, id: (Seq<u8>, Seq<u8>), confirmations: u32) -> ResponderView {
        ResponderView { jobs: self.jobs.map_values(self.revalidating(id, confirmations)), ..self }
    }

    /// The function that takes a job through the loss of the last block.
    pub open spec fn disconnecting() -> spec_fn(JobView) -> JobView {
        |job: JobView| job.disconnected()
    }

    /// The table after a breach was handed over at a height: a new job,
    /// unless one answers the same appointment already.
    pub open spec fn handled(self, breach: BreachView, height: u32) -> ResponderView {
        if self.has_job(breach.id()) {
            self
        } else {
            ResponderView { jobs: self.jobs.push(JobView::started(breach, height)), ..self }
        }
    }

    /// The table after a list of breaches was handed over at a height, one
    /// after the other.
    pub open spec fn handled_all(self, breaches: Seq<BreachView>, height: u32) -> ResponderView
        decreases breaches.len(),
    {
        if breaches.len() == 0 {
            self
        } else {
            self.handled_all(breaches.drop_last(), height).handled(breaches.last(), height)
        }
    }

    /// The table after a submission for an appointment was answered.
    pub open spec fn answered(self, id: (Seq<u8>, Seq<u8>), accepted: bool) -> ResponderView {
        ResponderView { jobs: self.jobs.map_values(Self::answering(id, accepted)), ..self }
    }

    /// What a new block makes of one job: nothing where its owner is
    /// evicted, else the job after the block.
    pub open spec fn connect_step(
        self,
        height: u32,
        txids: Seq<Seq<u8>>,
        mempool: Seq<Seq<u8>>,
        expired: Seq<Seq<u8>>,
        reachable: bool,
    ) -> spec_fn(JobView) -> Option<JobView> {
        |job: JobView|
            if expired.contains(job.user_id) {
                None
            } else {
                Some(job.connected(height, txids, mempool, reachable, self.threshold))
            }
    }

    /// The table after a new block: the jobs of evicted users are gone, the
    /// others are as the block leaves them.
    pub open spec fn connected(
        self,
        height: u32,
        txids: Seq<Seq<u8>>,
        mempool: Seq<Seq<u8>>,
        expired: Seq<Seq<u8>>,
        reachable: bool,
    ) -> ResponderView {
        ResponderView {
            jobs: self.jobs.filter_map(self.connect_step(height, txids, mempool, expired, reachable)),
            ..self
        }
    }

    /// The appointment of a job that a new block settles, for the jobs of
    /// users who stay.
    pub open spec fn resolve_step(self, txids: Seq<Seq<u8>>, expired: Seq<Seq<u8>>) -> spec_fn(
        JobView,
    ) -> Option<(Seq<u8>, Seq<u8>)> {
        |job: JobView|
            if !expired.contains(job.user_id) && job.settles_in(txids, self.threshold) {
                Some(job.id())
            } else {
                None
            }
    }

    /// The appointments that a new block settles, in the order of their
    /// jobs.
    pub open spec fn resolved_by(self, txids: Seq<Seq<u8>>, expired: Seq<Seq<u8>>) -> Seq<
        (Seq<u8>, Seq<u8>),
    > {
        self.jobs.filter_map(self.resolve_step(txids, expired))
    }

    /// An active job of an evicted user, abandoned.
    pub open spec fn abandon_step(expired: Seq<Seq<u8>>) -> spec_fn(JobView) -> Option<JobView> {
        |job: JobView|
            if expired.contains(job.user_id) && job.is_active() {
                Some(job.abandoned())
            } else {
                None
            }
    }

    /// The jobs that an eviction abandons, in the order of the table.
    pub open spec fn abandoned_by(self, expired: Seq<Seq<u8>>) -> Seq<JobView> {
        self.jobs.filter_map(Self::abandon_step(expired))
    }

    /// What is submitted for a job at a new block, if anything.
    pub open spec fn broadcast_step(
        txids: Seq<Seq<u8>>,
        mempool: Seq<Seq<u8>>,
        expired: Seq<Seq<u8>>,
        reachable: bool,
    ) -> spec_fn(JobView) -> Option<BreachView> {
        |job: JobView|
            if !expired.contains(job.user_id) && job.needs_broadcast(txids, mempool, reachable) {
                Some(job.breach())
            } else {
                None
            }
    }

    /// The transactions to submit at a new block, in the order of their
    /// jobs.
    pub open spec fn broadcasts_by(
        self,
        txids: Seq<Seq<u8>>,
        mempool: Seq<Seq<u8>>,
        expired: Seq<Seq<u8>>,
        reachable: bool,
    ) -> Seq<BreachView> {
        self.jobs.filter_map(Self::broadcast_step(txids, mempool, expired, reachable))
    }

    /// The table after the last block of the chain was taken away.
    pub open spec fn disconnected(self) -> ResponderView {
        ResponderView { jobs: self.jobs.map_values(Self::disconnecting()), ..self }
    }

    /// The id of the transaction of an active job that no block holds.
    pub open spec fn unconfirmed_step() -> spec_fn(JobView) -> Option<Seq<u8>> {
        |job: JobView|
            if job.is_active() && job.confirmation_count == 0 {
                Some(job.txid())
            } else {
                None
            }
    }

    /// The ids of the transactions of which the pending pool tells whether
    /// they are submitted again: those of the active jobs that no block
    /// holds, in the order of the table.
    pub open spec fn unconfirmed(self) -> Seq<Seq<u8>> {
        self.jobs.filter_map(Self::unconfirmed_step())
    }

    /// The appointment of a confirmed job.
    pub open spec fn settled_step() -> spec_fn(JobView) -> Option<(Seq<u8>, Seq<u8>)> {
        |job: JobView|
            if job.status is Confirmed {
                Some(job.id())
            } else {
                None
            }
    }

    /// The appointments whose jobs are confirmed.
    pub open spec fn settled(self) -> Seq<(Seq<u8>, Seq<u8>)> {
        self.jobs.filter_map(Self::settled_step())
    }
}

/// What a new block did to the responder's jobs.
#[derive(Debug)]
pub struct ResponderReport {
    /// The appointments whose jobs the block settled.
    pub resolved: Vec<AppointmentId>,
    /// The jobs that were given up because their owners were evicted.
    pub abandoned: Vec<ResponderJob>,
    /// The transactions to submit.
    pub broadcasts: Vec<Breach>,
}

/// The table of the penalty transactions in flight.
#[derive(Debug)]
pub struct Responder {
    jobs: Vec<ResponderJob>,
    threshold: u32,
}

impl View for Responder {
    type V = ResponderView;

    closed spec fn view(&self) -> ResponderView {
        ResponderView { jobs: views(self.jobs@), threshold: self.threshold as nat }
    }
}

impl Responder {
    /// A responder without jobs that takes a job for settled after
    /// `threshold` confirmations, and after one where `threshold` is 0.
    pub fn new(threshold: u32) -> (responder: Self)
        ensures
            responder@.wf(),
            responder@.jobs.len() == 0,
            responder@.threshold == if threshold == 0 {
                1
            } else {
                threshold as nat
            },
    {
        let threshold: u32 = if threshold == 0 {
            1
        } else {
            threshold
        };
        Responder { jobs: Vec::new(), threshold }
    }

    /// A responder with the given jobs, as they were kept before the tower
    /// stopped, that takes a job for settled after `threshold`
    /// confirmations, and after one where `threshold` is 0. There is none
    /// where an active job has that many confirmations, or where two jobs
    /// answer one appointment.
    pub fn restore(threshold: u32, jobs: Vec<ResponderJob>) -> (r: Option<Self>)
        ensures
            r matches Some(responder) ==> responder@.wf() && responder@ == (ResponderView {
                jobs: views(jobs@),
                threshold: if threshold == 0 {
                    1
                } else {
                    threshold as nat
                },
            }),
            r is None <==> !(ResponderView {
                jobs: views(jobs@),
                threshold: if threshold == 0 {
                    1
                } else {
                    threshold as nat
                },
            }).wf(),
    {
        let settle_at: u32 = if threshold == 0 {
            1
        } else {
            threshold
        };
        let ghost all = views(jobs@);
        let mut i: usize = 0;
        while i < jobs.len()
            invariant
                i <= jobs.len(),
                all == views(jobs@),
                settle_at == if threshold == 0 {
                    1u32
                } else {
                    threshold
                },
                forall|k: int|
                    0 <= k < i && (#[trigger] all[k]).is_active() ==> all[k].confirmation_count
                        < settle_at,
                forall|a: int, b: int|
                    0 <= a < b < i ==> (#[trigger] all[a]).id() != (#[trigger] all[b]).id(),
            decreases jobs.len() - i,
        {
            let job = &jobs[i];
            let active = job.status == JobStatus::Broadcasting || job.status
                == JobStatus::AwaitingConfirmation;
            if active && job.confirmation_count >= settle_at {
                proof {
                    let kept = ResponderView { jobs: all, threshold: settle_at as nat };
                    assert(kept.jobs[i as int].is_active() && kept.jobs[i as int].confirmation_count
                        >= settle_at);
                }
                return None;
            }
            let mut j: usize = 0;
            while j < i
                invariant
                    j <= i < jobs.len(),
                    all == views(jobs@),
                    forall|a: int| 0 <= a < j ==> (#[trigger] all[a]).id() != all[i as int].id(),
                decreases i - j,
            {
                if jobs[j].user_id == jobs[i].user_id && jobs[j].locator == jobs[i].locator {
                    assert(all[j as int].id() == all[i as int].id());
                    return None;
                }
                j = j + 1;
            }
            i = i + 1;
        }
        Some(Responder { jobs, threshold: settle_at })
    }

    /// The jobs, oldest first.
    pub fn jobs(&self) -> (jobs: &Vec<ResponderJob>)
        ensures
            views(jobs@) == self@.jobs,
    {
        &self.jobs
    }

    /// Whether the responder tracks no job.
    pub fn is_fresh(&self) -> (fresh: bool)
        ensures
            fresh == (self@.jobs.len() == 0),
    {
        self.jobs.len() == 0
    }

    /// The number of confirmations that settles a job.
    pub fn threshold(&self) -> (threshold: u32)
        ensures
            threshold == self@.threshold,
    {
        self.threshold
    }

    /// The place of the oldest job that answers the given appointment.
    fn find(&self, id: &AppointmentId) -> (place: Option<usize>)
        ensures
            place matches Some(i) ==> {
                &&& i < self@.jobs.len()
                &&& self@.jobs[i as int] == self.jobs@[i as int]@
                &&& self@.job(id@) == Some(self@.jobs[i as int])
            },
            place is None <==> !self@.has_job(id@),
    {
        let mut i: usize = 0;
        while i < self.jobs.len()
            invariant
                i <= self.jobs.len(),
                forall|j: int| 0 <= j < i ==> (#[trigger] self@.jobs[j]).id() != id@,
            decreases self.jobs.len() - i,
        {
            if self.jobs[i].user_id == id.user_id && self.jobs[i].locator == id.locator {
                proof {
                    assert(self@.jobs[i as int].id() == id@);
                    lemma_first_job_at(self@.jobs, id@, i as int);
                }
                return Some(i);
            }
            i = i + 1;
        }
        proof {
            lemma_first_job_absent(self@.jobs, id@);
        }
        None
    }

    /// The job that answers the given appointment, if the responder tracks
    /// one.
    pub fn job(&self, id: &AppointmentId) -> (found: Option<ResponderJob>)
        ensures
            found matches Some(job) ==> self@.job(id@) == Some(job@),
            found is None <==> self@.job(id@) is None,
    {
        match self.find(id) {
            Some(i) => Some(self.jobs[i].clone()),
            None => None,
        }
    }

    /// Takes over a breach at a height: starts a job for it, to be
    /// submitted, unless one answers the same appointment already. Says
    /// whether a job was started.
    pub fn handle_breach(&mut self, breach: &Breach, height: u32) -> (started: bool)
        requires
            old(self)@.wf(),
        ensures
            final(self)@ == old(self)@.handled(breach@, height),
            final(self)@.wf(),
            started == !old(self)@.has_job(breach@.id()),
            forall|other: (Seq<u8>, Seq<u8>)| #[trigger]
                final(self)@.job(other) == if other == breach@.id() && !old(self)@.has_job(
                    other,
                ) {
                    Some(JobView::started(breach@, height))
                } else {
                    old(self)@.job(other)
                },
    {
        let id = AppointmentId { user_id: breach.user_id, locator: breach.locator };
        match self.find(&id) {
            Some(_) => false,
            None => {
                let job = ResponderJob {
                    user_id: breach.user_id,
                    locator: breach.locator,
                    penalty: breach.penalty.clone(),
                    broadcast_height: height,
                    confirmation_count: 0,
                    status: JobStatus::Broadcasting,
                };
                proof {
                    lemma_views_push(self.jobs@, job);
                }
                let ghost before = self@;
                self.jobs.push(job);
                proof {
                    assert(self@.jobs.drop_last() =~= before.jobs);
                    lemma_first_job_none(before.jobs, id@);
                    assert forall|a: int, b: int| 0 <= a < b < self@.jobs.len() implies (
                    #[trigger] self@.jobs[a]).id() != (#[trigger] self@.jobs[b]).id() by {
                        assert(self@.jobs[a] == before.jobs[a]);
                        if b < before.jobs.len() {
                            assert(self@.jobs[b] == before.jobs[b]);
                        }
                    }
                }
                true
            },
        }
    }

    /// Takes over a list of breaches at a height, one after the other.
    pub fn handle_breaches(&mut self, breaches: &Vec<Breach>, height: u32)
        requires
            old(self)@.wf(),
        ensures
            final(self)@ == old(self)@.handled_all(views(breaches@), height),
            final(self)@.wf(),
    {
        let ghost before = self@;
        let ghost all = views(breaches@);
        let mut i: usize = 0;
        while i < breaches.len()
            invariant
                i <= breaches.len(),
                all == views(breaches@),
                self@.wf(),
                self@ == before.handled_all(all.take(i as int), height),
            decreases breaches.len() - i,
        {
            proof {
                assert(all.take(i + 1).drop_last() =~= all.take(i as int));
                assert(all.take(i + 1).last() == breaches@[i as int]@);
            }
            self.handle_breach(&breaches[i], height);
            i = i + 1;
        }
        proof {
            assert(all.take(i as int) =~= all);
        }
    }

    /// Whether a job answers the given appointment.
    pub fn has_job(&self, id: &AppointmentId) -> (found: bool)
        ensures
            found == self@.has_job(id@),
    {
        self.find(id).is_some()
    }

    /// Takes note of how the submission for an appointment went: an
    /// accepted one lets the job await confirmation, a refused one leaves
    /// it to be submitted again at the next block.
    pub fn on_broadcast_result(&mut self, id: &AppointmentId, accepted: bool)
        requires
            old(self)@.wf(),
        ensures
            final(self)@ == old(self)@.answered(id@, accepted),
            final(self)@.wf(),
            forall|other: (Seq<u8>, Seq<u8>)| #[trigger]
                final(self)@.job(other) == old(self)@.job_through(
                    other,
                    ResponderView::answering(id@, accepted),
                ),
    {
        let ghost before = self@;
        let mut i: usize = 0;
        while i < self.jobs.len()
            invariant
                i <= self.jobs.len(),
                self.threshold == before.threshold,
                self.jobs@.len() == before.jobs.len(),
                before.wf(),
                forall|j: int|
                    0 <= j < i ==> (#[trigger] self.jobs@[j])@ == before.jobs[j].answered(
                        id@,
                        accepted,
                    ),
                forall|j: int| i <= j < self.jobs.len() ==> (#[trigger] self.jobs@[j])@ == before.jobs[j],
            decreases self.jobs.len() - i,
        {
            let job = &self.jobs[i];
            if accepted && job.status == JobStatus::Broadcasting && job.user_id == id.user_id
                && job.locator == id.locator {
                let mut updated = job.clone();
                updated.status = JobStatus::AwaitingConfirmation;
                self.jobs.set(i, updated);
            }
            i = i + 1;
        }
        assert(self@.jobs =~= before.answered(id@, accepted).jobs);
        assert forall|other: (Seq<u8>, Seq<u8>)| #[trigger]
            self@.job(other) == before.job_through(
                other,
                ResponderView::answering(id@, accepted),
            ) by {
            lemma_first_job_mapped(before.jobs, ResponderView::answering(id@, accepted), other);
        }
    }

    /// Applies a new block: drops the jobs of evicted users, counts a
    /// confirmation for every transaction that is in the block or was in the
    /// chain before, settles the jobs that reach the threshold, and hands
    /// out for submission, where the chain source can be reached, what is in
    /// no block and was never accepted or has left the pending pool.
    pub fn on_block_connected(
        &mut self,
        height: u32,
        txids: &Vec<TransactionId>,
        mempool: &Vec<TransactionId>,
        expired: &Vec<UserId>,
        reachable: bool,
    ) -> (report: ResponderReport)
        requires
            old(self)@.wf(),
        ensures
            final(self)@ == old(self)@.connected(
                height,
                views(txids@),
                views(mempool@),
                views(expired@),
                reachable,
            ),
            final(self)@.wf(),
            views(report.resolved@) == old(self)@.resolved_by(views(txids@), views(expired@)),
            views(report.abandoned@) == old(self)@.abandoned_by(views(expired@)),
            views(report.broadcasts@) == old(self)@.broadcasts_by(
                views(txids@),
                views(mempool@),
                views(expired@),
                reachable,
            ),
            forall|other: (Seq<u8>, Seq<u8>)| #[trigger]
                final(self)@.job(other) == if views(expired@).contains(other.0) {
                    None
                } else {
                    old(self)@.job_through(
                        other,
                        old(self)@.connecting(height, views(txids@), views(mempool@), reachable),
                    )
                },
    {
        let ghost before = self@;
        let ghost block = views(txids@);
        let ghost pool = views(mempool@);
        let ghost gone = views(expired@);
        let mut jobs: Vec<ResponderJob> = Vec::new();
        let mut resolved: Vec<AppointmentId> = Vec::new();
        let mut abandoned: Vec<ResponderJob> = Vec::new();
        let mut broadcasts: Vec<Breach> = Vec::new();
        let mut i: usize = 0;
        while i < self.jobs.len()
            invariant
                i <= self.jobs.len(),
                self@ == before,
                before.wf(),
                block == views(txids@),
                pool == views(mempool@),
                gone == views(expired@),
                views(jobs@) == before.jobs.take(i as int).filter_map(
                    before.connect_step(height, block, pool, gone, reachable),
                ),
                views(resolved@) == before.jobs.take(i as int).filter_map(
                    before.resolve_step(block, gone),
                ),
                views(abandoned@) == before.jobs.take(i as int).filter_map(
                    ResponderView::abandon_step(gone),
                ),
                views(broadcasts@) == before.jobs.take(i as int).filter_map(
                    ResponderView::broadcast_step(block, pool, gone, reachable),
                ),
                forall|k: int|
                    0 <= k < jobs.len() && (#[trigger] jobs@[k])@.is_active()
                        ==> jobs@[k]@.confirmation_count < before.threshold,
            decreases self.jobs.len() - i,
        {
            let job = &self.jobs[i];
            proof {
                assert(before.jobs[i as int] == job@);
                before.jobs.lemma_filter_map_take_succ(
                    before.connect_step(height, block, pool, gone, reachable),
                    i as int,
                );
                before.jobs.lemma_filter_map_take_succ(before.resolve_step(block, gone), i as int);
                before.jobs.lemma_filter_map_take_succ(
                    ResponderView::abandon_step(gone),
                    i as int,
                );
                before.jobs.lemma_filter_map_take_succ(
                    ResponderView::broadcast_step(block, pool, gone, reachable),
                    i as int,
                );
            }
            let active = job.status == JobStatus::Broadcasting || job.status
                == JobStatus::AwaitingConfirmation;
            if contains_user(expired, &job.user_id) {
                if active {
                    let mut given_up = job.clone();
                    given_up.status = JobStatus::Abandoned;
                    proof {
                        lemma_views_push(abandoned@, given_up);
                    }
                    abandoned.push(given_up);
                }
            } else {
                let mut next = job.clone();
                if active {
                    let txid = job.penalty.txid();
                    if job.confirmation_count > 0 || contains_txid(txids, &txid) {
                        next.confirmation_count = job.confirmation_count + 1;
                        if next.confirmation_count >= self.threshold {
                            next.status = JobStatus::Confirmed;
                            let id = AppointmentId { user_id: job.user_id, locator: job.locator };
                            proof {
                                lemma_views_push(resolved@, id);
                            }
                            resolved.push(id);
                        } else {
                            next.status = JobStatus::AwaitingConfirmation;
                        }
                    } else if reachable && (job.status == JobStatus::Broadcasting || !contains_txid(
                        mempool,
                        &txid,
                    )) {
                        next.status = JobStatus::Broadcasting;
                        next.broadcast_height = height;
                        let request = Breach {
                            user_id: job.user_id,
                            locator: job.locator,
                            penalty: job.penalty.clone(),
                        };
                        proof {
                            lemma_views_push(broadcasts@, request);
                        }
                        broadcasts.push(request);
                    }
                }
                proof {
                    lemma_views_push(jobs@, next);
                }
                jobs.push(next);
            }
            i = i + 1;
        }
        proof {
            assert(before.jobs.take(i as int) =~= before.jobs);
        }
        self.jobs = jobs;
        proof {
            lemma_picked_distinct(
                before.jobs,
                before.connect_step(height, block, pool, gone, reachable),
            );
        }
        assert forall|other: (Seq<u8>, Seq<u8>)| #[trigger]
            self@.job(other) == if gone.contains(other.0) {
                None
            } else {
                before.job_through(other, before.connecting(height, block, pool, reachable))
            } by {
            lemma_first_job_picked(
                before.jobs,
                before.connect_step(height, block, pool, gone, reachable),
                other,
            );
            lemma_first_job_sound(before.jobs, other);
        }
        ResponderReport { resolved, abandoned, broadcasts }
    }

    /// Takes the last block of the chain away: every active job that had a
    /// confirmation has one less and awaits confirmation. Settled jobs stay
    /// settled.
    pub fn on_block_disconnected(&mut self)
        requires
            old(self)@.wf(),
        ensures
            final(self)@ == old(self)@.disconnected(),
            final(self)@.wf(),
            forall|other: (Seq<u8>, Seq<u8>)| #[trigger]
                final(self)@.job(other) == old(self)@.job_through(
                    other,
                    ResponderView::disconnecting(),
                ),
    {
        let ghost before = self@;
        let mut i: usize = 0;
        while i < self.jobs.len()
            invariant
                i <= self.jobs.len(),
                self.threshold == before.threshold,
                self.jobs@.len() == before.jobs.len(),
                before.wf(),
                forall|j: int|
                    0 <= j < i ==> (#[trigger] self.jobs@[j])@ == before.jobs[j].disconnected(),
                forall|j: int| i <= j < self.jobs.len() ==> (#[trigger] self.jobs@[j])@ == before.jobs[j],
            decreases self.jobs.len() - i,
        {
            let job = &self.jobs[i];
            let active = job.status == JobStatus::Broadcasting || job.status
                == JobStatus::AwaitingConfirmation;
            if active && job.confirmation_count > 0 {
                let mut updated = job.clone();
                updated.confirmation_count = job.confirmation_count - 1;
                updated.status = JobStatus::AwaitingConfirmation;
                self.jobs.set(i, updated);
            }
            i = i + 1;
        }
        assert(self@.jobs =~= before.disconnected().jobs);
        assert forall|other: (Seq<u8>, Seq<u8>)| #[trigger]
            self@.job(other) == before.job_through(other, ResponderView::disconnecting()) by {
            lemma_first_job_mapped(before.jobs, ResponderView::disconnecting(), other);
        }
    }

    /// Takes note of the confirmations that the chain source counts for the
    /// penalty transaction of an appointment, after blocks were taken away
    /// that may have held it. A settled job stays settled where the
    /// transaction still has as many confirmations as settle a job; else it
    /// awaits confirmation again, with the confirmations counted. Slots that
    /// were released stay released.
    pub fn revalidate(&mut self, id: &AppointmentId, confirmations: u32)
        requires
            old(self)@.wf(),
        ensures
            final(self)@ == old(self)@.revalidated(id@, confirmations),
            final(self)@.wf(),
            forall|other: (Seq<u8>, Seq<u8>)| #[trigger]
                final(self)@.job(other) == old(self)@.job_through(
                    other,
                    old(self)@.revalidating(id@, confirmations),
                ),
    {
        let ghost before = self@;
        let ghost step = before.revalidating(id@, confirmations);
        let mut i: usize = 0;
        while i < self.jobs.len()
            invariant
                i <= self.jobs.len(),
                self.threshold == before.threshold,
                self.jobs@.len() == before.jobs.len(),
                before.wf(),
                step == before.revalidating(id@, confirmations),
                forall|j: int| 0 <= j < i ==> (#[trigger] self.jobs@[j])@ == step(before.jobs[j]),
                forall|j: int| i <= j < self.jobs.len() ==> (#[trigger] self.jobs@[j])@ == before.jobs[j],
            decreases self.jobs.len() - i,
        {
            let job = &self.jobs[i];
            if job.status == JobStatus::Confirmed && confirmations < self.threshold && job.user_id
                == id.user_id && job.locator == id.locator {
                let mut updated = job.clone();
                updated.confirmation_count = confirmations;
                updated.status = JobStatus::AwaitingConfirmation;
                self.jobs.set(i, updated);
            }
            i = i + 1;
        }
        assert(self@.jobs =~= before.revalidated(id@, confirmations).jobs);
        assert forall|other: (Seq<u8>, Seq<u8>)| #[trigger]
            self@.job(other) == before.job_through(other, step) by {
            lemma_first_job_mapped(before.jobs, step, other);
        }
    }

    /// The ids of the transactions to look for in the pending pool before
    /// the next block is applied: those of the active jobs that no block
    /// holds, in the order of the table.
    pub fn unconfirmed(&self) -> (txids: Vec<TransactionId>)
        ensures
            views(txids@) == self@.unconfirmed(),
    {
        let mut txids: Vec<TransactionId> = Vec::new();
        let mut i: usize = 0;
        while i < self.jobs.len()
            invariant
                i <= self.jobs.len(),
                views(txids@) == self@.jobs.take(i as int).filter_map(
                    ResponderView::unconfirmed_step(),
                ),
            decreases self.jobs.len() - i,
        {
            let job = &self.jobs[i];
            proof {
                assert(self@.jobs[i as int] == job@);
                self@.jobs.lemma_filter_map_take_succ(ResponderView::unconfirmed_step(), i as int);
            }
            let active = job.status == JobStatus::Broadcasting || job.status
                == JobStatus::AwaitingConfirmation;
            if active && job.confirmation_count == 0 {
                let txid = job.penalty.txid();
                proof {
                    lemma_views_push(txids@, txid);
                }
                txids.push(txid);
            }
            i = i + 1;
        }
        proof {
            assert(self@.jobs.take(i as int) =~= self@.jobs);
        }
        txids
    }

    /// The appointments whose jobs are confirmed, in the order of the
    /// table.
    pub fn settled(&self) -> (ids: Vec<AppointmentId>)
        ensures
            views(ids@) == self@.settled(),
    {
        let mut ids: Vec<AppointmentId> = Vec::new();
        let mut i: usize = 0;
        while i < self.jobs.len()
            invariant
                i <= self.jobs.len(),
                views(ids@) == self@.jobs.take(i as int).filter_map(ResponderView::settled_step()),
            decreases self.jobs.len() - i,
        {
            let job = &self.jobs[i];
            proof {
                self@.jobs.lemma_filter_map_take_succ(ResponderView::settled_step(), i as int);
            }
            if job.status == JobStatus::Confirmed {
                let id = AppointmentId { user_id: job.user_id, locator: job.locator };
                proof {
                    lemma_views_push(ids@, id);
                }
                ids.push(id);
            }
            i = i + 1;
        }
        proof {
            assert(self@.jobs.take(i as int) =~= self@.jobs);
        }
        ids
    }
}

/// The first job of a list that answers an appointment is the oldest one
/// that does.
pub proof fn lemma_first_job_at(jobs: Seq<JobView>, id: (Seq<u8>, Seq<u8>), i: int)
    requires
        0 <= i < jobs.len(),
        jobs[i].id() == id,
        forall|j: int| 0 <= j < i ==> (#[trigger] jobs[j]).id() != id,
    ensures
        first_job(jobs, id) == Some(jobs[i]),
    decreases jobs.len(),
{
    let rest = jobs.drop_last();
    if i == jobs.len() - 1 {
        assert forall|j: int| 0 <= j < rest.len() implies (#[trigger] rest[j]).id() != id by {
            assert(rest[j] == jobs[j]);
        }
        lemma_first_job_absent(rest, id);
    } else {
        assert forall|j: int| 0 <= j < i implies (#[trigger] rest[j]).id() != id by {
            assert(rest[j] == jobs[j]);
        }
        assert(rest[i] == jobs[i]);
        lemma_first_job_at(rest, id, i);
    }
}

/// A list in which no job answers an appointment has no first such job.
pub proof fn lemma_first_job_absent(jobs: Seq<JobView>, id: (Seq<u8>, Seq<u8>))
    requires
        forall|j: int| 0 <= j < jobs.len() ==> (#[trigger] jobs[j]).id() != id,
    ensures
        first_job(jobs, id) is None,
    decreases jobs.len(),
{
    if jobs.len() > 0 {
        let rest = jobs.drop_last();
        assert forall|j: int| 0 <= j < rest.len() implies (#[trigger] rest[j]).id() != id by {
            assert(rest[j] == jobs[j]);
        }
        lemma_first_job_absent(rest, id);
        assert(jobs.last() == jobs[jobs.len() - 1]);
    }
}

/// Where every job of a list is put through a function that keeps its
/// appointment, the job that answers an appointment afterwards is what the
/// function makes of the job that answered it before.
pub proof fn lemma_first_job_mapped(
    jobs: Seq<JobView>,
    step: spec_fn(JobView) -> JobView,
    id: (Seq<u8>, Seq<u8>),
)
    requires
        forall|job: JobView| (#[trigger] step(job)).id() == job.id(),
    ensures
        first_job(jobs.map_values(step), id) == match first_job(jobs, id) {
            Some(job) => Some(step(job)),
            None => None,
        },
    decreases jobs.len(),
{
    if jobs.len() > 0 {
        let rest = jobs.drop_last();
        lemma_first_job_mapped(rest, step, id);
        assert(jobs.map_values(step).drop_last() =~= rest.map_values(step));
        assert(jobs.map_values(step).last() == step(jobs.last()));
    }
}

/// Where a function keeps some jobs of a list and drops others, and keeps
/// the appointment of those it keeps, the job that answers an appointment
/// afterwards is what the function makes of the job that answered it
/// before, if the function treats all jobs of that appointment alike.
pub proof fn lemma_first_job_picked(
    jobs: Seq<JobView>,
    pick: spec_fn(JobView) -> Option<JobView>,
    id: (Seq<u8>, Seq<u8>),
)
    requires
        forall|job: JobView| #[trigger] pick(job) matches Some(kept) ==> kept.id() == job.id(),
        (forall|job: JobView| job.id() == id ==> #[trigger] pick(job) is Some) || (forall|
            job: JobView,
        |
            job.id() == id ==> #[trigger] pick(job) is None),
    ensures
        first_job(jobs.filter_map(pick), id) == match first_job(jobs, id) {
            Some(job) => pick(job),
            None => None,
        },
    decreases jobs.len(),
{
    if jobs.len() > 0 {
        let rest = jobs.drop_last();
        let last = jobs.last();
        lemma_first_job_picked(rest, pick, id);
        lemma_first_job_sound(rest, id);
        match pick(last) {
            Some(kept) => {
                assert(jobs.filter_map(pick) =~= rest.filter_map(pick).push(kept));
                assert(rest.filter_map(pick).push(kept).drop_last() =~= rest.filter_map(pick));
            },
            None => {},
        }
    }
}

/// A list that has no first job for an appointment has no job for it.
pub proof fn lemma_first_job_none(jobs: Seq<JobView>, id: (Seq<u8>, Seq<u8>))
    requires
        first_job(jobs, id) is None,
    ensures
        forall|j: int| 0 <= j < jobs.len() ==> (#[trigger] jobs[j]).id() != id,
    decreases jobs.len(),
{
    if jobs.len() > 0 {
        let rest = jobs.drop_last();
        lemma_first_job_none(rest, id);
        assert forall|j: int| 0 <= j < jobs.len() implies (#[trigger] jobs[j]).id() != id by {
            if j < rest.len() {
                assert(rest[j] == jobs[j]);
            }
        }
    }
}

/// Where a function keeps some jobs of a list and drops others, and keeps
/// the appointment of those it keeps, every job kept answers the
/// appointment of a job of the list, and no two jobs kept answer the same
/// appointment if no two jobs of the list did.
pub proof fn lemma_picked_distinct(jobs: Seq<JobView>, pick: spec_fn(JobView) -> Option<JobView>)
    requires
        distinct_jobs(jobs),
        forall|job: JobView| #[trigger] pick(job) matches Some(kept) ==> kept.id() == job.id(),
    ensures
        distinct_jobs(jobs.filter_map(pick)),
        forall|k: int|
            0 <= k < jobs.filter_map(pick).len() ==> exists|i: int|
                0 <= i < jobs.len() && (#[trigger] jobs[i]).id() == (#[trigger] jobs.filter_map(
                    pick,
                )[k]).id(),
    decreases jobs.len(),
{
    if jobs.len() > 0 {
        let rest = jobs.drop_last();
        let last = jobs.last();
        let picked = rest.filter_map(pick);
        assert forall|a: int, b: int| 0 <= a < b < rest.len() implies (#[trigger] rest[a]).id() != (
        #[trigger] rest[b]).id() by {
            assert(rest[a] == jobs[a] && rest[b] == jobs[b]);
        }
        lemma_picked_distinct(rest, pick);
        let all = jobs.filter_map(pick);
        match pick(last) {
            Some(kept) => {
                assert(all =~= picked.push(kept));
                assert forall|a: int, b: int| 0 <= a < b < all.len() implies (
                #[trigger] all[a]).id() != (#[trigger] all[b]).id() by {
                    if b == picked.len() {
                        let i = choose|i: int|
                            0 <= i < rest.len() && (#[trigger] rest[i]).id() == (
                            #[trigger] picked[a]).id();
                        assert(jobs[i] == rest[i]);
                        assert(jobs[jobs.len() - 1] == last);
                    } else {
                        assert(all[a] == picked[a] && all[b] == picked[b]);
                    }
                }
                assert forall|k: int| 0 <= k < all.len() implies exists|i: int|
                    0 <= i < jobs.len() && (#[trigger] jobs[i]).id() == (#[trigger] all[k]).id() by {
                    if k == picked.len() {
                        assert(jobs[jobs.len() - 1].id() == all[k].id());
                    } else {
                        assert(all[k] == picked[k]);
                        let i = choose|i: int|
                            0 <= i < rest.len() && (#[trigger] rest[i]).id() == (
                            #[trigger] picked[k]).id();
                        assert(jobs[i] == rest[i]);
                    }
                }
            },
            None => {
                assert(all =~= picked);
                assert forall|k: int| 0 <= k < all.len() implies exists|i: int|
                    0 <= i < jobs.len() && (#[trigger] jobs[i]).id() == (#[trigger] all[k]).id() by {
                    let i = choose|i: int|
                        0 <= i < rest.len() && (#[trigger] rest[i]).id() == (
                        #[trigger] picked[k]).id();
                    assert(jobs[i] == rest[i]);
                }
            },
        }
    }
}

/// The first job of a list that answers an appointment answers it.
pub proof fn lemma_first_job_sound(jobs: Seq<JobView>, id: (Seq<u8>, Seq<u8>))
    ensures
        first_job(jobs, id) matches Some(job) ==> job.id() == id,
    decreases jobs.len(),
{
    if jobs.len() > 0 {
        lemma_first_job_sound(jobs.drop_last(), id);
    }
}

/// An active job that is still active after a new block has, once that
/// block is taken away again, the confirmation count it had before the
/// block.
pub proof fn law_disconnect_restores_count(
    job: JobView,
    height: u32,
    txids: Seq<Seq<u8>>,
    mempool: Seq<Seq<u8>>,
    reachable: bool,
    threshold: nat,
)
    requires
        job.is_active(),
        job.connected(height, txids, mempool, reachable, threshold).is_active(),
    ensures
        job.connected(height, txids, mempool, reachable, threshold).disconnected().confirmation_count
            == job.confirmation_count,
        job.connected(height, txids, mempool, reachable, threshold).disconnected().is_active(),
{
}

/// A job without confirmations whose transaction is in a new block has one
/// confirmation after it, and none again, awaiting confirmation, once the
/// block is taken away: unless one confirmation settles a job.
pub proof fn law_reorg_reverts_confirmation(
    job: JobView,
    height: u32,
    txids: Seq<Seq<u8>>,
    mempool: Seq<Seq<u8>>,
    reachable: bool,
    threshold: nat,
)
    requires
        job.is_active(),
        job.confirmation_count == 0,
        txids.contains(job.txid()),
        threshold >= 2,
    ensures
        job.connected(height, txids, mempool, reachable, threshold).confirmation_count == 1,
        job.connected(height, txids, mempool, reachable, threshold).disconnected().confirmation_count
            == 0,
        job.connected(height, txids, mempool, reachable, threshold).disconnected().status
            is AwaitingConfirmation,
{
}

/// Taking over breaches leaves the jobs that are there in their places, as
/// they are.
pub proof fn lemma_handled_all_keeps_jobs(
    responder: ResponderView,
    breaches: Seq<BreachView>,
    height: u32,
)
    ensures
        responder.handled_all(breaches, height).threshold == responder.threshold,
        responder.handled_all(breaches, height).jobs.len() >= responder.jobs.len(),
        forall|i: int|
            0 <= i < responder.jobs.len() ==> (#[trigger] responder.handled_all(
                breaches,
                height,
            ).jobs[i]) == responder.jobs[i],
    decreases breaches.len(),
{
    if breaches.len() > 0 {
        lemma_handled_all_keeps_jobs(responder, breaches.drop_last(), height);
    }
}

/// Where no user is evicted, a new block leaves every job in its place, and
/// an active job that is still active after the block has, once the block
/// is taken away again, the confirmation count it had before the block.
pub proof fn law_reorg_restores_counts(
    responder: ResponderView,
    height: u32,
    txids: Seq<Seq<u8>>,
    mempool: Seq<Seq<u8>>,
    reachable: bool,
    i: int,
)
    requires
        0 <= i < responder.jobs.len(),
        responder.jobs[i].is_active(),
        responder.jobs[i].connected(height, txids, mempool, reachable, responder.threshold).is_active(),
    ensures
        responder.connected(height, txids, mempool, Seq::empty(), reachable).jobs.len()
            == responder.jobs.len(),
        responder.connected(height, txids, mempool, Seq::empty(), reachable).jobs[i]
            == responder.jobs[i].connected(height, txids, mempool, reachable, responder.threshold),
        responder.connected(
            height,
            txids,
            mempool,
            Seq::empty(),
            reachable,
        ).disconnected().jobs[i].confirmation_count == responder.jobs[i].confirmation_count,
        responder.connected(
            height,
            txids,
            mempool,
            Seq::empty(),
            reachable,
        ).disconnected().jobs[i].id() == responder.jobs[i].id(),
{
    let make = |job: JobView| job.connected(height, txids, mempool, reachable, responder.threshold);
    let pick = responder.connect_step(height, txids, mempool, Seq::empty(), reachable);
    assert forall|job: JobView| #[trigger] pick(job) == Some(make(job)) by {
        assert(!Seq::<Seq<u8>>::empty().contains(job.user_id));
    }
    lemma_filter_map_of_all(responder.jobs, pick, make);
}

} // verus!
