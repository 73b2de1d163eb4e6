//! The tower: watcher, responder and gatekeeper, which take every block
//! event in that order.

use crate::appointment::{Appointment, AppointmentId, AppointmentStatus};
use crate::cryptography::message_signer;
use crate::gatekeeper::{slots_for, AdmissionError, Gatekeeper, GatekeeperView, Subscription};
use crate::ids::{TransactionId, UserId};
use crate::model::{lemma_views_add, views};
use crate::responder::{
    law_reorg_restores_counts, lemma_handled_all_keeps_jobs, Breach, BreachView, Responder,
    ResponderView,
};
use crate::watcher::{ExtendedAppointment, ExtendedAppointmentView, Watcher, WatcherView};
use vstd::prelude::*;

verus! {

/// What the tower reads of a block: its height and the ids of its
/// transactions, in their order in the block.
#[derive(Debug)]
pub struct Block {
    pub height: u32,
    pub txids: Vec<TransactionId>,
}

/// A block as a mathematical value.
pub struct BlockView {
    pub height: u32,
    pub txids: Seq<Seq<u8>>,
}

impl View for Block {
    type V = BlockView;

    open spec fn view(&self) -> BlockView {
        BlockView { height: self.height, txids: views(self.txids@) }
    }
}

/// The tower as a mathematical value.
pub struct TowerView {
    pub watcher: WatcherView,
    pub responder: ResponderView,
    pub gatekeeper: GatekeeperView,
}

impl TowerView {
    /// What holds of every tower: its responder and its gatekeeper are well
    /// formed.
    pub open spec fn wf(self) -> bool {
        self.responder.wf() && self.gatekeeper.wf()
    }

    /// The users whose data a block deletes.
    pub open spec fn expired_at(self, block: BlockView) -> Seq<Seq<u8>> {
        self.gatekeeper.outdated(block.height)
    }

    /// The breaches that the watcher finds in a block.
    pub open spec fn breaches_in(self, block: BlockView) -> Seq<BreachView> {
        self.watcher.evicted(self.expired_at(block)).breaches_by(block.txids, block.height)
    }

    /// The responder once it has taken over the breaches of a block.
    pub open spec fn alerted_by(self, block: BlockView) -> ResponderView {
        self.responder.handled_all(self.breaches_in(block), block.height)
    }

    /// The appointments whose jobs a block settles.
    pub open spec fn settled_in(self, block: BlockView) -> Seq<(Seq<u8>, Seq<u8>)> {
        self.alerted_by(block).resolved_by(block.txids, self.expired_at(block))
    }

    /// The appointments that a block resolves for good: those whose job it
    /// settles, and those that the watcher drops as invalid.
    pub open spec fn resolved_in(self, block: BlockView) -> Seq<(Seq<u8>, Seq<u8>)> {
        self.settled_in(block) + self.watcher.evicted(self.expired_at(block)).invalid_by(
            block.txids,
            block.height,
        )
    }

    /// The tower after a new block. The watcher matches the block; the
    /// responder takes over the watcher's breaches and applies the block to
    /// its jobs; the watcher forgets what the responder settled; last, the
    /// gatekeeper gives back the slots of what was resolved and deletes the
    /// users whose time is over.
    pub open spec fn connected(
        self,
        block: BlockView,
        mempool: Seq<Seq<u8>>,
        reachable: bool,
    ) -> TowerView {
        let expired = self.expired_at(block);
        TowerView {
            watcher: self.watcher.connected(block.height, block.txids, expired).forgot(
                self.settled_in(block),
            ),
            responder: self.alerted_by(block).connected(
                block.height,
                block.txids,
                mempool,
                expired,
                reachable,
            ),
            gatekeeper: self.gatekeeper.connected(block.height, self.resolved_in(block), expired),
        }
    }

    /// The penalty transactions to submit after a new block: those of the
    /// breaches found in the block, and those that the responder hands out
    /// again, in the order of their jobs.
    pub open spec fn broadcasts_at(
        self,
        block: BlockView,
        mempool: Seq<Seq<u8>>,
        reachable: bool,
    ) -> Seq<BreachView> {
        self.alerted_by(block).broadcasts_by(
            block.txids,
            mempool,
            self.expired_at(block),
            reachable,
        )
    }

    /// The tower after the block of a height was taken away.
    pub open spec fn disconnected(self, height: u32) -> TowerView {
        TowerView {
            watcher: self.watcher.disconnected(height, self.responder.settled()),
            responder: self.responder.disconnected(),
            gatekeeper: self.gatekeeper.disconnected(height),
        }
    }

    /// The tower after a list of blocks, each applied in turn.
    pub open spec fn connected_all(
        self,
        blocks: Seq<BlockView>,
        mempool: Seq<Seq<u8>>,
        reachable: bool,
    ) -> TowerView
        decreases blocks.len(),
    {
        if blocks.len() == 0 {
            self
        } else {
            self.connected_all(blocks.drop_last(), mempool, reachable).connected(
                blocks.last(),
                mempool,
                reachable,
            )
        }
    }

    /// The penalty transactions to submit after a list of blocks, in the
    /// order of the blocks.
    pub open spec fn broadcasts_all(
        self,
        blocks: Seq<BlockView>,
        mempool: Seq<Seq<u8>>,
        reachable: bool,
    ) -> Seq<BreachView>
        decreases blocks.len(),
    {
        if blocks.len() == 0 {
            Seq::empty()
        } else {
            self.broadcasts_all(blocks.drop_last(), mempool, reachable) + self.connected_all(
                blocks.drop_last(),
                mempool,
                reachable,
            ).broadcasts_at(blocks.last(), mempool, reachable)
        }
    }

    /// What the tower knows of an appointment.
    pub open spec fn status(self, id: (Seq<u8>, Seq<u8>)) -> AppointmentStatus {
        if self.watcher.watches(id) {
            AppointmentStatus::BeingWatched
        } else if self.responder.has_job(id) {
            AppointmentStatus::DisputeResponded
        } else {
            AppointmentStatus::NotFound
        }
    }

    /// The appointment that the tower keeps for what a user sent.
    pub open spec fn extended(
        user_id: Seq<u8>,
        appointment: crate::appointment::AppointmentView,
        signature: Seq<char>,
        start_block: u32,
    ) -> ExtendedAppointmentView {
        ExtendedAppointmentView {
            inner: appointment,
            user_id,
            user_signature: signature,
            start_block,
        }
    }

    /// The tower after a user asked for an appointment whose signer is
    /// known: where the gatekeeper takes it, its slots are held and the
    /// watcher has it in its index.
    pub open spec fn asked(
        self,
        user_id: Seq<u8>,
        signer: Option<Seq<u8>>,
        appointment: crate::appointment::AppointmentView,
        signature: Seq<char>,
    ) -> TowerView {
        let blob_len = appointment.encrypted_blob.len();
        match self.gatekeeper.admission(user_id, signer, appointment.locator, blob_len) {
            Ok(start_block) => TowerView {
                watcher: self.watcher.added(
                    Self::extended(user_id, appointment, signature, start_block),
                ),
                gatekeeper: self.gatekeeper.admitted(
                    user_id,
                    signer,
                    appointment.locator,
                    blob_len,
                ),
                ..self
            },
            Err(_) => self,
        }
    }
}

/// Applying a list of blocks and then another is applying the two lists
/// joined: blocks can be applied one by one as they come, or many at once,
/// with the same outcome.
pub proof fn law_batches_compose(
    tower: TowerView,
    first: Seq<BlockView>,
    second: Seq<BlockView>,
    mempool: Seq<Seq<u8>>,
    reachable: bool,
)
    ensures
        tower.connected_all(first + second, mempool, reachable) == tower.connected_all(
            first,
            mempool,
            reachable,
        ).connected_all(second, mempool, reachable),
    decreases second.len(),
{
    if second.len() == 0 {
        assert(first + second =~= first);
    } else {
        assert((first + second).drop_last() =~= first + second.drop_last());
        assert((first + second).last() == second.last());
        law_batches_compose(tower, first, second.drop_last(), mempool, reachable);
    }
}

/// Applying a list of one block is applying the block.
pub proof fn law_batch_of_one(
    tower: TowerView,
    block: BlockView,
    mempool: Seq<Seq<u8>>,
    reachable: bool,
)
    ensures
        tower.connected_all(seq![block], mempool, reachable) == tower.connected(
            block,
            mempool,
            reachable,
        ),
{
    assert(seq![block].drop_last() =~= Seq::<BlockView>::empty());
    assert(tower.connected_all(Seq::<BlockView>::empty(), mempool, reachable) == tower);
}

/// Where a block deletes no user, the jobs that the tower tracks keep
/// their places through the block, and an active job that is still active
/// after the block has, once the block is taken away again, the
/// confirmation count it had before the block.
pub proof fn law_reorg_restores_confirmations(
    tower: TowerView,
    block: BlockView,
    mempool: Seq<Seq<u8>>,
    reachable: bool,
    i: int,
)
    requires
        tower.expired_at(block).len() == 0,
        0 <= i < tower.responder.jobs.len(),
        tower.responder.jobs[i].is_active(),
        tower.responder.jobs[i].connected(
            block.height,
            block.txids,
            mempool,
            reachable,
            tower.responder.threshold,
        ).is_active(),
    ensures
        i < tower.connected(block, mempool, reachable).disconnected(
            block.height,
        ).responder.jobs.len(),
        tower.connected(block, mempool, reachable).disconnected(
            block.height,
        ).responder.jobs[i].confirmation_count == tower.responder.jobs[i].confirmation_count,
        tower.connected(block, mempool, reachable).disconnected(
            block.height,
        ).responder.jobs[i].id() == tower.responder.jobs[i].id(),
{
    let expired = tower.expired_at(block);
    assert(expired =~= Seq::<Seq<u8>>::empty());
    lemma_handled_all_keeps_jobs(tower.responder, tower.breaches_in(block), block.height);
    law_reorg_restores_counts(
        tower.alerted_by(block),
        block.height,
        block.txids,
        mempool,
        reachable,
        i,
    );
}

/// The watcher, the responder and the gatekeeper of one tower.
#[derive(Debug)]
pub struct Tower {
    pub watcher: Watcher,
    pub responder: Responder,
    pub gatekeeper: Gatekeeper,
}

impl View for Tower {
    type V = TowerView;

    open spec fn view(&self) -> TowerView {
        TowerView {
            watcher: self.watcher@,
            responder: self.responder@,
            gatekeeper: self.gatekeeper@,
        }
    }
}

impl Tower {
    /// A tower of the given parts.
    pub fn new(watcher: Watcher, responder: Responder, gatekeeper: Gatekeeper) -> (tower: Self)
        ensures
            tower.watcher == watcher,
            tower.responder == responder,
            tower.gatekeeper == gatekeeper,
    {
        Tower { watcher, responder, gatekeeper }
    }

    /// Whether the tower holds no data at all: no appointment, no job and
    /// no subscription.
    pub fn is_fresh(&self) -> (fresh: bool)
        ensures
            fresh == (self@.watcher.appointments.len() == 0 && self@.watcher.triggered.len() == 0
                && self@.responder.jobs.len() == 0 && self@.gatekeeper.subscriptions.len() == 0),
    {
        self.watcher.is_fresh() && self.responder.is_fresh() && self.gatekeeper.is_fresh()
    }

    /// Registers a user with the gatekeeper.
    pub fn register(&mut self, user_id: &UserId) -> (subscription: Subscription)
        requires
            old(self)@.wf(),
        ensures
            final(self)@ == (TowerView {
                gatekeeper: old(self)@.gatekeeper.registered(user_id@),
                ..old(self)@
            }),
            final(self)@.wf(),
            subscription@ == old(self)@.gatekeeper.fresh(user_id@),
    {
        self.gatekeeper.register(user_id)
    }

    /// Takes an appointment of which the signer is known, where the
    /// gatekeeper lets it in, and gives the height from which it is
    /// watched.
    pub fn accept_appointment(
        &mut self,
        user_id: &UserId,
        signer: Option<UserId>,
        appointment: Appointment,
        signature: String,
    ) -> (r: Result<u32, AdmissionError>)
        requires
            old(self)@.wf(),
        ensures
            r == old(self)@.gatekeeper.admission(
                user_id@,
                crate::gatekeeper::signer_view(signer),
                appointment@.locator,
                appointment@.encrypted_blob.len(),
            ),
            final(self)@ == old(self)@.asked(
                user_id@,
                crate::gatekeeper::signer_view(signer),
                appointment@,
                signature@,
            ),
            final(self)@.wf(),
            r is Ok ==> final(self)@.status((user_id@, appointment@.locator))
                is BeingWatched,
            r is Ok ==> final(self)@.gatekeeper.subscription(user_id@) == Some(
                old(self)@.gatekeeper.subscription(user_id@).unwrap().admitted(
                    appointment@.locator,
                    slots_for(appointment@.encrypted_blob.len()),
                ),
            ),
    {
        match self.gatekeeper.accept(
            user_id,
            signer,
            &appointment.locator,
            appointment.encrypted_blob.len(),
        ) {
            Ok(start_block) => {
                self.watcher.add_appointment(
                    ExtendedAppointment::new(appointment, *user_id, signature, start_block),
                );
                Ok(start_block)
            },
            Err(e) => Err(e),
        }
    }

    /// Takes an appointment that comes with the user's signature over its
    /// bytes, where the gatekeeper lets it in, and gives the height from
    /// which it is watched.
    pub fn add_appointment(
        &mut self,
        user_id: &UserId,
        appointment: Appointment,
        signature: String,
    ) -> (r: Result<u32, AdmissionError>)
        requires
            old(self)@.wf(),
        ensures
            r == old(self)@.gatekeeper.admission(
                user_id@,
                message_signer(appointment@.serialized(), signature@),
                appointment@.locator,
                appointment@.encrypted_blob.len(),
            ),
            final(self)@ == old(self)@.asked(
                user_id@,
                message_signer(appointment@.serialized(), signature@),
                appointment@,
                signature@,
            ),
            final(self)@.wf(),
            r is Ok ==> final(self)@.status((user_id@, appointment@.locator))
                is BeingWatched,
            r is Ok ==> final(self)@.gatekeeper.subscription(user_id@) == Some(
                old(self)@.gatekeeper.subscription(user_id@).unwrap().admitted(
                    appointment@.locator,
                    slots_for(appointment@.encrypted_blob.len()),
                ),
            ),
    {
        match self.gatekeeper.authenticate_and_admit(user_id, &appointment, signature.as_str()) {
            Ok(start_block) => {
                self.watcher.add_appointment(
                    ExtendedAppointment::new(appointment, *user_id, signature, start_block),
                );
                Ok(start_block)
            },
            Err(e) => Err(e),
        }
    }

    /// What the tower knows of an appointment: whether it waits for its
    /// breach, was answered, or is unknown.
    pub fn appointment_status(&self, id: &AppointmentId) -> (status: AppointmentStatus)
        ensures
            status == self@.status(id@),
    {
        if self.watcher.is_watching(id) {
            AppointmentStatus::BeingWatched
        } else if self.responder.has_job(id) {
            AppointmentStatus::DisputeResponded
        } else {
            AppointmentStatus::NotFound
        }
    }

    /// Takes note of how the submission of a penalty transaction went.
    pub fn on_broadcast_result(&mut self, id: &AppointmentId, accepted: bool)
        requires
            old(self)@.wf(),
        ensures
            final(self)@ == (TowerView {
                responder: old(self)@.responder.answered(id@, accepted),
                ..old(self)@
            }),
            final(self)@.wf(),
    {
        self.responder.on_broadcast_result(id, accepted);
    }

    /// Takes note of the confirmations that the chain source counts for the
    /// penalty transaction of an appointment, after blocks were taken away
    /// that may have held it.
    pub fn revalidate(&mut self, id: &AppointmentId, confirmations: u32)
        requires
            old(self)@.wf(),
        ensures
            final(self)@ == (TowerView {
                responder: old(self)@.responder.revalidated(id@, confirmations),
                ..old(self)@
            }),
            final(self)@.wf(),
    {
        self.responder.revalidate(id, confirmations);
    }

    /// Applies a new block to the watcher, the responder and the
    /// gatekeeper, in that order, and gives the penalty transactions to
    /// submit.
    pub fn on_block_connected(
        &mut self,
        block: &Block,
        mempool: &Vec<TransactionId>,
        reachable: bool,
    ) -> (broadcasts: Vec<Breach>)
        requires
            old(self)@.wf(),
        ensures
            final(self)@ == old(self)@.connected(block@, views(mempool@), reachable),
            final(self)@.wf(),
            views(broadcasts@) == old(self)@.broadcasts_at(block@, views(mempool@), reachable),
    {
        let expired = self.gatekeeper.outdated_users(block.height);
        let watched = self.watcher.on_block_connected(block.height, &block.txids, &expired);
        self.responder.handle_breaches(&watched.breaches, block.height);
        let report = self.responder.on_block_connected(
            block.height,
            &block.txids,
            mempool,
            &expired,
            reachable,
        );
        let broadcasts = report.broadcasts;
        self.watcher.forget(&report.resolved);
        let mut resolved = report.resolved;
        let mut invalid = watched.invalid;
        proof {
            lemma_views_add(resolved@, invalid@);
        }
        resolved.append(&mut invalid);
        self.gatekeeper.on_block_connected(block.height, &resolved, &expired);
        broadcasts
    }

    /// Takes the block of the given height away from the watcher, the
    /// responder and the gatekeeper, in that order.
    pub fn on_block_disconnected(&mut self, height: u32)
        requires
            old(self)@.wf(),
        ensures
            final(self)@ == old(self)@.disconnected(height),
            final(self)@.wf(),
    {
        let settled = self.responder.settled();
        self.watcher.on_block_disconnected(height, &settled);
        self.responder.on_block_disconnected();
        self.gatekeeper.on_block_disconnected(height);
    }

    /// Applies a list of blocks, each as `on_block_connected` does, and
    /// gives the penalty transactions to submit, in the order of the
    /// blocks.
    pub fn connect_blocks(
        &mut self,
        blocks: &Vec<Block>,
        mempool: &Vec<TransactionId>,
        reachable: bool,
    ) -> (broadcasts: Vec<Breach>)
        requires
            old(self)@.wf(),
        ensures
            final(self)@ == old(self)@.connected_all(views(blocks@), views(mempool@), reachable),
            final(self)@.wf(),
            views(broadcasts@) == old(self)@.broadcasts_all(
                views(blocks@),
                views(mempool@),
                reachable,
            ),
    {
        let ghost before = self@;
        let ghost all = views(blocks@);
        let ghost pool = views(mempool@);
        let mut broadcasts: Vec<Breach> = Vec::new();
        assert(views(broadcasts@) =~= Seq::empty());
        let mut i: usize = 0;
        while i < blocks.len()
            invariant
                i <= blocks.len(),
                all == views(blocks@),
                pool == views(mempool@),
                self@.wf(),
                self@ == before.connected_all(all.take(i as int), pool, reachable),
                views(broadcasts@) == before.broadcasts_all(all.take(i as int), pool, reachable),
            decreases blocks.len() - i,
        {
            proof {
                assert(all.take(i + 1).drop_last() =~= all.take(i as int));
                assert(all.take(i + 1).last() == blocks@[i as int]@);
            }
            let mut more = self.on_block_connected(&blocks[i], mempool, reachable);
            proof {
                lemma_views_add(broadcasts@, more@);
            }
            broadcasts.append(&mut more);
            i = i + 1;
        }
        proof {
            assert(all.take(i as int) =~= all);
        }
        broadcasts
    }
}

} // verus!
