//! The watcher: it keeps the appointments that wait for their breach,
//! finds the breaches in every new block and decrypts the penalty
//! transactions that answer them.

use crate::appointment::{Appointment, AppointmentId, AppointmentView, Locator, locator_of};
use crate::cryptography::{decrypt, decrypted};
use crate::ids::{TransactionId, UserId};
use crate::model::{
    contains_appointment, contains_user, lemma_filter_all, lemma_filter_empty,
    lemma_filter_map_of_none, lemma_views_add, lemma_views_push, views,
};
use crate::responder::{Breach, BreachView};
use vstd::prelude::*;

verus! {

/// An appointment as the tower keeps it: with the user who sent it, the
/// user's signature and the height at which the tower took it.
#[derive(Debug)]
pub struct ExtendedAppointment {
    pub inner: Appointment,
    pub user_id: UserId,
    pub user_signature: String,
    pub start_block: u32,
}

/// An appointment of the tower as a mathematical value.
pub struct ExtendedAppointmentView {
    pub inner: AppointmentView,
    pub user_id: Seq<u8>,
    pub user_signature: Seq<char>,
    pub start_block: u32,
}

impl View for ExtendedAppointment {
    type V = ExtendedAppointmentView;

    open spec fn view(&self) -> ExtendedAppointmentView {
        ExtendedAppointmentView {
            inner: self.inner@,
            user_id: self.user_id@,
            user_signature: self.user_signature@,
            start_block: self.start_block,
        }
    }
}

impl Clone for ExtendedAppointment {
    fn clone(&self) -> (copy: Self)
        ensures
            copy@ == self@,
    {
        ExtendedAppointment {
            inner: self.inner.clone(),
            user_id: self.user_id,
            user_signature: self.user_signature.clone(),
            start_block: self.start_block,
        }
    }
}

impl ExtendedAppointmentView {
    /// What identifies the appointment: its user and its locator.
    pub open spec fn id(self) -> (Seq<u8>, Seq<u8>) {
        (self.user_id, self.inner.locator)
    }

    /// Whether a transaction triggers the appointment: the locator is the
    /// transaction's, and the transaction's id decrypts the blob to a penalty
    /// transaction.
    pub open spec fn triggered_by(self, txid: Seq<u8>) -> bool {
        self.inner.locator == locator_of(txid) && decrypted(self.inner.encrypted_blob, txid)
            is Some
    }

    /// Whether a transaction has the appointment's locator and its id does
    /// not decrypt the blob.
    pub open spec fn failed_by(self, txid: Seq<u8>) -> bool {
        self.inner.locator == locator_of(txid) && decrypted(self.inner.encrypted_blob, txid)
            is None
    }

    /// The breach that a transaction makes of the appointment.
    pub open spec fn breach(self, txid: Seq<u8>) -> BreachView {
        BreachView {
            user_id: self.user_id,
            locator: self.inner.locator,
            penalty: decrypted(self.inner.encrypted_blob, txid).unwrap(),
        }
    }
}

impl ExtendedAppointment {
    /// An appointment of a user, taken at a height.
    pub fn new(inner: Appointment, user_id: UserId, user_signature: String, start_block: u32) -> (
        appointment: Self
    )
        ensures
            appointment.inner == inner,
            appointment.user_id == user_id,
            appointment.user_signature == user_signature,
            appointment.start_block == start_block,
    {
        ExtendedAppointment { inner, user_id, user_signature, start_block }
    }

    /// What identifies the appointment: its user and its locator.
    pub fn id(&self) -> (id: AppointmentId)
        ensures
            id@ == self@.id(),
    {
        AppointmentId { user_id: self.user_id, locator: self.inner.locator }
    }
}

/// An appointment that was handed to the responder, with the height of the
/// block that triggered it.
#[derive(Debug)]
pub struct TriggeredAppointment {
    pub appointment: ExtendedAppointment,
    pub height: u32,
}

/// A triggered appointment as a mathematical value.
pub struct TriggeredView {
    pub appointment: ExtendedAppointmentView,
    pub height: u32,
}

impl View for TriggeredAppointment {
    type V = TriggeredView;

    open spec fn view(&self) -> TriggeredView {
        TriggeredView { appointment: self.appointment@, height: self.height }
    }
}

impl Clone for TriggeredAppointment {
    fn clone(&self) -> (copy: Self)
        ensures
            copy@ == self@,
    {
        TriggeredAppointment { appointment: self.appointment.clone(), height: self.height }
    }
}

/// The appointments of a locator.
pub open spec fn of_locator(locator: Seq<u8>) -> spec_fn(ExtendedAppointmentView) -> bool {
    |a: ExtendedAppointmentView| a.inner.locator == locator
}

/// The appointments that a transaction leaves in the index: those it does
/// not trigger and, where undecryptable appointments are dropped, does not
/// fail.
pub open spec fn stays(txid: Seq<u8>, dropping: bool) -> spec_fn(ExtendedAppointmentView) -> bool {
    |a: ExtendedAppointmentView| !a.triggered_by(txid) && !(dropping && a.failed_by(txid))
}

/// The record of an appointment that a transaction triggers at a height.
pub open spec fn fires(txid: Seq<u8>, height: u32) -> spec_fn(ExtendedAppointmentView) -> Option<
    TriggeredView,
> {
    |a: ExtendedAppointmentView|
        if a.triggered_by(txid) {
            Some(TriggeredView { appointment: a, height })
        } else {
            None
        }
}

/// The breach of an appointment that a transaction triggers.
pub open spec fn breaches(txid: Seq<u8>) -> spec_fn(ExtendedAppointmentView) -> Option<
    BreachView,
> {
    |a: ExtendedAppointmentView|
        if a.triggered_by(txid) {
            Some(a.breach(txid))
        } else {
            None
        }
}

/// The id of an appointment that a transaction fails, where undecryptable
/// appointments are dropped.
pub open spec fn fails(txid: Seq<u8>, dropping: bool) -> spec_fn(ExtendedAppointmentView) -> Option<
    (Seq<u8>, Seq<u8>),
> {
    |a: ExtendedAppointmentView|
        if dropping && a.failed_by(txid) {
            Some(a.id())
        } else {
            None
        }
}

/// The appointments of users who stay.
pub open spec fn of_staying(expired: Seq<Seq<u8>>) -> spec_fn(ExtendedAppointmentView) -> bool {
    |a: ExtendedAppointmentView| !expired.contains(a.user_id)
}

/// The records of users who stay.
pub open spec fn record_of_staying(expired: Seq<Seq<u8>>) -> spec_fn(TriggeredView) -> bool {
    |t: TriggeredView| !expired.contains(t.appointment.user_id)
}

/// The records that are not among the given appointments.
pub open spec fn record_outside(ids: Seq<(Seq<u8>, Seq<u8>)>) -> spec_fn(TriggeredView) -> bool {
    |t: TriggeredView| !ids.contains(t.appointment.id())
}

/// The appointments other than the given one.
pub open spec fn other_than(id: (Seq<u8>, Seq<u8>)) -> spec_fn(ExtendedAppointmentView) -> bool {
    |a: ExtendedAppointmentView| a.id() != id
}

/// Whether taking the block of a height away brings a record back to the
/// index: it was triggered by that block and its job is not settled.
pub open spec fn comes_back(t: TriggeredView, height: u32, settled: Seq<(Seq<u8>, Seq<u8>)>) -> bool {
    t.height == height && !settled.contains(t.appointment.id())
}

/// The records that stay records when the block of a height is taken
/// away.
pub open spec fn record_stays(height: u32, settled: Seq<(Seq<u8>, Seq<u8>)>) -> spec_fn(
    TriggeredView,
) -> bool {
    |t: TriggeredView| !comes_back(t, height, settled)
}

/// The appointment of a record that comes back when the block of a height
/// is taken away.
pub open spec fn restores(height: u32, settled: Seq<(Seq<u8>, Seq<u8>)>) -> spec_fn(
    TriggeredView,
) -> Option<ExtendedAppointmentView> {
    |t: TriggeredView|
        if comes_back(t, height, settled) {
            Some(t.appointment)
        } else {
            None
        }
}

/// The watcher's tables as a mathematical value.
pub struct WatcherView {
    /// The appointments that wait for their breach, oldest first.
    pub appointments: Seq<ExtendedAppointmentView>,
    /// The appointments handed to the responder, in the order in which they
    /// were triggered.
    pub triggered: Seq<TriggeredView>,
    /// Whether an appointment that is alone under its locator is dropped
    /// when the transaction of that locator does not decrypt it.
    pub drop_invalid: bool,
}

impl WatcherView {
    /// Whether an appointment that a transaction fails is dropped: the
    /// policy says so, and no other appointment has the locator.
    pub open spec fn dropping(self, txid: Seq<u8>) -> bool {
        self.drop_invalid && self.appointments.filter(of_locator(locator_of(txid))).len() == 1
    }

    /// The tables after one more appointment was added, in place of an
    /// earlier one of the same user and locator.
    pub open spec fn added(self, appointment: ExtendedAppointmentView) -> WatcherView {
        WatcherView {
            appointments: self.appointments.filter(other_than(appointment.id())).push(appointment),
            ..self
        }
    }

    /// The tables without the data of evicted users.
    pub open spec fn evicted(self, expired: Seq<Seq<u8>>) -> WatcherView {
        WatcherView {
            appointments: self.appointments.filter(of_staying(expired)),
            triggered: self.triggered.filter(record_of_staying(expired)),
            ..self
        }
    }

    /// The tables after one transaction of a block at a height was
    /// matched: the appointments it triggers have become records, and the one
    /// it fails is gone where it is dropped.
    pub open spec fn matched(self, txid: Seq<u8>, height: u32) -> WatcherView {
        WatcherView {
            appointments: self.appointments.filter(stays(txid, self.dropping(txid))),
            triggered: self.triggered + self.appointments.filter_map(fires(txid, height)),
            ..self
        }
    }

    /// The breaches that one transaction makes, in the order of the
    /// index.
    pub open spec fn breaches_of(self, txid: Seq<u8>) -> Seq<BreachView> {
        self.appointments.filter_map(breaches(txid))
    }

    /// The appointments that one transaction shows to be invalid.
    pub open spec fn invalid_of(self, txid: Seq<u8>) -> Seq<(Seq<u8>, Seq<u8>)> {
        self.appointments.filter_map(fails(txid, self.dropping(txid)))
    }

    /// The tables after the transactions of a block at a height were
    /// matched in turn.
    pub open spec fn scanned(self, txids: Seq<Seq<u8>>, height: u32) -> WatcherView
        decreases txids.len(),
    {
        if txids.len() == 0 {
            self
        } else {
            self.scanned(txids.drop_last(), height).matched(txids.last(), height)
        }
    }

    /// The breaches that the transactions of a block make, in the order of
    /// the transactions.
    pub open spec fn breaches_by(self, txids: Seq<Seq<u8>>, height: u32) -> Seq<BreachView>
        decreases txids.len(),
    {
        if txids.len() == 0 {
            Seq::empty()
        } else {
            self.breaches_by(txids.drop_last(), height) + self.scanned(
                txids.drop_last(),
                height,
            ).breaches_of(txids.last())
        }
    }

    /// The appointments that the transactions of a block show to be
    /// invalid, in the order of the transactions.
    pub open spec fn invalid_by(self, txids: Seq<Seq<u8>>, height: u32) -> Seq<(Seq<u8>, Seq<u8>)>
        decreases txids.len(),
    {
        if txids.len() == 0 {
            Seq::empty()
        } else {
            self.invalid_by(txids.drop_last(), height) + self.scanned(
                txids.drop_last(),
                height,
            ).invalid_of(txids.last())
        }
    }

    /// The tables after a new block: the data of evicted users is gone, and
    /// the transactions of the block were matched.
    pub open spec fn connected(self, height: u32, txids: Seq<Seq<u8>>, expired: Seq<Seq<u8>>) -> WatcherView {
        self.evicted(expired).scanned(txids, height)
    }

    /// The tables after the block of a height was taken away: what that
    /// block triggered waits for its breach again, unless its job is
    /// settled.
    pub open spec fn disconnected(self, height: u32, settled: Seq<(Seq<u8>, Seq<u8>)>) -> WatcherView {
        WatcherView {
            appointments: self.appointments + self.triggered.filter_map(restores(height, settled)),
            triggered: self.triggered.filter(record_stays(height, settled)),
            ..self
        }
    }

    /// The tables without the records of resolved appointments.
    pub open spec fn forgot(self, resolved: Seq<(Seq<u8>, Seq<u8>)>) -> WatcherView {
        WatcherView { triggered: self.triggered.filter(record_outside(resolved)), ..self }
    }

    /// Whether an appointment waits for its breach.
    pub open spec fn watches(self, id: (Seq<u8>, Seq<u8>)) -> bool {
        exists|i: int| 0 <= i < self.appointments.len() && (#[trigger] self.appointments[i]).id() == id
    }
}

/// What a new block made of the watcher's appointments.
#[derive(Debug)]
pub struct WatcherReport {
    /// The decrypted penalty transactions, for the responder.
    pub breaches: Vec<Breach>,
    /// The appointments dropped because their blob did not decrypt.
    pub invalid: Vec<AppointmentId>,
}

/// The index of the appointments.
#[derive(Debug)]
pub struct Watcher {
    appointments: Vec<ExtendedAppointment>,
    triggered: Vec<TriggeredAppointment>,
    drop_invalid: bool,
}

impl View for Watcher {
    type V = WatcherView;

    closed spec fn view(&self) -> WatcherView {
        WatcherView {
            appointments: views(self.appointments@),
            triggered: views(self.triggered@),
            drop_invalid: self.drop_invalid,
        }
    }
}

impl Watcher {
    /// A watcher without appointments. With `drop_invalid`, an appointment
    /// that is alone under its locator is dropped when the transaction of
    /// that locator does not decrypt it.
    pub fn new(drop_invalid: bool) -> (watcher: Self)
        ensures
            watcher@ == (WatcherView {
                appointments: Seq::empty(),
                triggered: Seq::empty(),
                drop_invalid,
            }),
    {
        let watcher = Watcher { appointments: Vec::new(), triggered: Vec::new(), drop_invalid };
        assert(watcher@.appointments =~= Seq::empty());
        assert(watcher@.triggered =~= Seq::empty());
        watcher
    }

    /// A watcher with the given appointments and records, as they were kept
    /// before the tower stopped.
    pub fn restore(
        drop_invalid: bool,
        appointments: Vec<ExtendedAppointment>,
        triggered: Vec<TriggeredAppointment>,
    ) -> (watcher: Self)
        ensures
            watcher@ == (WatcherView {
                appointments: views(appointments@),
                triggered: views(triggered@),
                drop_invalid,
            }),
    {
        Watcher { appointments, triggered, drop_invalid }
    }

    /// The appointments that wait for their breach, oldest first.
    pub fn appointments(&self) -> (appointments: &Vec<ExtendedAppointment>)
        ensures
            views(appointments@) == self@.appointments,
    {
        &self.appointments
    }

    /// The appointments handed to the responder, in the order in which they
    /// were triggered.
    pub fn triggered(&self) -> (triggered: &Vec<TriggeredAppointment>)
        ensures
            views(triggered@) == self@.triggered,
    {
        &self.triggered
    }

    /// Whether the watcher holds no appointment, neither waiting nor handed
    /// to the responder.
    pub fn is_fresh(&self) -> (fresh: bool)
        ensures
            fresh == (self@.appointments.len() == 0 && self@.triggered.len() == 0),
    {
        self.appointments.len() == 0 && self.triggered.len() == 0
    }

    /// Whether an appointment waits for its breach.
    pub fn is_watching(&self, id: &AppointmentId) -> (found: bool)
        ensures
            found == self@.watches(id@),
    {
        let mut i: usize = 0;
        while i < self.appointments.len()
            invariant
                i <= self.appointments.len(),
                forall|j: int| 0 <= j < i ==> (#[trigger] self@.appointments[j]).id() != id@,
            decreases self.appointments.len() - i,
        {
            if self.appointments[i].user_id == id.user_id && self.appointments[i].inner.locator
                == id.locator {
                assert(self@.appointments[i as int].id() == id@);
                return true;
            }
            i = i + 1;
        }
        false
    }

    /// Adds an appointment to the index, in place of an earlier one of the
    /// same user and locator.
    pub fn add_appointment(&mut self, appointment: ExtendedAppointment)
        ensures
            final(self)@ == old(self)@.added(appointment@),
            forall|other: (Seq<u8>, Seq<u8>)| #[trigger]
                final(self)@.watches(other) == (other == appointment@.id() || old(self)@.watches(
                    other,
                )),
    {
        let ghost before = self@;
        let ghost keep = other_than(appointment@.id());
        let mut kept: Vec<ExtendedAppointment> = Vec::new();
        let mut i: usize = 0;
        while i < self.appointments.len()
            invariant
                i <= self.appointments.len(),
                self@ == before,
                keep == other_than(appointment@.id()),
                views(kept@) == before.appointments.take(i as int).filter(keep),
            decreases self.appointments.len() - i,
        {
            let current = &self.appointments[i];
            proof {
                assert(before.appointments[i as int] == current@);
                assert(before.appointments.take(i + 1) =~= before.appointments.take(i as int).push(
                    current@,
                ));
                before.appointments.take(i as int).lemma_filter_push(current@, keep);
            }
            if !(current.user_id == appointment.user_id && current.inner.locator
                == appointment.inner.locator) {
                let copy = current.clone();
                proof {
                    lemma_views_push(kept@, copy);
                }
                kept.push(copy);
            }
            i = i + 1;
        }
        proof {
            assert(before.appointments.take(i as int) =~= before.appointments);
            lemma_views_push(kept@, appointment);
        }
        let ghost added = appointment@;
        kept.push(appointment);
        self.appointments = kept;
        assert forall|other: (Seq<u8>, Seq<u8>)| #[trigger]
            self@.watches(other) == (other == added.id() || before.watches(other)) by {
            lemma_added_watches(before, added, other);
        }
    }

    /// Deletes the data of the given users.
    fn evict(&mut self, expired: &Vec<UserId>)
        ensures
            final(self)@ == old(self)@.evicted(views(expired@)),
    {
        let ghost before = self@;
        let ghost keep = of_staying(views(expired@));
        let ghost keep_record = record_of_staying(views(expired@));
        let mut kept: Vec<ExtendedAppointment> = Vec::new();
        let mut i: usize = 0;
        while i < self.appointments.len()
            invariant
                i <= self.appointments.len(),
                self@ == before,
                keep == of_staying(views(expired@)),
                views(kept@) == before.appointments.take(i as int).filter(keep),
            decreases self.appointments.len() - i,
        {
            let current = &self.appointments[i];
            proof {
                assert(before.appointments[i as int] == current@);
                assert(before.appointments.take(i + 1) =~= before.appointments.take(i as int).push(
                    current@,
                ));
                before.appointments.take(i as int).lemma_filter_push(current@, keep);
            }
            if !contains_user(expired, &current.user_id) {
                let copy = current.clone();
                proof {
                    lemma_views_push(kept@, copy);
                }
                kept.push(copy);
            }
            i = i + 1;
        }
        let mut records: Vec<TriggeredAppointment> = Vec::new();
        let mut k: usize = 0;
        while k < self.triggered.len()
            invariant
                k <= self.triggered.len(),
                self@ == before,
                keep_record == record_of_staying(views(expired@)),
                views(records@) == before.triggered.take(k as int).filter(keep_record),
            decreases self.triggered.len() - k,
        {
            let current = &self.triggered[k];
            proof {
                assert(before.triggered[k as int] == current@);
                assert(before.triggered.take(k + 1) =~= before.triggered.take(k as int).push(
                    current@,
                ));
                before.triggered.take(k as int).lemma_filter_push(current@, keep_record);
            }
            if !contains_user(expired, &current.appointment.user_id) {
                let copy = current.clone();
                proof {
                    lemma_views_push(records@, copy);
                }
                records.push(copy);
            }
            k = k + 1;
        }
        proof {
            assert(before.appointments.take(i as int) =~= before.appointments);
            assert(before.triggered.take(k as int) =~= before.triggered);
        }
        self.appointments = kept;
        self.triggered = records;
    }

    /// The number of appointments that have the given locator.
    fn count_of(&self, locator: &Locator) -> (count: usize)
        ensures
            count == self@.appointments.filter(of_locator(locator@)).len(),
    {
        let ghost all = self@.appointments;
        let ghost pick = of_locator(locator@);
        let mut count: usize = 0;
        let mut i: usize = 0;
        assert(all.take(0).filter(pick).len() == 0) by {
            reveal(Seq::filter);
        }
        while i < self.appointments.len()
            invariant
                i <= self.appointments.len(),
                all == self@.appointments,
                pick == of_locator(locator@),
                count <= i,
                count == all.take(i as int).filter(pick).len(),
            decreases self.appointments.len() - i,
        {
            proof {
                assert(all[i as int] == self.appointments@[i as int]@);
                assert(all.take(i + 1) =~= all.take(i as int).push(all[i as int]));
                all.take(i as int).lemma_filter_push(all[i as int], pick);
            }
            if self.appointments[i].inner.locator == *locator {
                count = count + 1;
            }
            i = i + 1;
        }
        proof {
            assert(all.take(i as int) =~= all);
        }
        count
    }

    /// Matches one transaction of a block at a height against the index.
    fn match_transaction(
        &mut self,
        txid: &TransactionId,
        height: u32,
        found: &mut Vec<Breach>,
        invalid: &mut Vec<AppointmentId>,
    )
        ensures
            final(self)@ == old(self)@.matched(txid@, height),
            views(final(found)@) == views(old(found)@) + old(self)@.breaches_of(txid@),
            views(final(invalid)@) == views(old(invalid)@) + old(self)@.invalid_of(txid@),
    {
        let ghost before = self@;
        let ghost all = before.appointments;
        let ghost found_before = views(found@);
        let ghost invalid_before = views(invalid@);
        let locator = Locator::new(*txid);
        let candidates = self.count_of(&locator);
        if candidates == 0 {
            proof {
                lemma_unmatched(before, txid@, height);
                assert(views(found@) + before.breaches_of(txid@) =~= views(found@));
                assert(views(invalid@) + before.invalid_of(txid@) =~= views(invalid@));
            }
            return;
        }
        let dropping = self.drop_invalid && candidates == 1;
        assert(dropping == before.dropping(txid@));
        let mut kept: Vec<ExtendedAppointment> = Vec::new();
        let mut fired: Vec<TriggeredAppointment> = Vec::new();
        let mut i: usize = 0;
        while i < self.appointments.len()
            invariant
                i <= self.appointments.len(),
                self@ == before,
                all == before.appointments,
                locator@ == locator_of(txid@),
                views(kept@) == all.take(i as int).filter(stays(txid@, dropping)),
                views(fired@) == all.take(i as int).filter_map(fires(txid@, height)),
                views(found@) == found_before + all.take(i as int).filter_map(breaches(txid@)),
                views(invalid@) == invalid_before + all.take(i as int).filter_map(
                    fails(txid@, dropping),
                ),
            decreases self.appointments.len() - i,
        {
            let current = &self.appointments[i];
            proof {
                assert(all[i as int] == current@);
                assert(all.take(i + 1) =~= all.take(i as int).push(current@));
                all.take(i as int).lemma_filter_push(current@, stays(txid@, dropping));
                all.lemma_filter_map_take_succ(fires(txid@, height), i as int);
                all.lemma_filter_map_take_succ(breaches(txid@), i as int);
                all.lemma_filter_map_take_succ(fails(txid@, dropping), i as int);
            }
            if current.inner.locator == locator {
                match decrypt(current.inner.encrypted_blob.as_slice(), txid) {
                    Ok(penalty) => {
                        let breach = Breach {
                            user_id: current.user_id,
                            locator: current.inner.locator,
                            penalty,
                        };
                        let record = TriggeredAppointment { appointment: current.clone(), height };
                        proof {
                            lemma_views_push(found@, breach);
                            lemma_views_push(fired@, record);
                            assert(views(found@).push(breach@) =~= found_before + (all.take(
                                i as int,
                            ).filter_map(breaches(txid@)) + seq![breach@]));
                        }
                        found.push(breach);
                        fired.push(record);
                    },
                    Err(_) => {
                        if dropping {
                            let id = current.id();
                            proof {
                                lemma_views_push(invalid@, id);
                                assert(views(invalid@).push(id@) =~= invalid_before + (all.take(
                                    i as int,
                                ).filter_map(fails(txid@, dropping)) + seq![id@]));
                            }
                            invalid.push(id);
                        } else {
                            let copy = current.clone();
                            proof {
                                lemma_views_push(kept@, copy);
                            }
                            kept.push(copy);
                        }
                    },
                }
            } else {
                let copy = current.clone();
                proof {
                    lemma_views_push(kept@, copy);
                }
                kept.push(copy);
            }
            i = i + 1;
        }
        proof {
            assert(all.take(i as int) =~= all);
            lemma_views_add(self.triggered@, fired@);
        }
        self.appointments = kept;
        self.triggered.append(&mut fired);
    }

    /// Applies a new block of the given height: deletes the data of the
    /// evicted users, then matches every transaction of the block, in order,
    /// against the index. Every appointment of the transaction's locator
    /// that the transaction's id decrypts leaves the index and is reported
    /// as a breach. One that it does not decrypt stays, unless it is alone
    /// under the locator and such appointments are dropped.
    pub fn on_block_connected(
        &mut self,
        height: u32,
        txids: &Vec<TransactionId>,
        expired_users: &Vec<UserId>,
    ) -> (report: WatcherReport)
        ensures
            final(self)@ == old(self)@.connected(height, views(txids@), views(expired_users@)),
            views(report.breaches@) == old(self)@.evicted(views(expired_users@)).breaches_by(
                views(txids@),
                height,
            ),
            views(report.invalid@) == old(self)@.evicted(views(expired_users@)).invalid_by(
                views(txids@),
                height,
            ),
    {
        self.evict(expired_users);
        let ghost start = self@;
        let ghost block = views(txids@);
        let mut found: Vec<Breach> = Vec::new();
        let mut invalid: Vec<AppointmentId> = Vec::new();
        assert(views(found@) =~= Seq::empty());
        assert(views(invalid@) =~= Seq::empty());
        let mut i: usize = 0;
        while i < txids.len()
            invariant
                i <= txids.len(),
                block == views(txids@),
                self@ == start.scanned(block.take(i as int), height),
                views(found@) == start.breaches_by(block.take(i as int), height),
                views(invalid@) == start.invalid_by(block.take(i as int), height),
            decreases txids.len() - i,
        {
            proof {
                assert(block.take(i + 1).drop_last() =~= block.take(i as int));
                assert(block.take(i + 1).last() == txids@[i as int]@);
            }
            self.match_transaction(&txids[i], height, &mut found, &mut invalid);
            i = i + 1;
        }
        proof {
            assert(block.take(i as int) =~= block);
        }
        WatcherReport { breaches: found, invalid }
    }

    /// Takes the block of the given height away: the appointments that the
    /// block had triggered wait for their breach again, unless their job is
    /// among the settled ones.
    pub fn on_block_disconnected(&mut self, height: u32, settled: &Vec<AppointmentId>)
        ensures
            final(self)@ == old(self)@.disconnected(height, views(settled@)),
    {
        let ghost before = self@;
        let ghost done = views(settled@);
        let mut records: Vec<TriggeredAppointment> = Vec::new();
        let mut back: Vec<ExtendedAppointment> = Vec::new();
        let mut i: usize = 0;
        while i < self.triggered.len()
            invariant
                i <= self.triggered.len(),
                self@ == before,
                done == views(settled@),
                views(records@) == before.triggered.take(i as int).filter(
                    record_stays(height, done),
                ),
                views(back@) == before.triggered.take(i as int).filter_map(restores(height, done)),
            decreases self.triggered.len() - i,
        {
            let current = &self.triggered[i];
            proof {
                assert(before.triggered[i as int] == current@);
                assert(before.triggered.take(i + 1) =~= before.triggered.take(i as int).push(
                    current@,
                ));
                before.triggered.take(i as int).lemma_filter_push(
                    current@,
                    record_stays(height, done),
                );
                before.triggered.lemma_filter_map_take_succ(restores(height, done), i as int);
            }
            let id = current.appointment.id();
            if current.height == height && !contains_appointment(settled, &id) {
                let copy = current.appointment.clone();
                proof {
                    lemma_views_push(back@, copy);
                }
                back.push(copy);
            } else {
                let copy = current.clone();
                proof {
                    lemma_views_push(records@, copy);
                }
                records.push(copy);
            }
            i = i + 1;
        }
        proof {
            assert(before.triggered.take(i as int) =~= before.triggered);
            lemma_views_add(self.appointments@, back@);
        }
        self.triggered = records;
        self.appointments.append(&mut back);
    }

    /// Forgets the records of the resolved appointments.
    pub fn forget(&mut self, resolved: &Vec<AppointmentId>)
        ensures
            final(self)@ == old(self)@.forgot(views(resolved@)),
    {
        let ghost before = self@;
        let ghost keep = record_outside(views(resolved@));
        let mut records: Vec<TriggeredAppointment> = Vec::new();
        let mut i: usize = 0;
        while i < self.triggered.len()
            invariant
                i <= self.triggered.len(),
                self@ == before,
                keep == record_outside(views(resolved@)),
                views(records@) == before.triggered.take(i as int).filter(keep),
            decreases self.triggered.len() - i,
        {
            let current = &self.triggered[i];
            proof {
                assert(before.triggered[i as int] == current@);
                assert(before.triggered.take(i + 1) =~= before.triggered.take(i as int).push(
                    current@,
                ));
                before.triggered.take(i as int).lemma_filter_push(current@, keep);
            }
            let id = current.appointment.id();
            if !contains_appointment(resolved, &id) {
                let copy = current.clone();
                proof {
                    lemma_views_push(records@, copy);
                }
                records.push(copy);
            }
            i = i + 1;
        }
        proof {
            assert(before.triggered.take(i as int) =~= before.triggered);
        }
        self.triggered = records;
    }
}

/// After an appointment was added, the watcher watches it and whatever
/// else it watched before.
pub proof fn lemma_added_watches(
    watcher: WatcherView,
    appointment: ExtendedAppointmentView,
    other: (Seq<u8>, Seq<u8>),
)
    ensures
        watcher.added(appointment).watches(other) == (other == appointment.id() || watcher.watches(
            other,
        )),
{
    let keep = other_than(appointment.id());
    let kept = watcher.appointments.filter(keep);
    let after = watcher.added(appointment);
    assert(after.appointments == kept.push(appointment));
    if other == appointment.id() {
        assert(after.appointments[kept.len() as int].id() == other);
    } else if watcher.watches(other) {
        let i = choose|i: int|
            0 <= i < watcher.appointments.len() && (#[trigger] watcher.appointments[i]).id()
                == other;
        watcher.appointments.lemma_filter_contains(keep, i);
        let k = choose|k: int| 0 <= k < kept.len() && kept[k] == watcher.appointments[i];
        assert(after.appointments[k].id() == other);
    } else if after.watches(other) {
        let k = choose|k: int|
            0 <= k < after.appointments.len() && (#[trigger] after.appointments[k]).id() == other;
        assert(k < kept.len());
        assert(kept.contains(kept[k]));
        watcher.appointments.lemma_filter_contains_rev(keep, kept[k]);
        let i = choose|i: int|
            0 <= i < watcher.appointments.len() && watcher.appointments[i] == kept[k];
        assert(watcher.appointments[i].id() == other);
    }
}

/// A transaction whose locator no appointment has changes nothing and
/// makes no breach.
pub proof fn lemma_unmatched(watcher: WatcherView, txid: Seq<u8>, height: u32)
    requires
        watcher.appointments.filter(of_locator(locator_of(txid))).len() == 0,
    ensures
        watcher.matched(txid, height) == watcher,
        watcher.breaches_of(txid) == Seq::<BreachView>::empty(),
        watcher.invalid_of(txid) == Seq::<(Seq<u8>, Seq<u8>)>::empty(),
{
    let all = watcher.appointments;
    lemma_filter_empty(all, of_locator(locator_of(txid)));
    assert forall|i: int| 0 <= i < all.len() implies (#[trigger] all[i]).inner.locator
        != locator_of(txid) by {
        assert(!of_locator(locator_of(txid))(all[i]));
    }
    lemma_filter_all(all, stays(txid, watcher.dropping(txid)));
    lemma_filter_map_of_none(all, fires(txid, height));
    lemma_filter_map_of_none(all, breaches(txid));
    lemma_filter_map_of_none(all, fails(txid, watcher.dropping(txid)));
    assert(watcher.triggered + Seq::<TriggeredView>::empty() =~= watcher.triggered);
}

} // verus!
