//! The gatekeeper: who may hand appointments to the tower, and how many
//! slots each subscriber has left.

use crate::appointment::{Appointment, AppointmentId, Locator};
use crate::cryptography::{message_signer, recover_signer};
use crate::ids::UserId;
use crate::model::{
    contains_appointment, contains_user, lemma_filter_all, lemma_filter_twice, lemma_views_push,
    views,
};
use vstd::prelude::*;

verus! {

/// The number of bytes of an encrypted blob that one slot pays for.
pub const SLOT_SIZE: usize = 2048;

/// The number of slots that an encrypted blob of the given length costs:
/// its length in slots, rounded up.
pub open spec fn slots_for(blob_len: nat) -> nat {
    if blob_len % 2048 == 0 {
        blob_len / 2048
    } else {
        blob_len / 2048 + 1
    }
}

/// Why the tower does not take an appointment.
#[derive(Debug, Clone, Copy, PartialEq, Eq, Structural)]
pub enum AdmissionError {
    /// The signature is not one of a registered user.
    Unauthenticated,
    /// The user has fewer slots left than the appointment costs.
    NotEnoughSlots,
    /// The user's subscription has run out.
    SubscriptionExpired,
}

/// The slots that one appointment of a user holds.
#[derive(Debug, Clone, Copy)]
pub struct Reservation {
    pub locator: Locator,
    pub slots: u32,
}

/// A reservation as a mathematical value.
pub struct ReservationView {
    pub locator: Seq<u8>,
    pub slots: nat,
}

impl View for Reservation {
    type V = ReservationView;

    open spec fn view(&self) -> ReservationView {
        ReservationView { locator: self.locator@, slots: self.slots as nat }
    }
}

/// The slots that a list of reservations holds in all.
pub open spec fn total_slots(reservations: Seq<ReservationView>) -> nat
    decreases reservations.len(),
{
    if reservations.len() == 0 {
        0
    } else {
        total_slots(reservations.drop_last()) + reservations.last().slots
    }
}

/// A list with one more reservation holds the slots of the list and those
/// of the reservation.
pub proof fn lemma_total_push(reservations: Seq<ReservationView>, reservation: ReservationView)
    ensures
        total_slots(reservations.push(reservation)) == total_slots(reservations)
            + reservation.slots,
{
    assert(reservations.push(reservation).drop_last() =~= reservations);
}

/// The first reservations of a list hold no more slots than the list.
pub proof fn lemma_total_take(reservations: Seq<ReservationView>, n: int)
    requires
        0 <= n <= reservations.len(),
    ensures
        total_slots(reservations.take(n)) <= total_slots(reservations),
    decreases reservations.len() - n,
{
    if n == reservations.len() {
        assert(reservations.take(n) =~= reservations);
    } else {
        lemma_total_take(reservations, n + 1);
        assert(reservations.take(n + 1) =~= reservations.take(n).push(reservations[n]));
        lemma_total_push(reservations.take(n), reservations[n]);
    }
}

/// The reservations picked out of a list hold no more slots than the
/// list.
pub proof fn lemma_total_filter(
    reservations: Seq<ReservationView>,
    keep: spec_fn(ReservationView) -> bool,
)
    ensures
        total_slots(reservations.filter(keep)) <= total_slots(reservations),
    decreases reservations.len(),
{
    if reservations.len() == 0 {
        assert(reservations.filter(keep) =~= reservations) by {
            reveal(Seq::filter);
        }
    } else {
        let rest = reservations.drop_last();
        assert(reservations =~= rest.push(reservations.last()));
        rest.lemma_filter_push(reservations.last(), keep);
        lemma_total_filter(rest, keep);
        lemma_total_push(rest.filter(keep), reservations.last());
    }
}

/// The subscription of one user.
#[derive(Debug)]
pub struct Subscription {
    pub user_id: UserId,
    /// The slots that the user can still spend.
    pub available_slots: u32,
    /// The height from which on the tower takes no appointment of the
    /// user.
    pub subscription_expiry: u64,
    /// The slots held by the appointments of the user that are neither
    /// resolved nor evicted.
    pub appointments: Vec<Reservation>,
}

/// A subscription as a mathematical value.
pub struct SubscriptionView {
    pub user_id: Seq<u8>,
    pub available_slots: nat,
    pub subscription_expiry: nat,
    pub appointments: Seq<ReservationView>,
}

impl View for Subscription {
    type V = SubscriptionView;

    open spec fn view(&self) -> SubscriptionView {
        SubscriptionView {
            user_id: self.user_id@,
            available_slots: self.available_slots as nat,
            subscription_expiry: self.subscription_expiry as nat,
            appointments: views(self.appointments@),
        }
    }
}

impl Clone for Subscription {
    fn clone(&self) -> (copy: Self)
        ensures
            copy@ == self@,
    {
        let appointments = self.appointments.clone();
        assert(appointments@ =~= self.appointments@);
        Subscription {
            user_id: self.user_id,
            available_slots: self.available_slots,
            subscription_expiry: self.subscription_expiry,
            appointments,
        }
    }
}

/// The reservations of a user that a list of resolved appointments leaves
/// in place.
pub open spec fn unresolved(user_id: Seq<u8>, resolved: Seq<(Seq<u8>, Seq<u8>)>) -> spec_fn(
    ReservationView,
) -> bool {
    |reservation: ReservationView| !resolved.contains((user_id, reservation.locator))
}

impl SubscriptionView {
    /// The slots that the user's appointments hold.
    pub open spec fn reserved(self) -> nat {
        total_slots(self.appointments)
    }

    /// The slots that the user was granted: those left and those held.
    pub open spec fn granted(self) -> nat {
        self.available_slots + self.reserved()
    }

    /// Whether the subscription ran out so long before `height` that the
    /// user's data is deleted.
    pub open spec fn is_outdated(self, expiry_delta: nat, height: nat) -> bool {
        self.subscription_expiry + expiry_delta < height
    }

    /// The subscription once the given appointments are resolved: their
    /// reservations are gone and their slots can be spent again.
    pub open spec fn released(self, resolved: Seq<(Seq<u8>, Seq<u8>)>) -> SubscriptionView {
        let kept = self.appointments.filter(unresolved(self.user_id, resolved));
        SubscriptionView {
            appointments: kept,
            available_slots: (self.granted() - total_slots(kept)) as nat,
            ..self
        }
    }

    /// The subscription once the user's data is deleted: no reservation is
    /// left, and every slot granted can be spent.
    pub open spec fn purged(self) -> SubscriptionView {
        SubscriptionView {
            appointments: Seq::empty(),
            available_slots: self.granted(),
            ..self
        }
    }

    /// The slots that an appointment of the given locator and cost can
    /// draw on: those left and those that an earlier appointment of the same
    /// locator holds.
    pub open spec fn spendable(self, locator: Seq<u8>) -> nat {
        self.released(seq![(self.user_id, locator)]).available_slots
    }

    /// The subscription once an appointment of the given locator and cost
    /// is taken: it holds its cost, in place of what an earlier appointment
    /// of the same locator held.
    pub open spec fn admitted(self, locator: Seq<u8>, cost: nat) -> SubscriptionView {
        let freed = self.released(seq![(self.user_id, locator)]);
        SubscriptionView {
            appointments: freed.appointments.push(ReservationView { locator, slots: cost }),
            available_slots: (freed.available_slots - cost) as nat,
            ..freed
        }
    }
}

/// Where no appointment is resolved, a subscription stays as it is.
pub proof fn lemma_released_nothing(
    subscription: SubscriptionView,
    resolved: Seq<(Seq<u8>, Seq<u8>)>,
)
    requires
        resolved.len() == 0,
    ensures
        subscription.released(resolved) == subscription,
{
    lemma_filter_all(subscription.appointments, unresolved(subscription.user_id, resolved));
}

/// Releasing resolved appointments leaves the slots granted as they are.
pub proof fn lemma_released_keeps_grant(
    subscription: SubscriptionView,
    resolved: Seq<(Seq<u8>, Seq<u8>)>,
)
    ensures
        subscription.released(resolved).granted() == subscription.granted(),
        subscription.released(resolved).available_slots >= subscription.available_slots,
{
    lemma_total_filter(subscription.appointments, unresolved(subscription.user_id, resolved));
}

impl Subscription {
    /// The subscription once the given appointments are resolved.
    fn release(&self, resolved: &Vec<AppointmentId>) -> (after: Subscription)
        requires
            self@.granted() <= u32::MAX,
        ensures
            after@ == self@.released(views(resolved@)),
    {
        let ghost keep = unresolved(self.user_id@, views(resolved@));
        let ghost all = views(self.appointments@);
        let mut kept: Vec<Reservation> = Vec::new();
        let mut freed: u32 = 0;
        let mut i: usize = 0;
        while i < self.appointments.len()
            invariant
                i <= self.appointments.len(),
                all == views(self.appointments@),
                keep == unresolved(self.user_id@, views(resolved@)),
                self@.granted() <= u32::MAX,
                views(kept@) == all.take(i as int).filter(keep),
                total_slots(views(kept@)) + freed == total_slots(all.take(i as int)),
            decreases self.appointments.len() - i,
        {
            let reservation = self.appointments[i];
            let id = AppointmentId { user_id: self.user_id, locator: reservation.locator };
            proof {
                assert(all[i as int] == reservation@);
                assert(all.take(i + 1) =~= all.take(i as int).push(all[i as int]));
                all.take(i as int).lemma_filter_push(all[i as int], keep);
                lemma_total_push(all.take(i as int), all[i as int]);
                lemma_total_take(all, i + 1);
            }
            if contains_appointment(resolved, &id) {
                freed = freed + reservation.slots;
            } else {
                proof {
                    lemma_views_push(kept@, reservation);
                    lemma_total_push(views(kept@), reservation@);
                }
                kept.push(reservation);
            }
            i = i + 1;
        }
        proof {
            assert(all.take(i as int) =~= all);
        }
        Subscription {
            user_id: self.user_id,
            available_slots: self.available_slots + freed,
            subscription_expiry: self.subscription_expiry,
            appointments: kept,
        }
    }

    /// The slots that the user's appointments hold.
    fn reserved(&self) -> (total: u32)
        requires
            self@.granted() <= u32::MAX,
        ensures
            total == self@.reserved(),
    {
        let ghost all = views(self.appointments@);
        let mut total: u32 = 0;
        let mut i: usize = 0;
        while i < self.appointments.len()
            invariant
                i <= self.appointments.len(),
                all == views(self.appointments@),
                self@.granted() <= u32::MAX,
                total == total_slots(all.take(i as int)),
            decreases self.appointments.len() - i,
        {
            proof {
                assert(all.take(i + 1) =~= all.take(i as int).push(all[i as int]));
                lemma_total_push(all.take(i as int), all[i as int]);
                lemma_total_take(all, i + 1);
            }
            total = total + self.appointments[i].slots;
            i = i + 1;
        }
        proof {
            assert(all.take(i as int) =~= all);
        }
        total
    }
}

/// The gatekeeper's table as a mathematical value.
pub struct GatekeeperView {
    /// The height of the last block of the chain.
    pub height: u32,
    /// The slots that a registration grants.
    pub slots: u32,
    /// The number of blocks that a registration lasts.
    pub duration: u32,
    /// The number of blocks after the end of a subscription at which the
    /// user's data is kept.
    pub expiry_delta: u32,
    /// The subscriptions, oldest first.
    pub subscriptions: Seq<SubscriptionView>,
}

impl GatekeeperView {
    /// What holds of every gatekeeper: no user has two subscriptions, and
    /// the slots that a user has left and those that the user's appointments
    /// hold are together the slots that a registration grants.
    pub open spec fn wf(self) -> bool {
        &&& forall|i: int|
            0 <= i < self.subscriptions.len() ==> (#[trigger] self.subscriptions[i]).granted()
                == self.slots
        &&& self.distinct_users()
    }

    /// Whether no user has two subscriptions.
    pub open spec fn distinct_users(self) -> bool {
        forall|i: int, j: int|
            0 <= i < j < self.subscriptions.len() ==> (#[trigger] self.subscriptions[i]).user_id
                != (#[trigger] self.subscriptions[j]).user_id
    }

    /// What a function of subscriptions makes of the user's subscription,
    /// if the user has one.
    pub open spec fn subscription_through(
        self,
        user_id: Seq<u8>,
        step: spec_fn(SubscriptionView) -> SubscriptionView,
    ) -> Option<SubscriptionView> {
        match self.subscription(user_id) {
            Some(subscription) => Some(step(subscription)),
            None => None,
        }
    }

    /// The function that puts a subscription in the place of the one that
    /// the same user has.
    pub open spec fn replacing(subscription: SubscriptionView) -> spec_fn(
        SubscriptionView,
    ) -> SubscriptionView {
        |s: SubscriptionView|
            if s.user_id == subscription.user_id {
                subscription
            } else {
                s
            }
    }

    /// Whether the user has a subscription.
    pub open spec fn has_user(self, user_id: Seq<u8>) -> bool {
        exists|i: int|
            0 <= i < self.subscriptions.len() && (#[trigger] self.subscriptions[i]).user_id
                == user_id
    }

    /// The place of the user's subscription.
    pub open spec fn place(self, user_id: Seq<u8>) -> int {
        choose|i: int|
            0 <= i < self.subscriptions.len() && (#[trigger] self.subscriptions[i]).user_id
                == user_id
    }

    /// The user's subscription.
    pub open spec fn subscription(self, user_id: Seq<u8>) -> Option<SubscriptionView> {
        if self.has_user(user_id) {
            Some(self.subscriptions[self.place(user_id)])
        } else {
            None
        }
    }

    /// The subscription that a registration grants now.
    pub open spec fn fresh(self, user_id: Seq<u8>) -> SubscriptionView {
        SubscriptionView {
            user_id,
            available_slots: self.slots as nat,
            subscription_expiry: (self.height + self.duration) as nat,
            appointments: Seq::empty(),
        }
    }

    /// The table with the subscription of one user replaced.
    pub open spec fn with_subscription(self, subscription: SubscriptionView) -> GatekeeperView {
        GatekeeperView {
            subscriptions: self.subscriptions.map_values(Self::replacing(subscription)),
            ..self
        }
    }

    /// The table after a registration: the user has a fresh subscription,
    /// in place of an earlier one if there was one.
    pub open spec fn registered(self, user_id: Seq<u8>) -> GatekeeperView {
        if self.has_user(user_id) {
            self.with_subscription(self.fresh(user_id))
        } else {
            GatekeeperView { subscriptions: self.subscriptions.push(self.fresh(user_id)), ..self }
        }
    }

    /// Whether the tower takes an appointment, and at which height: the
    /// signer must be the user and have a subscription, which must have the
    /// slots that the appointment costs and must not have run out.
    pub open spec fn admission(
        self,
        user_id: Seq<u8>,
        signer: Option<Seq<u8>>,
        locator: Seq<u8>,
        blob_len: nat,
    ) -> Result<u32, AdmissionError> {
        if signer != Some(user_id) || !self.has_user(user_id) {
            Err(AdmissionError::Unauthenticated)
        } else if slots_for(blob_len) > self.subscription(user_id).unwrap().spendable(locator) {
            Err(AdmissionError::NotEnoughSlots)
        } else if self.height >= self.subscription(user_id).unwrap().subscription_expiry {
            Err(AdmissionError::SubscriptionExpired)
        } else {
            Ok(self.height)
        }
    }

    /// The table after an appointment was asked for: its slots are held
    /// where the tower takes it, and nothing changes where it does not.
    pub open spec fn admitted(
        self,
        user_id: Seq<u8>,
        signer: Option<Seq<u8>>,
        locator: Seq<u8>,
        blob_len: nat,
    ) -> GatekeeperView {
        if self.admission(user_id, signer, locator, blob_len) is Ok {
            self.with_subscription(
                self.subscription(user_id).unwrap().admitted(locator, slots_for(blob_len)),
            )
        } else {
            self
        }
    }

    /// What a new block makes of one subscription: the data of a user who
    /// is evicted and whose subscription ran out long enough ago is deleted;
    /// of the others, the resolved appointments give their slots back.
    pub open spec fn connect_step(
        self,
        height: u32,
        resolved: Seq<(Seq<u8>, Seq<u8>)>,
        expired: Seq<Seq<u8>>,
    ) -> spec_fn(SubscriptionView) -> SubscriptionView {
        |s: SubscriptionView|
            if expired.contains(s.user_id) && s.is_outdated(
                self.expiry_delta as nat,
                height as nat,
            ) {
                s.purged()
            } else {
                s.released(resolved)
            }
    }

    /// The table after a new block of the given height.
    pub open spec fn connected(
        self,
        height: u32,
        resolved: Seq<(Seq<u8>, Seq<u8>)>,
        expired: Seq<Seq<u8>>,
    ) -> GatekeeperView {
        GatekeeperView {
            height,
            subscriptions: self.subscriptions.map_values(
                self.connect_step(height, resolved, expired),
            ),
            ..self
        }
    }

    /// The table after the block of the given height was taken away: the
    /// chain ends one block lower.
    pub open spec fn disconnected(self, height: u32) -> GatekeeperView {
        GatekeeperView {
            height: if height == 0 {
                0
            } else {
                (height - 1) as u32
            },
            ..self
        }
    }

    /// The user of a subscription that ran out so long before `height` that
    /// the user's data is deleted.
    pub open spec fn outdated_step(self, height: u32) -> spec_fn(SubscriptionView) -> Option<
        Seq<u8>,
    > {
        |s: SubscriptionView|
            if s.is_outdated(self.expiry_delta as nat, height as nat) {
                Some(s.user_id)
            } else {
                None
            }
    }

    /// The users whose data is deleted at a block of the given height, in
    /// the order of the table.
    pub open spec fn outdated(self, height: u32) -> Seq<Seq<u8>> {
        self.subscriptions.filter_map(self.outdated_step(height))
    }
}

/// The table of the subscriptions.
#[derive(Debug)]
pub struct Gatekeeper {
    height: u32,
    slots: u32,
    duration: u32,
    expiry_delta: u32,
    subscriptions: Vec<Subscription>,
}

impl View for Gatekeeper {
    type V = GatekeeperView;

    closed spec fn view(&self) -> GatekeeperView {
        GatekeeperView {
            height: self.height,
            slots: self.slots,
            duration: self.duration,
            expiry_delta: self.expiry_delta,
            subscriptions: views(self.subscriptions@),
        }
    }
}

impl Gatekeeper {
    /// A gatekeeper without subscriptions, for a chain of the given height.
    pub fn new(height: u32, slots: u32, duration: u32, expiry_delta: u32) -> (gatekeeper: Self)
        ensures
            gatekeeper@.wf(),
            gatekeeper@ == (GatekeeperView {
                height,
                slots,
                duration,
                expiry_delta,
                subscriptions: Seq::empty(),
            }),
    {
        let gatekeeper = Gatekeeper {
            height,
            slots,
            duration,
            expiry_delta,
            subscriptions: Vec::new(),
        };
        assert(gatekeeper@.subscriptions =~= Seq::empty());
        gatekeeper
    }

    /// Whether the slots that a subscription has left and those that its
    /// appointments hold are together the given grant.
    fn is_balanced(subscription: &Subscription, slots: u32) -> (balanced: bool)
        ensures
            balanced == (subscription@.granted() == slots),
    {
        let ghost all = views(subscription.appointments@);
        if subscription.available_slots > slots {
            return false;
        }
        let mut total: u32 = subscription.available_slots;
        let mut i: usize = 0;
        assert(total_slots(all.take(0)) == 0);
        while i < subscription.appointments.len()
            invariant
                i <= subscription.appointments.len(),
                all == views(subscription.appointments@),
                total == subscription.available_slots + total_slots(all.take(i as int)),
                total <= slots,
            decreases subscription.appointments.len() - i,
        {
            proof {
                assert(all.take(i + 1) =~= all.take(i as int).push(all[i as int]));
                lemma_total_push(all.take(i as int), all[i as int]);
                lemma_total_take(all, i + 1);
            }
            let held = subscription.appointments[i].slots;
            if held > slots - total {
                return false;
            }
            total = total + held;
            i = i + 1;
        }
        proof {
            assert(all.take(i as int) =~= all);
        }
        total == slots
    }

    /// A gatekeeper with the given subscriptions, as they were kept before
    /// the tower stopped. There is none where a user has two subscriptions,
    /// or where the slots of a subscription do not add up to the grant.
    pub fn restore(
        height: u32,
        slots: u32,
        duration: u32,
        expiry_delta: u32,
        subscriptions: Vec<Subscription>,
    ) -> (r: Option<Self>)
        ensures
            r matches Some(gatekeeper) ==> gatekeeper@.wf() && gatekeeper@ == (GatekeeperView {
                height,
                slots,
                duration,
                expiry_delta,
                subscriptions: views(subscriptions@),
            }),
            r is None <==> !(GatekeeperView {
                height,
                slots,
                duration,
                expiry_delta,
                subscriptions: views(subscriptions@),
            }).wf(),
    {
        let ghost all = views(subscriptions@);
        let mut i: usize = 0;
        while i < subscriptions.len()
            invariant
                i <= subscriptions.len(),
                all == views(subscriptions@),
                forall|k: int| 0 <= k < i ==> (#[trigger] all[k]).granted() == slots,
                forall|a: int, b: int|
                    0 <= a < b < i ==> (#[trigger] all[a]).user_id != (#[trigger] all[b]).user_id,
            decreases subscriptions.len() - i,
        {
            if !Self::is_balanced(&subscriptions[i], slots) {
                proof {
                    let kept = GatekeeperView {
                        height,
                        slots,
                        duration,
                        expiry_delta,
                        subscriptions: all,
                    };
                    assert(kept.subscriptions[i as int].granted() != slots);
                }
                return None;
            }
            let mut j: usize = 0;
            while j < i
                invariant
                    j <= i < subscriptions.len(),
                    all == views(subscriptions@),
                    forall|a: int| 0 <= a < j ==> (#[trigger] all[a]).user_id != all[i as int].user_id,
                decreases i - j,
            {
                if subscriptions[j].user_id == subscriptions[i].user_id {
                    proof {
                        let kept = GatekeeperView {
                            height,
                            slots,
                            duration,
                            expiry_delta,
                            subscriptions: all,
                        };
                        assert(kept.subscriptions[j as int].user_id
                            == kept.subscriptions[i as int].user_id);
                    }
                    return None;
                }
                j = j + 1;
            }
            i = i + 1;
        }
        Some(Gatekeeper { height, slots, duration, expiry_delta, subscriptions })
    }

    /// The subscriptions, oldest first.
    pub fn subscriptions(&self) -> (subscriptions: &Vec<Subscription>)
        ensures
            views(subscriptions@) == self@.subscriptions,
    {
        &self.subscriptions
    }

    /// Whether the gatekeeper has no subscription.
    pub fn is_fresh(&self) -> (fresh: bool)
        ensures
            fresh == (self@.subscriptions.len() == 0),
    {
        self.subscriptions.len() == 0
    }

    /// The height of the last block of the chain.
    pub fn height(&self) -> (height: u32)
        ensures
            height == self@.height,
    {
        self.height
    }

    /// The place of the user's subscription.
    fn find(&self, user_id: &UserId) -> (place: Option<usize>)
        requires
            self@.wf(),
        ensures
            place matches Some(i) ==> {
                &&& i < self.subscriptions@.len()
                &&& self@.has_user(user_id@)
                &&& self@.place(user_id@) == i
                &&& self@.subscription(user_id@) == Some(self.subscriptions@[i as int]@)
            },
            place is None <==> !self@.has_user(user_id@),
    {
        let mut i: usize = 0;
        while i < self.subscriptions.len()
            invariant
                i <= self.subscriptions.len(),
                self@.wf(),
                forall|j: int| 0 <= j < i ==> (#[trigger] self@.subscriptions[j]).user_id != user_id@,
            decreases self.subscriptions.len() - i,
        {
            if self.subscriptions[i].user_id == *user_id {
                proof {
                    assert(self@.subscriptions[i as int].user_id == user_id@);
                    lemma_place(self@, user_id@);
                }
                return Some(i);
            }
            i = i + 1;
        }
        None
    }

    /// The subscription of a user, if the user has one.
    pub fn subscription(&self, user_id: &UserId) -> (found: Option<Subscription>)
        requires
            self@.wf(),
        ensures
            found matches Some(subscription) ==> self@.subscription(user_id@) == Some(
                subscription@,
            ),
            found is None <==> self@.subscription(user_id@) is None,
    {
        match self.find(user_id) {
            Some(i) => Some(self.subscriptions[i].clone()),
            None => None,
        }
    }

    /// Puts a subscription in the place of the one that the same user has.
    fn replace(&mut self, place: usize, subscription: Subscription)
        requires
            old(self)@.wf(),
            place < old(self)@.subscriptions.len(),
            old(self)@.subscriptions[place as int].user_id == subscription@.user_id,
            subscription@.granted() == old(self)@.slots,
        ensures
            final(self)@ == old(self)@.with_subscription(subscription@),
            final(self)@.wf(),
            forall|other: Seq<u8>| #[trigger]
                final(self)@.subscription(other) == if other == subscription@.user_id {
                    Some(subscription@)
                } else {
                    old(self)@.subscription(other)
                },
    {
        let ghost before = self@;
        let ghost put = subscription@;
        self.subscriptions.set(place, subscription);
        assert(self@.subscriptions =~= before.with_subscription(put).subscriptions);
        assert forall|other: Seq<u8>| #[trigger]
            self@.subscription(other) == if other == put.user_id {
                Some(put)
            } else {
                before.subscription(other)
            } by {
            lemma_subscription_through(before, self@, GatekeeperView::replacing(put), other);
            if before.has_user(other) {
                lemma_place(before, other);
            }
            assert(before.subscriptions[place as int].user_id == put.user_id);
        }
    }

    /// Registers a user: grants the slots and the duration of a
    /// registration from the current height on, whether or not the user had
    /// a subscription before.
    pub fn register(&mut self, user_id: &UserId) -> (subscription: Subscription)
        requires
            old(self)@.wf(),
        ensures
            final(self)@ == old(self)@.registered(user_id@),
            final(self)@.wf(),
            subscription@ == old(self)@.fresh(user_id@),
            forall|other: Seq<u8>| #[trigger]
                final(self)@.subscription(other) == if other == user_id@ {
                    Some(subscription@)
                } else {
                    old(self)@.subscription(other)
                },
    {
        let fresh = Subscription {
            user_id: *user_id,
            available_slots: self.slots,
            subscription_expiry: self.height as u64 + self.duration as u64,
            appointments: Vec::new(),
        };
        assert(fresh@.appointments =~= Seq::empty());
        assert(fresh@ == self@.fresh(user_id@));
        let granted = fresh.clone();
        let ghost before = self@;
        match self.find(user_id) {
            Some(i) => {
                self.replace(i, fresh);
            },
            None => {
                proof {
                    lemma_views_push(self.subscriptions@, fresh);
                }
                self.subscriptions.push(fresh);
                assert forall|other: Seq<u8>| #[trigger]
                    self@.subscription(other) == if other == user_id@ {
                        Some(granted@)
                    } else {
                        before.subscription(other)
                    } by {
                    lemma_subscription_pushed(before, self@, granted@, other);
                }
                proof {
                    lemma_subscription_pushed(before, self@, granted@, user_id@);
                }
            },
        }
        granted
    }

    /// Decides on an appointment of which the signer is known, and holds
    /// its slots where the tower takes it. Gives the height from which the
    /// tower watches.
    pub fn accept(
        &mut self,
        user_id: &UserId,
        signer: Option<UserId>,
        locator: &Locator,
        blob_len: usize,
    ) -> (r: Result<u32, AdmissionError>)
        requires
            old(self)@.wf(),
        ensures
            r == old(self)@.admission(user_id@, signer_view(signer), locator@, blob_len as nat),
            final(self)@ == old(self)@.admitted(
                user_id@,
                signer_view(signer),
                locator@,
                blob_len as nat,
            ),
            final(self)@.wf(),
            forall|other: Seq<u8>| #[trigger]
                final(self)@.subscription(other) == if r is Ok && other == user_id@ {
                    Some(
                        old(self)@.subscription(user_id@).unwrap().admitted(
                            locator@,
                            slots_for(blob_len as nat),
                        ),
                    )
                } else {
                    old(self)@.subscription(other)
                },
    {
        let authentic = match signer {
            Some(signer_id) => signer_id == *user_id,
            None => false,
        };
        if !authentic {
            return Err(AdmissionError::Unauthenticated);
        }
        let place = match self.find(user_id) {
            Some(i) => i,
            None => {
                return Err(AdmissionError::Unauthenticated);
            },
        };
        let cost: usize = if blob_len % SLOT_SIZE == 0 {
            blob_len / SLOT_SIZE
        } else {
            blob_len / SLOT_SIZE + 1
        };
        let mut same: Vec<AppointmentId> = Vec::new();
        same.push(AppointmentId { user_id: *user_id, locator: *locator });
        assert(views(same@) =~= seq![(user_id@, locator@)]);
        let freed = self.subscriptions[place].release(&same);
        proof {
            lemma_released_keeps_grant(self.subscriptions@[place as int]@, views(same@));
        }
        if cost > freed.available_slots as usize {
            return Err(AdmissionError::NotEnoughSlots);
        }
        if self.height as u64 >= freed.subscription_expiry {
            return Err(AdmissionError::SubscriptionExpired);
        }
        let mut taken = freed;
        let reservation = Reservation { locator: *locator, slots: cost as u32 };
        proof {
            lemma_views_push(taken.appointments@, reservation);
            lemma_total_push(views(taken.appointments@), reservation@);
        }
        taken.available_slots = taken.available_slots - cost as u32;
        taken.appointments.push(reservation);
        self.replace(place, taken);
        Ok(self.height)
    }

    /// Decides on an appointment that comes with a signature: recovers the
    /// signer of the appointment's bytes and goes on as `accept` does.
    pub fn authenticate_and_admit(
        &mut self,
        user_id: &UserId,
        appointment: &Appointment,
        signature: &str,
    ) -> (r: Result<u32, AdmissionError>)
        requires
            old(self)@.wf(),
        ensures
            r == old(self)@.admission(
                user_id@,
                message_signer(appointment@.serialized(), signature@),
                appointment@.locator,
                appointment@.encrypted_blob.len(),
            ),
            final(self)@ == old(self)@.admitted(
                user_id@,
                message_signer(appointment@.serialized(), signature@),
                appointment@.locator,
                appointment@.encrypted_blob.len(),
            ),
            final(self)@.wf(),
            forall|other: Seq<u8>| #[trigger]
                final(self)@.subscription(other) == if r is Ok && other == user_id@ {
                    Some(
                        old(self)@.subscription(user_id@).unwrap().admitted(
                            appointment@.locator,
                            slots_for(appointment@.encrypted_blob.len()),
                        ),
                    )
                } else {
                    old(self)@.subscription(other)
                },
    {
        let message = appointment.serialize();
        let signer = match recover_signer(message.as_slice(), signature) {
            Ok(bytes) => Some(UserId { bytes }),
            Err(_) => None,
        };
        self.accept(user_id, signer, &appointment.locator, appointment.encrypted_blob.len())
    }

    /// The users whose data is deleted at a block of the given height: those
    /// whose subscription ran out more than the grace period before it.
    pub fn outdated_users(&self, height: u32) -> (users: Vec<UserId>)
        ensures
            views(users@) == self@.outdated(height),
    {
        let ghost step = self@.outdated_step(height);
        let mut users: Vec<UserId> = Vec::new();
        let mut i: usize = 0;
        while i < self.subscriptions.len()
            invariant
                i <= self.subscriptions.len(),
                step == self@.outdated_step(height),
                views(users@) == self@.subscriptions.take(i as int).filter_map(step),
            decreases self.subscriptions.len() - i,
        {
            let subscription = &self.subscriptions[i];
            proof {
                assert(self@.subscriptions[i as int] == subscription@);
                self@.subscriptions.lemma_filter_map_take_succ(step, i as int);
            }
            if subscription.subscription_expiry < height as u64 && (self.expiry_delta as u64)
                < height as u64 - subscription.subscription_expiry {
                proof {
                    lemma_views_push(users@, subscription.user_id);
                }
                users.push(subscription.user_id);
            }
            i = i + 1;
        }
        proof {
            assert(self@.subscriptions.take(i as int) =~= self@.subscriptions);
        }
        users
    }

    /// Applies a new block of the given height: the resolved appointments
    /// give their slots back, and the data of the evicted users whose
    /// subscription ran out more than the grace period before the block is
    /// deleted. Applying the same block again changes nothing.
    pub fn on_block_connected(
        &mut self,
        height: u32,
        resolved: &Vec<AppointmentId>,
        expired_users: &Vec<UserId>,
    )
        requires
            old(self)@.wf(),
        ensures
            final(self)@ == old(self)@.connected(
                height,
                views(resolved@),
                views(expired_users@),
            ),
            final(self)@.wf(),
            forall|user: Seq<u8>| #[trigger]
                final(self)@.subscription(user) == old(self)@.subscription_through(
                    user,
                    old(self)@.connect_step(height, views(resolved@), views(expired_users@)),
                ),
    {
        let ghost before = self@;
        let ghost step = before.connect_step(height, views(resolved@), views(expired_users@));
        if resolved.len() == 0 && expired_users.len() == 0 {
            self.height = height;
            proof {
                assert forall|i: int| 0 <= i < before.subscriptions.len() implies step(
                    #[trigger] before.subscriptions[i],
                ) == before.subscriptions[i] by {
                    lemma_released_nothing(before.subscriptions[i], views(resolved@));
                }
                assert(self@.subscriptions =~= before.subscriptions.map_values(step));
                assert forall|user: Seq<u8>| #[trigger]
                    self@.subscription(user) == before.subscription_through(user, step) by {
                    lemma_subscription_through(before, self@, step, user);
                }
            }
            return;
        }
        let mut subscriptions: Vec<Subscription> = Vec::new();
        let mut i: usize = 0;
        while i < self.subscriptions.len()
            invariant
                i <= self.subscriptions.len(),
                self@ == before,
                before.wf(),
                step == before.connect_step(height, views(resolved@), views(expired_users@)),
                views(subscriptions@) == before.subscriptions.take(i as int).map_values(step),
            decreases self.subscriptions.len() - i,
        {
            let subscription = &self.subscriptions[i];
            proof {
                assert(before.subscriptions[i as int] == subscription@);
                before.subscriptions.lemma_map_take_succ(step, i as int);
            }
            let after = if contains_user(expired_users, &subscription.user_id)
                && subscription.subscription_expiry < height as u64 && (self.expiry_delta as u64)
                < height as u64 - subscription.subscription_expiry {
                let reserved = subscription.reserved();
                let purged = Subscription {
                    user_id: subscription.user_id,
                    available_slots: subscription.available_slots + reserved,
                    subscription_expiry: subscription.subscription_expiry,
                    appointments: Vec::new(),
                };
                assert(purged@.appointments =~= Seq::empty());
                purged
            } else {
                subscription.release(resolved)
            };
            proof {
                lemma_views_push(subscriptions@, after);
            }
            subscriptions.push(after);
            i = i + 1;
        }
        proof {
            assert(before.subscriptions.take(i as int) =~= before.subscriptions);
            lemma_connected_wf(before, height, views(resolved@), views(expired_users@));
        }
        self.subscriptions = subscriptions;
        self.height = height;
        assert forall|user: Seq<u8>| #[trigger]
            self@.subscription(user) == before.subscription_through(user, step) by {
            lemma_subscription_through(before, self@, step, user);
        }
    }

    /// Takes the block of the given height away: the chain ends one block
    /// lower. Slots that were given back stay given back.
    pub fn on_block_disconnected(&mut self, height: u32)
        requires
            old(self)@.wf(),
        ensures
            final(self)@ == old(self)@.disconnected(height),
            final(self)@.wf(),
    {
        let ghost before = self@;
        self.height = if height == 0 {
            0
        } else {
            height - 1
        };
        assert(self@.subscriptions == before.subscriptions);
    }
}

/// The signer of a message as a mathematical value.
pub open spec fn signer_view(signer: Option<UserId>) -> Option<Seq<u8>> {
    match signer {
        Some(user_id) => Some(user_id@),
        None => None,
    }
}

/// In a table where no user has two subscriptions, the place of a user's
/// subscription is the one place that holds the user.
pub proof fn lemma_place(gatekeeper: GatekeeperView, user_id: Seq<u8>)
    requires
        gatekeeper.distinct_users(),
        gatekeeper.has_user(user_id),
    ensures
        0 <= gatekeeper.place(user_id) < gatekeeper.subscriptions.len(),
        gatekeeper.subscriptions[gatekeeper.place(user_id)].user_id == user_id,
        forall|i: int|
            0 <= i < gatekeeper.subscriptions.len() && (#[trigger] gatekeeper.subscriptions[i]).user_id
                == user_id ==> i == gatekeeper.place(user_id),
{
}

/// Where every subscription of a table is put through a function that
/// keeps its user, the subscription that a user has afterwards is what the
/// function makes of the one that the user had before.
pub proof fn lemma_subscription_through(
    before: GatekeeperView,
    after: GatekeeperView,
    step: spec_fn(SubscriptionView) -> SubscriptionView,
    user_id: Seq<u8>,
)
    requires
        before.distinct_users(),
        after.subscriptions == before.subscriptions.map_values(step),
        forall|s: SubscriptionView| (#[trigger] step(s)).user_id == s.user_id,
    ensures
        after.distinct_users(),
        after.has_user(user_id) == before.has_user(user_id),
        after.subscription(user_id) == before.subscription_through(user_id, step),
{
    assert forall|i: int| 0 <= i < after.subscriptions.len() implies (
    #[trigger] after.subscriptions[i]).user_id == before.subscriptions[i].user_id by {
        assert(after.subscriptions[i] == step(before.subscriptions[i]));
    }
    if before.has_user(user_id) {
        lemma_place(before, user_id);
        let i = before.place(user_id);
        assert(after.subscriptions[i].user_id == user_id);
        lemma_place(after, user_id);
    } else if after.has_user(user_id) {
        let i = choose|i: int|
            0 <= i < after.subscriptions.len() && (#[trigger] after.subscriptions[i]).user_id
                == user_id;
        assert(before.subscriptions[i].user_id == user_id);
    }
}

/// A subscription added for a user who had none is the user's, and the
/// other users have the subscriptions they had.
pub proof fn lemma_subscription_pushed(
    before: GatekeeperView,
    after: GatekeeperView,
    subscription: SubscriptionView,
    user_id: Seq<u8>,
)
    requires
        before.distinct_users(),
        !before.has_user(subscription.user_id),
        after.subscriptions == before.subscriptions.push(subscription),
    ensures
        after.distinct_users(),
        after.subscription(user_id) == if user_id == subscription.user_id {
            Some(subscription)
        } else {
            before.subscription(user_id)
        },
{
    let n = before.subscriptions.len() as int;
    assert forall|i: int, j: int| 0 <= i < j < after.subscriptions.len() implies (
    #[trigger] after.subscriptions[i]).user_id != (#[trigger] after.subscriptions[j]).user_id by {
        assert(after.subscriptions[i] == before.subscriptions[i]);
        if j < n {
            assert(after.subscriptions[j] == before.subscriptions[j]);
        }
    }
    if user_id == subscription.user_id {
        assert(after.subscriptions[n].user_id == user_id);
        lemma_place(after, user_id);
    } else if before.has_user(user_id) {
        lemma_place(before, user_id);
        let i = before.place(user_id);
        assert(after.subscriptions[i] == before.subscriptions[i]);
        lemma_place(after, user_id);
    } else if after.has_user(user_id) {
        let i = choose|i: int|
            0 <= i < after.subscriptions.len() && (#[trigger] after.subscriptions[i]).user_id
                == user_id;
        assert(after.subscriptions[i] == before.subscriptions[i]);
    }
}

/// A new block leaves the table well formed.
pub proof fn lemma_connected_wf(
    gatekeeper: GatekeeperView,
    height: u32,
    resolved: Seq<(Seq<u8>, Seq<u8>)>,
    expired: Seq<Seq<u8>>,
)
    requires
        gatekeeper.wf(),
    ensures
        gatekeeper.connected(height, resolved, expired).wf(),
{
    let after = gatekeeper.connected(height, resolved, expired);
    assert forall|i: int| 0 <= i < after.subscriptions.len() implies (
    #[trigger] after.subscriptions[i]).granted() == after.slots && after.subscriptions[i].user_id
        == gatekeeper.subscriptions[i].user_id by {
        lemma_released_keeps_grant(gatekeeper.subscriptions[i], resolved);
        assert(total_slots(Seq::<ReservationView>::empty()) == 0);
    }
}

/// Resolving one of a list of reservations with different locators frees
/// the slots of that one and of no other.
pub proof fn lemma_release_one(user_id: Seq<u8>, reservations: Seq<ReservationView>, j: int)
    requires
        0 <= j < reservations.len(),
        forall|a: int, b: int|
            0 <= a < b < reservations.len() ==> (#[trigger] reservations[a]).locator != (
            #[trigger] reservations[b]).locator,
    ensures
        total_slots(
            reservations.filter(unresolved(user_id, seq![(user_id, reservations[j].locator)])),
        ) + reservations[j].slots == total_slots(reservations),
    decreases reservations.len(),
{
    let resolved = seq![(user_id, reservations[j].locator)];
    let keep = unresolved(user_id, resolved);
    let rest = reservations.drop_last();
    let last = reservations.last();
    assert(reservations =~= rest.push(last));
    rest.lemma_filter_push(last, keep);
    assert(resolved[0] == (user_id, reservations[j].locator));
    if j == reservations.len() - 1 {
        assert(!keep(last));
        assert forall|i: int| 0 <= i < rest.len() implies keep(#[trigger] rest[i]) by {
            assert(rest[i] == reservations[i]);
            assert(reservations[i].locator != reservations[j].locator);
            if resolved.contains((user_id, rest[i].locator)) {
                let k = choose|k: int|
                    0 <= k < resolved.len() && resolved[k] == (user_id, rest[i].locator);
                assert(resolved[k] == resolved[0]);
            }
        }
        lemma_filter_all(rest, keep);
    } else {
        assert(reservations[j].locator != last.locator);
        assert(keep(last)) by {
            if resolved.contains((user_id, last.locator)) {
                let k = choose|k: int|
                    0 <= k < resolved.len() && resolved[k] == (user_id, last.locator);
                assert(resolved[k] == resolved[0]);
            }
        }
        assert forall|a: int, b: int| 0 <= a < b < rest.len() implies (#[trigger] rest[a]).locator
            != (#[trigger] rest[b]).locator by {
            assert(rest[a] == reservations[a] && rest[b] == reservations[b]);
        }
        assert(rest[j] == reservations[j]);
        lemma_release_one(user_id, rest, j);
        lemma_total_push(rest.filter(keep), last);
    }
}

impl SubscriptionView {
    /// The subscription after each of a list of appointments was taken in
    /// turn.
    pub open spec fn admitted_all(self, taken: Seq<ReservationView>) -> SubscriptionView
        decreases taken.len(),
    {
        if taken.len() == 0 {
            self
        } else {
            self.admitted_all(taken.drop_last()).admitted(taken.last().locator, taken.last().slots)
        }
    }
}

/// A subscription without appointments that takes appointments of
/// different locators, which together cost no more than the slots it has
/// left, holds exactly those appointments afterwards, and has left what it
/// had less their costs.
pub proof fn law_slots_after_admissions(subscription: SubscriptionView, taken: Seq<ReservationView>)
    requires
        subscription.appointments.len() == 0,
        total_slots(taken) <= subscription.available_slots,
        forall|a: int, b: int|
            0 <= a < b < taken.len() ==> (#[trigger] taken[a]).locator != (#[trigger] taken[b]).locator,
    ensures
        subscription.admitted_all(taken).appointments == taken,
        subscription.admitted_all(taken).available_slots == subscription.available_slots
            - total_slots(taken),
        subscription.admitted_all(taken).granted() == subscription.granted(),
        subscription.admitted_all(taken).user_id == subscription.user_id,
    decreases taken.len(),
{
    if taken.len() == 0 {
        assert(subscription.appointments =~= taken);
    } else {
        let rest = taken.drop_last();
        let last = taken.last();
        assert(taken =~= rest.push(last));
        assert forall|a: int, b: int| 0 <= a < b < rest.len() implies (#[trigger] rest[a]).locator
            != (#[trigger] rest[b]).locator by {
            assert(rest[a] == taken[a] && rest[b] == taken[b]);
        }
        lemma_total_push(rest, last);
        law_slots_after_admissions(subscription, rest);
        let before = subscription.admitted_all(rest);
        let resolved = seq![(before.user_id, last.locator)];
        let keep = unresolved(before.user_id, resolved);
        assert forall|i: int| 0 <= i < rest.len() implies keep(#[trigger] rest[i]) by {
            assert(rest[i] == taken[i]);
            assert(taken[i].locator != taken[taken.len() - 1].locator);
            if resolved.contains((before.user_id, rest[i].locator)) {
                let k = choose|k: int|
                    0 <= k < resolved.len() && resolved[k] == (before.user_id, rest[i].locator);
                assert(resolved[k] == resolved[0]);
            }
        }
        lemma_filter_all(rest, keep);
        assert(before.released(resolved).appointments == rest);
        assert(subscription.admitted_all(taken).appointments =~= taken);
    }
}

/// The instant one of the appointments that a subscription holds is
/// resolved, the slots left grow by the cost of that appointment, and by no
/// more.
pub proof fn law_slots_after_resolution(subscription: SubscriptionView, j: int)
    requires
        0 <= j < subscription.appointments.len(),
        forall|a: int, b: int|
            0 <= a < b < subscription.appointments.len() ==> (
            #[trigger] subscription.appointments[a]).locator != (
            #[trigger] subscription.appointments[b]).locator,
    ensures
        subscription.released(
            seq![(subscription.user_id, subscription.appointments[j].locator)],
        ).available_slots == subscription.available_slots + subscription.appointments[j].slots,
{
    lemma_release_one(subscription.user_id, subscription.appointments, j);
}

/// Registering a user twice at one height leaves the table as registering
/// the user once does.
pub proof fn law_registered_twice(gatekeeper: GatekeeperView, user_id: Seq<u8>)
    ensures
        gatekeeper.registered(user_id).registered(user_id) == gatekeeper.registered(user_id),
{
    let once = gatekeeper.registered(user_id);
    if gatekeeper.has_user(user_id) {
        let i = choose|i: int|
            0 <= i < gatekeeper.subscriptions.len() && (
            #[trigger] gatekeeper.subscriptions[i]).user_id == user_id;
        assert(once.subscriptions[i].user_id == user_id);
    } else {
        assert(once.subscriptions[gatekeeper.subscriptions.len() as int].user_id == user_id);
    }
    assert(once.has_user(user_id));
    assert(once.registered(user_id).subscriptions =~= once.subscriptions);
}

/// Applying the same block twice leaves the table as applying it once
/// does: no slot is given back twice.
pub proof fn law_connected_twice(
    gatekeeper: GatekeeperView,
    height: u32,
    resolved: Seq<(Seq<u8>, Seq<u8>)>,
    expired: Seq<Seq<u8>>,
)
    ensures
        gatekeeper.connected(height, resolved, expired).connected(height, resolved, expired)
            == gatekeeper.connected(height, resolved, expired),
{
    let once = gatekeeper.connected(height, resolved, expired);
    let twice = once.connected(height, resolved, expired);
    assert forall|i: int| 0 <= i < once.subscriptions.len() implies twice.subscriptions[i]
        == once.subscriptions[i] by {
        let s = gatekeeper.subscriptions[i];
        assert(total_slots(Seq::<ReservationView>::empty()) == 0);
        lemma_filter_twice(s.appointments, unresolved(s.user_id, resolved));
        lemma_total_filter(s.appointments, unresolved(s.user_id, resolved));
        lemma_filter_all(Seq::<ReservationView>::empty(), unresolved(s.user_id, resolved));
        assert(twice.subscriptions[i].appointments =~= once.subscriptions[i].appointments);
    }
    assert(twice.subscriptions =~= once.subscriptions);
}

} // verus!
