//! What a client knows of the towers it has registered with.

use crate::appointment::Locator;
use crate::model::{contains_locator, lemma_views_push, views};
use crate::net::http::RequestError;
use vstd::prelude::*;

verus! {

/// Whether a tower answers, as far as the client knows.
#[derive(Debug, Clone, Copy, PartialEq, Eq, Structural)]
pub enum TowerStatus {
    Reachable,
    TemporaryUnreachable,
    Unreachable,
    SubscriptionError,
}

impl TowerStatus {
    /// The words for the status.
    pub open spec fn words(self) -> Seq<char> {
        match self {
            TowerStatus::Reachable => "reachable"@,
            TowerStatus::TemporaryUnreachable => "temporary unreachable"@,
            TowerStatus::Unreachable => "unreachable"@,
            TowerStatus::SubscriptionError => "subscription error"@,
        }
    }

    /// Whether the tower answers.
    pub fn is_reachable(&self) -> (r: bool)
        ensures
            r == (*self == TowerStatus::Reachable),
    {
        *self == TowerStatus::Reachable
    }

    /// Whether the tower refuses the client's subscription.
    pub fn is_subscription_error(&self) -> (r: bool)
        ensures
            r == (*self == TowerStatus::SubscriptionError),
    {
        *self == TowerStatus::SubscriptionError
    }

    /// The words for the status.
    pub fn to_string(&self) -> (text: String)
        ensures
            text@ == self.words(),
    {
        match self {
            TowerStatus::Reachable => "reachable".to_owned(),
            TowerStatus::TemporaryUnreachable => "temporary unreachable".to_owned(),
            TowerStatus::Unreachable => "unreachable".to_owned(),
            TowerStatus::SubscriptionError => "subscription error".to_owned(),
        }
    }
}

/// The locators that a list holds, as a set.
pub open spec fn locators(list: Seq<Locator>) -> Set<Seq<u8>> {
    views(list).to_set()
}

/// Whether no locator occurs twice in a list.
pub open spec fn distinct(list: Seq<Locator>) -> bool {
    views(list).no_duplicates()
}

/// Adds a locator to a list in which none occurs twice, unless the list
/// holds it. Says whether the list has grown.
pub fn insert_locator(list: &mut Vec<Locator>, locator: Locator) -> (added: bool)
    requires
        distinct(old(list)@),
    ensures
        distinct(final(list)@),
        locators(final(list)@) == locators(old(list)@).insert(locator@),
        added == !locators(old(list)@).contains(locator@),
{
    broadcast use vstd::seq_lib::group_seq_properties;

    if contains_locator(list, &locator) {
        assert(locators(list@) =~= locators(list@).insert(locator@));
        false
    } else {
        proof {
            lemma_views_push(list@, locator);
            views(list@).lemma_push_to_set_commute(locator@);
        }
        list.push(locator);
        true
    }
}

/// The given locators, each once, in the order in which they first
/// occur.
pub fn dedup(list: &Vec<Locator>) -> (out: Vec<Locator>)
    ensures
        distinct(out@),
        locators(out@) == locators(list@),
{
    let mut out: Vec<Locator> = Vec::new();
    let mut i: usize = 0;
    assert(locators(out@) =~= locators(list@.take(0)));
    while i < list.len()
        invariant
            i <= list.len(),
            distinct(out@),
            locators(out@) == locators(list@.take(i as int)),
        decreases list.len() - i,
    {
        proof {
            assert(list@.take(i + 1) =~= list@.take(i as int).push(list@[i as int]));
            lemma_views_push(list@.take(i as int), list@[i as int]);
            views(list@.take(i as int)).lemma_push_to_set_commute(list@[i as int]@);
        }
        insert_locator(&mut out, list[i]);
        i = i + 1;
    }
    proof {
        assert(list@.take(i as int) =~= list@);
    }
    out
}

/// What a client knows of one tower.
#[derive(Debug)]
pub struct TowerInfo {
    pub net_addr: String,
    pub available_slots: u32,
    pub subscription_expiry: u32,
    pub status: TowerStatus,
    /// The appointments that the tower has accepted, each once.
    pub appointments: Vec<Locator>,
    /// The appointments that wait to be sent to the tower, each once.
    pub pending_appointments: Vec<Locator>,
}

/// What a client knows of one tower, as a mathematical value.
pub struct TowerInfoView {
    pub net_addr: Seq<char>,
    pub available_slots: u32,
    pub subscription_expiry: u32,
    pub status: TowerStatus,
    pub appointments: Set<Seq<u8>>,
    pub pending_appointments: Set<Seq<u8>>,
}

impl View for TowerInfo {
    type V = TowerInfoView;

    open spec fn view(&self) -> TowerInfoView {
        TowerInfoView {
            net_addr: self.net_addr@,
            available_slots: self.available_slots,
            subscription_expiry: self.subscription_expiry,
            status: self.status,
            appointments: locators(self.appointments@),
            pending_appointments: locators(self.pending_appointments@),
        }
    }
}

impl Clone for TowerInfo {
    fn clone(&self) -> (copy: Self)
        ensures
            copy@ == self@,
            copy.wf() == self.wf(),
    {
        let appointments = self.appointments.clone();
        let pending_appointments = self.pending_appointments.clone();
        assert(appointments@ =~= self.appointments@);
        assert(pending_appointments@ =~= self.pending_appointments@);
        TowerInfo {
            net_addr: self.net_addr.clone(),
            available_slots: self.available_slots,
            subscription_expiry: self.subscription_expiry,
            status: self.status,
            appointments,
            pending_appointments,
        }
    }
}

impl TowerInfo {
    /// What holds of the record of a tower: no appointment is listed
    /// twice.
    pub open spec fn wf(&self) -> bool {
        distinct(self.appointments@) && distinct(self.pending_appointments@)
    }

    /// The record of a tower that the client has just registered with: the
    /// tower is reachable, and no appointment is known.
    pub fn new(net_addr: String, available_slots: u32, subscription_expiry: u32) -> (info: Self)
        ensures
            info.wf(),
            info@ == (TowerInfoView {
                net_addr: net_addr@,
                available_slots,
                subscription_expiry,
                status: TowerStatus::Reachable,
                appointments: Set::empty(),
                pending_appointments: Set::empty(),
            }),
    {
        let info = TowerInfo {
            net_addr,
            available_slots,
            subscription_expiry,
            status: TowerStatus::Reachable,
            appointments: Vec::new(),
            pending_appointments: Vec::new(),
        };
        assert(info@.appointments =~= Set::empty());
        assert(info@.pending_appointments =~= Set::empty());
        info
    }

    /// The record of a tower with the appointments that it has accepted
    /// and those that wait to be sent. The tower is taken for reachable.
    pub fn with_appointments(
        net_addr: String,
        available_slots: u32,
        subscription_expiry: u32,
        appointments: Vec<Locator>,
        pending_appointments: Vec<Locator>,
    ) -> (info: Self)
        ensures
            info.wf(),
            info@ == (TowerInfoView {
                net_addr: net_addr@,
                available_slots,
                subscription_expiry,
                status: TowerStatus::Reachable,
                appointments: locators(appointments@),
                pending_appointments: locators(pending_appointments@),
            }),
    {
        TowerInfo {
            net_addr,
            available_slots,
            subscription_expiry,
            status: TowerStatus::Reachable,
            appointments: dedup(&appointments),
            pending_appointments: dedup(&pending_appointments),
        }
    }

    /// Lists an appointment as waiting to be sent to the tower.
    pub fn add_pending_appointment(&mut self, locator: Locator)
        requires
            old(self).wf(),
        ensures
            final(self).wf(),
            final(self)@ == (TowerInfoView {
                pending_appointments: old(self)@.pending_appointments.insert(locator@),
                ..old(self)@
            }),
    {
        insert_locator(&mut self.pending_appointments, locator);
    }

    /// Takes note of a request to the tower that failed: a tower that
    /// cannot be connected to is taken for temporarily unreachable.
    pub fn note_request_error(&mut self, error: &RequestError)
        ensures
            final(self)@ == (TowerInfoView {
                status: if error is ConnectionError {
                    TowerStatus::TemporaryUnreachable
                } else {
                    old(self)@.status
                },
                ..old(self)@
            }),
            final(self).wf() == old(self).wf(),
    {
        if error.is_connection() {
            self.status = TowerStatus::TemporaryUnreachable;
        }
    }
}

} // verus!
