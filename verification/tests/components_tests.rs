use teos::appointment::{Appointment, AppointmentId, Locator};
use teos::cryptography::{encrypt, PenaltyTransaction};
use teos::gatekeeper::{Gatekeeper, Reservation, Subscription};
use teos::ids::{TransactionId, UserId};
use teos::responder::{Breach, JobStatus, Responder, ResponderJob};
use teos::watcher::{ExtendedAppointment, TriggeredAppointment, Watcher};

fn user(seed: u8) -> UserId {
    let mut bytes = [seed; 33];
    bytes[0] = 2;
    UserId { bytes }
}

fn txid(seed: u8) -> TransactionId {
    TransactionId::new([seed; 32])
}

fn penalty(n: u32) -> PenaltyTransaction {
    let tx = bitcoin::Transaction {
        version: 2,
        lock_time: n,
        input: vec![bitcoin::TxIn {
            previous_output: bitcoin::OutPoint::null(),
            script_sig: bitcoin::Script::new(),
            sequence: 0xffff_ffff,
            witness: bitcoin::Witness::default(),
        }],
        output: vec![],
    };
    PenaltyTransaction::parse(bitcoin::consensus::serialize(&tx)).unwrap()
}

fn extended(u: UserId, dispute: TransactionId, p: &PenaltyTransaction) -> ExtendedAppointment {
    ExtendedAppointment::new(
        Appointment::new(Locator::new(dispute), encrypt(p, &dispute).unwrap(), 21),
        u,
        "signature".to_string(),
        10,
    )
}

fn id(u: UserId, dispute: TransactionId) -> AppointmentId {
    AppointmentId {
        user_id: u,
        locator: Locator::new(dispute),
    }
}

fn job(u: UserId, dispute: TransactionId, count: u32, status: JobStatus) -> ResponderJob {
    ResponderJob {
        user_id: u,
        locator: Locator::new(dispute),
        penalty: penalty(1),
        broadcast_height: 5,
        confirmation_count: count,
        status,
    }
}

#[test]
fn watcher_replaces_an_appointment_of_the_same_user_and_locator() {
    let mut watcher = Watcher::new(true);
    assert!(watcher.is_fresh());
    watcher.add_appointment(extended(user(1), txid(7), &penalty(1)));
    watcher.add_appointment(extended(user(2), txid(7), &penalty(2)));
    watcher.add_appointment(extended(user(1), txid(8), &penalty(3)));
    assert_eq!(watcher.appointments().len(), 3);
    watcher.add_appointment(extended(user(1), txid(7), &penalty(4)));
    assert_eq!(watcher.appointments().len(), 3);
    assert!(watcher.is_watching(&id(user(1), txid(7))));
    assert!(watcher.is_watching(&id(user(2), txid(7))));
    assert!(!watcher.is_watching(&id(user(2), txid(8))));
    assert!(!watcher.is_fresh());

    // The replaced appointment decrypts to the new penalty.
    let report = watcher.on_block_connected(11, &vec![txid(7)], &vec![]);
    assert_eq!(report.breaches.len(), 2);
    assert_eq!(report.breaches[0].user_id, user(2));
    assert_eq!(report.breaches[0].penalty.serialize(), penalty(2).serialize());
    assert_eq!(report.breaches[1].user_id, user(1));
    assert_eq!(report.breaches[1].penalty.serialize(), penalty(4).serialize());
    assert!(report.invalid.is_empty());
    assert_eq!(watcher.appointments().len(), 1);
    assert_eq!(watcher.triggered().len(), 2);
    assert_eq!(watcher.triggered()[0].height, 11);
}

#[test]
fn watcher_forgets_and_restores_records() {
    let mut watcher = Watcher::new(true);
    watcher.add_appointment(extended(user(1), txid(7), &penalty(1)));
    watcher.add_appointment(extended(user(2), txid(8), &penalty(2)));
    watcher.add_appointment(extended(user(3), txid(9), &penalty(3)));
    watcher.on_block_connected(11, &vec![txid(7), txid(8)], &vec![]);
    watcher.on_block_connected(12, &vec![txid(9)], &vec![]);
    assert_eq!(watcher.triggered().len(), 3);
    assert!(watcher.appointments().is_empty());

    // Only what block 12 triggered comes back when block 12 goes.
    watcher.on_block_disconnected(12, &vec![]);
    assert!(watcher.is_watching(&id(user(3), txid(9))));
    assert_eq!(watcher.triggered().len(), 2);

    // A settled job keeps its appointment out of the index.
    watcher.on_block_disconnected(11, &vec![id(user(1), txid(7))]);
    assert!(!watcher.is_watching(&id(user(1), txid(7))));
    assert!(watcher.is_watching(&id(user(2), txid(8))));
    assert_eq!(watcher.triggered().len(), 1);

    watcher.forget(&vec![id(user(9), txid(7))]);
    assert_eq!(watcher.triggered().len(), 1);
    watcher.forget(&vec![id(user(1), txid(7))]);
    assert!(watcher.triggered().is_empty());
}

#[test]
fn watcher_evicts_users_before_matching() {
    let mut watcher = Watcher::new(true);
    watcher.add_appointment(extended(user(1), txid(7), &penalty(1)));
    watcher.add_appointment(extended(user(2), txid(7), &penalty(2)));
    let report = watcher.on_block_connected(11, &vec![txid(7)], &vec![user(1)]);
    assert_eq!(report.breaches.len(), 1);
    assert_eq!(report.breaches[0].user_id, user(2));
    assert!(watcher.appointments().is_empty());
    let report = watcher.on_block_connected(12, &vec![], &vec![user(2)]);
    assert!(report.breaches.is_empty());
    assert!(watcher.is_fresh());
}

#[test]
fn watcher_restores_what_it_is_given() {
    let kept = vec![extended(user(1), txid(7), &penalty(1))];
    let records = vec![TriggeredAppointment {
        appointment: extended(user(2), txid(8), &penalty(2)),
        height: 9,
    }];
    let watcher = Watcher::restore(false, kept, records);
    assert!(!watcher.is_fresh());
    assert!(watcher.is_watching(&id(user(1), txid(7))));
    assert_eq!(watcher.triggered()[0].height, 9);
}

#[test]
fn responder_starts_one_job_for_an_appointment() {
    let mut responder = Responder::new(0);
    assert_eq!(responder.threshold(), 1);
    let mut responder2 = Responder::new(6);
    assert_eq!(responder2.threshold(), 6);
    assert!(responder.is_fresh());
    let breach = Breach {
        user_id: user(1),
        locator: Locator::new(txid(7)),
        penalty: penalty(1),
    };
    assert!(responder.handle_breach(&breach, 5));
    assert!(!responder.handle_breach(&breach, 6));
    assert!(responder2.handle_breach(&breach, 5));
    assert!(responder.has_job(&id(user(1), txid(7))));
    assert!(!responder.has_job(&id(user(2), txid(7))));
    assert_eq!(responder.jobs().len(), 1);
    assert_eq!(responder.jobs()[0].broadcast_height, 5);

    // With a threshold of one, the first confirmation settles the job.
    let report = responder.on_block_connected(6, &vec![penalty(1).txid()], &vec![], &vec![], true);
    assert_eq!(report.resolved, vec![id(user(1), txid(7))]);
    assert!(report.broadcasts.is_empty());
    assert_eq!(responder.settled(), vec![id(user(1), txid(7))]);
    assert_eq!(
        responder.job(&id(user(1), txid(7))).unwrap().status,
        JobStatus::Confirmed
    );
    // It is reported once.
    let report = responder.on_block_connected(7, &vec![], &vec![], &vec![], true);
    assert!(report.resolved.is_empty());
}

#[test]
fn responder_abandons_the_jobs_of_evicted_users() {
    let jobs = vec![
        job(user(1), txid(7), 0, JobStatus::Broadcasting),
        job(user(2), txid(7), 1, JobStatus::AwaitingConfirmation),
        job(user(1), txid(8), 3, JobStatus::Confirmed),
        job(user(1), txid(9), 2, JobStatus::AwaitingConfirmation),
    ];
    let mut responder = Responder::restore(3, jobs).unwrap();
    assert_eq!(responder.unconfirmed(), vec![penalty(1).txid()]);
    let report = responder.on_block_connected(20, &vec![], &vec![], &vec![user(1)], true);
    assert_eq!(report.abandoned.len(), 2);
    assert_eq!(report.abandoned[0].status, JobStatus::Abandoned);
    assert_eq!(report.abandoned[0].locator, Locator::new(txid(7)));
    assert_eq!(report.abandoned[1].locator, Locator::new(txid(9)));
    assert!(report.resolved.is_empty());
    assert_eq!(responder.jobs().len(), 1);
    assert_eq!(responder.jobs()[0].user_id, user(2));
    assert_eq!(responder.jobs()[0].confirmation_count, 2);
}

#[test]
fn responder_refuses_jobs_that_should_be_settled() {
    assert!(Responder::restore(3, vec![job(user(1), txid(7), 3, JobStatus::AwaitingConfirmation)])
        .is_none());
    assert!(Responder::restore(0, vec![job(user(1), txid(7), 1, JobStatus::Broadcasting)])
        .is_none());
    assert!(Responder::restore(3, vec![job(user(1), txid(7), 9, JobStatus::Confirmed)]).is_some());
    assert!(Responder::restore(3, vec![job(user(1), txid(7), 2, JobStatus::Broadcasting)])
        .is_some());
    assert!(Responder::restore(3, vec![]).unwrap().is_fresh());
}

#[test]
fn gatekeeper_restores_only_consistent_subscriptions() {
    let subscription = |u: UserId, available: u32, held: Vec<u32>| Subscription {
        user_id: u,
        available_slots: available,
        subscription_expiry: 500,
        appointments: held
            .into_iter()
            .enumerate()
            .map(|(i, slots)| Reservation {
                locator: Locator::new(txid(i as u8)),
                slots,
            })
            .collect(),
    };
    let good = vec![
        subscription(user(1), 10, vec![]),
        subscription(user(2), 4, vec![1, 5]),
        subscription(user(3), 0, vec![10]),
    ];
    let gatekeeper = Gatekeeper::restore(100, 10, 50, 6, good).unwrap();
    assert_eq!(gatekeeper.subscriptions().len(), 3);
    assert_eq!(gatekeeper.subscription(&user(2)).unwrap().available_slots, 4);
    assert_eq!(gatekeeper.height(), 100);

    assert!(Gatekeeper::restore(100, 10, 50, 6, vec![subscription(user(1), 11, vec![])]).is_none());
    assert!(Gatekeeper::restore(100, 10, 50, 6, vec![subscription(user(1), 9, vec![])]).is_none());
    assert!(
        Gatekeeper::restore(100, 10, 50, 6, vec![subscription(user(1), 5, vec![5, 1])]).is_none()
    );
    assert!(Gatekeeper::restore(
        100,
        10,
        50,
        6,
        vec![subscription(user(1), 5, vec![u32::MAX, u32::MAX, 7])]
    )
    .is_none());
    assert!(Gatekeeper::restore(
        100,
        10,
        50,
        6,
        vec![
            subscription(user(1), 10, vec![]),
            subscription(user(2), 10, vec![]),
            subscription(user(1), 10, vec![])
        ]
    )
    .is_none());
    assert!(Gatekeeper::restore(100, 10, 50, 6, vec![]).unwrap().is_fresh());
}

#[test]
fn settled_job_is_reopened_only_when_its_confirmations_are_gone() {
    let jobs = vec![
        job(user(1), txid(7), 3, JobStatus::Confirmed),
        job(user(2), txid(7), 2, JobStatus::AwaitingConfirmation),
    ];
    let mut responder = Responder::restore(3, jobs).unwrap();
    responder.revalidate(&id(user(1), txid(7)), 3);
    assert_eq!(
        responder.job(&id(user(1), txid(7))).unwrap().status,
        JobStatus::Confirmed
    );
    responder.revalidate(&id(user(1), txid(7)), 100);
    assert_eq!(
        responder.job(&id(user(1), txid(7))).unwrap().confirmation_count,
        3
    );
    // A job that is not settled is left alone.
    responder.revalidate(&id(user(2), txid(7)), 0);
    assert_eq!(
        responder.job(&id(user(2), txid(7))).unwrap().confirmation_count,
        2
    );
    responder.revalidate(&id(user(1), txid(7)), 2);
    let reopened = responder.job(&id(user(1), txid(7))).unwrap();
    assert_eq!(reopened.status, JobStatus::AwaitingConfirmation);
    assert_eq!(reopened.confirmation_count, 2);
    // One more block settles it again.
    let report = responder.on_block_connected(30, &vec![], &vec![], &vec![], true);
    assert_eq!(report.resolved, vec![id(user(1), txid(7)), id(user(2), txid(7))]);
}

#[test]
fn responder_refuses_two_jobs_for_one_appointment() {
    assert!(Responder::restore(
        3,
        vec![
            job(user(1), txid(7), 0, JobStatus::Broadcasting),
            job(user(2), txid(7), 0, JobStatus::Broadcasting),
            job(user(1), txid(7), 3, JobStatus::Confirmed),
        ]
    )
    .is_none());
}
