use bitcoin::secp256k1::{PublicKey, Secp256k1, SecretKey};
use teos::appointment::{Appointment, AppointmentId, AppointmentStatus, Locator};
use teos::cryptography::{encrypt, PenaltyTransaction};
use teos::gatekeeper::{AdmissionError, Gatekeeper};
use teos::ids::{TransactionId, UserId};
use teos::responder::{JobStatus, Responder};
use teos::tower::{Block, Tower};
use teos::watcher::Watcher;

const SLOTS: u32 = 100;
const DURATION: u32 = 50;
const EXPIRY_DELTA: u32 = 6;
const THRESHOLD: u32 = 2;

fn keys(seed: u8) -> (SecretKey, UserId) {
    let sk = SecretKey::from_slice(&[seed; 32]).unwrap();
    let pk = PublicKey::from_secret_key(&Secp256k1::new(), &sk);
    (sk, UserId::from_slice(&pk.serialize()).unwrap())
}

fn txid(seed: u8) -> TransactionId {
    let mut bytes = [seed; 32];
    bytes[31] = seed.wrapping_add(1);
    TransactionId::new(bytes)
}

fn penalty(n: u32) -> PenaltyTransaction {
    let tx = bitcoin::Transaction {
        version: 2,
        lock_time: n,
        input: vec![bitcoin::TxIn {
            previous_output: bitcoin::OutPoint::null(),
            script_sig: bitcoin::Script::new(),
            sequence: 0xffff_ffff,
            witness: bitcoin::Witness::default(),
        }],
        output: vec![bitcoin::TxOut {
            value: 1000 + n as u64,
            script_pubkey: bitcoin::Script::new(),
        }],
    };
    PenaltyTransaction::parse(bitcoin::consensus::serialize(&tx)).unwrap()
}

fn appointment_for(dispute: TransactionId, penalty: &PenaltyTransaction) -> Appointment {
    Appointment::new(Locator::new(dispute), encrypt(penalty, &dispute).unwrap(), 21)
}

fn sign(appointment: &Appointment, sk: &SecretKey) -> String {
    lightning::util::message_signing::sign(&appointment.serialize(), sk).unwrap()
}

fn new_tower(height: u32) -> Tower {
    Tower::new(
        Watcher::new(true),
        Responder::new(THRESHOLD),
        Gatekeeper::new(height, SLOTS, DURATION, EXPIRY_DELTA),
    )
}

fn block(height: u32, txids: Vec<TransactionId>) -> Block {
    Block { height, txids }
}

fn available(tower: &Tower, user: &UserId) -> u32 {
    tower.gatekeeper.subscription(user).unwrap().available_slots
}

fn id_of(user: UserId, dispute: TransactionId) -> AppointmentId {
    AppointmentId {
        user_id: user,
        locator: Locator::new(dispute),
    }
}

#[test]
fn fresh_tower_is_fresh_until_a_user_registers() {
    let mut tower = new_tower(10);
    assert!(tower.is_fresh());
    let (_, user) = keys(1);
    tower.register(&user);
    assert!(!tower.is_fresh());
}

#[test]
fn one_slot_appointment_leaves_ninety_nine_slots() {
    let mut tower = new_tower(10);
    let (sk, user) = keys(1);
    let subscription = tower.register(&user);
    assert_eq!(subscription.available_slots, 100);
    assert_eq!(subscription.subscription_expiry, 60);

    let appointment = appointment_for(txid(7), &penalty(1));
    let signature = sign(&appointment, &sk);
    assert_eq!(tower.add_appointment(&user, appointment, signature), Ok(10));
    assert_eq!(available(&tower, &user), 99);
    assert_eq!(
        tower.appointment_status(&id_of(user, txid(7))),
        AppointmentStatus::BeingWatched
    );
}

#[test]
fn breach_is_answered_confirmed_and_its_slot_released() {
    let mut tower = new_tower(10);
    let (sk, user) = keys(1);
    tower.register(&user);
    let dispute = txid(7);
    let penalty_tx = penalty(1);
    let appointment = appointment_for(dispute, &penalty_tx);
    let signature = sign(&appointment, &sk);
    tower.add_appointment(&user, appointment, signature).unwrap();
    let id = id_of(user, dispute);

    // A block without the dispute changes nothing.
    let broadcasts = tower.on_block_connected(&block(11, vec![txid(9)]), &vec![], true);
    assert!(broadcasts.is_empty());
    assert_eq!(tower.appointment_status(&id), AppointmentStatus::BeingWatched);

    // The dispute appears: the penalty is decrypted and handed out.
    let broadcasts = tower.on_block_connected(&block(12, vec![txid(9), dispute]), &vec![], true);
    assert_eq!(broadcasts.len(), 1);
    assert_eq!(broadcasts[0].penalty.serialize(), penalty_tx.serialize());
    assert_eq!(broadcasts[0].user_id, user);
    assert_eq!(tower.appointment_status(&id), AppointmentStatus::DisputeResponded);
    let job = tower.responder.job(&id).unwrap();
    assert_eq!(job.status, JobStatus::Broadcasting);
    assert_eq!(job.broadcast_height, 12);
    assert_eq!(job.confirmation_count, 0);
    assert_eq!(available(&tower, &user), 99);

    tower.on_broadcast_result(&id, true);
    assert_eq!(
        tower.responder.job(&id).unwrap().status,
        JobStatus::AwaitingConfirmation
    );

    // The penalty is mined: one confirmation, below the threshold of two.
    let mempool = vec![penalty_tx.txid()];
    let broadcasts = tower.on_block_connected(&block(13, vec![penalty_tx.txid()]), &mempool, true);
    assert!(broadcasts.is_empty());
    let job = tower.responder.job(&id).unwrap();
    assert_eq!(job.confirmation_count, 1);
    assert_eq!(job.status, JobStatus::AwaitingConfirmation);
    assert_eq!(available(&tower, &user), 99);

    // One more block settles the job and gives the slot back.
    let broadcasts = tower.on_block_connected(&block(14, vec![]), &vec![], true);
    assert!(broadcasts.is_empty());
    let job = tower.responder.job(&id).unwrap();
    assert_eq!(job.confirmation_count, 2);
    assert_eq!(job.status, JobStatus::Confirmed);
    assert_eq!(available(&tower, &user), 100);

    // A settled job stays settled, whatever the chain does.
    tower.on_block_disconnected(14);
    let job = tower.responder.job(&id).unwrap();
    assert_eq!(job.status, JobStatus::Confirmed);
    assert_eq!(job.confirmation_count, 2);
    assert_eq!(available(&tower, &user), 100);
}

#[test]
fn disconnected_confirmation_is_reverted_and_penalty_rebroadcast() {
    let mut tower = new_tower(10);
    let (sk, user) = keys(1);
    tower.register(&user);
    let dispute = txid(7);
    let penalty_tx = penalty(1);
    let appointment = appointment_for(dispute, &penalty_tx);
    let signature = sign(&appointment, &sk);
    tower.add_appointment(&user, appointment, signature).unwrap();
    let id = id_of(user, dispute);

    tower.on_block_connected(&block(11, vec![dispute]), &vec![], true);
    tower.on_broadcast_result(&id, true);
    tower.on_block_connected(&block(12, vec![penalty_tx.txid()]), &vec![], true);
    assert_eq!(tower.responder.job(&id).unwrap().confirmation_count, 1);

    tower.on_block_disconnected(12);
    let job = tower.responder.job(&id).unwrap();
    assert_eq!(job.confirmation_count, 0);
    assert_eq!(job.status, JobStatus::AwaitingConfirmation);
    assert_eq!(job.broadcast_height, 11);

    // The other block at that height does not hold the penalty, and the
    // pending pool has lost it: it is handed out again.
    let broadcasts = tower.on_block_connected(&block(12, vec![txid(3)]), &vec![], true);
    assert_eq!(broadcasts.len(), 1);
    assert_eq!(broadcasts[0].penalty.serialize(), penalty_tx.serialize());
    let job = tower.responder.job(&id).unwrap();
    assert_eq!(job.status, JobStatus::Broadcasting);
    assert_eq!(job.broadcast_height, 12);
    assert_eq!(job.confirmation_count, 0);
}

#[test]
fn penalty_still_in_the_pending_pool_is_not_rebroadcast() {
    let mut tower = new_tower(10);
    let (sk, user) = keys(1);
    tower.register(&user);
    let dispute = txid(7);
    let penalty_tx = penalty(1);
    let appointment = appointment_for(dispute, &penalty_tx);
    let signature = sign(&appointment, &sk);
    tower.add_appointment(&user, appointment, signature).unwrap();
    let id = id_of(user, dispute);

    tower.on_block_connected(&block(11, vec![dispute]), &vec![], true);
    tower.on_broadcast_result(&id, true);
    let broadcasts = tower.on_block_connected(&block(12, vec![]), &vec![penalty_tx.txid()], true);
    assert!(broadcasts.is_empty());
    assert_eq!(
        tower.responder.job(&id).unwrap().status,
        JobStatus::AwaitingConfirmation
    );
    assert_eq!(tower.responder.job(&id).unwrap().broadcast_height, 11);
}

#[test]
fn refused_submission_is_retried_at_the_next_block() {
    let mut tower = new_tower(10);
    let (sk, user) = keys(1);
    tower.register(&user);
    let dispute = txid(7);
    let penalty_tx = penalty(1);
    let appointment = appointment_for(dispute, &penalty_tx);
    let signature = sign(&appointment, &sk);
    tower.add_appointment(&user, appointment, signature).unwrap();
    let id = id_of(user, dispute);

    assert_eq!(tower.on_block_connected(&block(11, vec![dispute]), &vec![], true).len(), 1);
    tower.on_broadcast_result(&id, false);
    assert_eq!(tower.responder.job(&id).unwrap().status, JobStatus::Broadcasting);

    // Even a pending pool that claims to hold it does not stop the retry.
    let broadcasts = tower.on_block_connected(&block(12, vec![]), &vec![penalty_tx.txid()], true);
    assert_eq!(broadcasts.len(), 1);
    assert_eq!(tower.responder.job(&id).unwrap().broadcast_height, 12);
}

#[test]
fn unreachable_chain_source_pauses_broadcasts_but_keeps_the_job() {
    let mut tower = new_tower(10);
    let (sk, user) = keys(1);
    tower.register(&user);
    let dispute = txid(7);
    let penalty_tx = penalty(1);
    let appointment = appointment_for(dispute, &penalty_tx);
    let signature = sign(&appointment, &sk);
    tower.add_appointment(&user, appointment, signature).unwrap();
    let id = id_of(user, dispute);

    let broadcasts = tower.on_block_connected(&block(11, vec![dispute]), &vec![], false);
    assert!(broadcasts.is_empty());
    let job = tower.responder.job(&id).unwrap();
    assert_eq!(job.status, JobStatus::Broadcasting);

    let broadcasts = tower.on_block_connected(&block(12, vec![]), &vec![], false);
    assert!(broadcasts.is_empty());
    assert!(tower.responder.job(&id).is_some());

    let broadcasts = tower.on_block_connected(&block(13, vec![]), &vec![], true);
    assert_eq!(broadcasts.len(), 1);
    assert_eq!(tower.responder.job(&id).unwrap().broadcast_height, 13);
}

#[test]
fn undecryptable_appointment_is_dropped_without_broadcast() {
    let mut tower = new_tower(10);
    let (sk, user) = keys(1);
    let (other_sk, other) = keys(2);
    tower.register(&user);
    tower.register(&other);
    let dispute = txid(7);

    // Encrypted under another id than the one of its locator.
    let bad = Appointment::new(
        Locator::new(dispute),
        encrypt(&penalty(1), &txid(8)).unwrap(),
        21,
    );
    let signature = sign(&bad, &sk);
    tower.add_appointment(&user, bad, signature).unwrap();

    let other_dispute = txid(20);
    let good = appointment_for(other_dispute, &penalty(2));
    let signature = sign(&good, &other_sk);
    tower.add_appointment(&other, good, signature).unwrap();
    assert_eq!(available(&tower, &user), 99);
    assert_eq!(available(&tower, &other), 99);

    let broadcasts = tower.on_block_connected(&block(11, vec![dispute]), &vec![], true);
    assert!(broadcasts.is_empty());
    assert!(tower.responder.is_fresh());
    assert_eq!(
        tower.appointment_status(&id_of(user, dispute)),
        AppointmentStatus::NotFound
    );
    assert_eq!(available(&tower, &user), 100);

    // The other user's appointment is untouched.
    assert_eq!(
        tower.appointment_status(&id_of(other, other_dispute)),
        AppointmentStatus::BeingWatched
    );
    assert_eq!(available(&tower, &other), 99);
}

#[test]
fn undecryptable_appointment_stays_when_the_locator_is_shared() {
    let mut tower = new_tower(10);
    let (sk, user) = keys(1);
    let (other_sk, other) = keys(2);
    tower.register(&user);
    tower.register(&other);
    let dispute = txid(7);

    let bad = Appointment::new(
        Locator::new(dispute),
        encrypt(&penalty(1), &txid(8)).unwrap(),
        21,
    );
    let signature = sign(&bad, &sk);
    tower.add_appointment(&user, bad, signature).unwrap();
    let good = appointment_for(dispute, &penalty(2));
    let signature = sign(&good, &other_sk);
    tower.add_appointment(&other, good, signature).unwrap();

    let broadcasts = tower.on_block_connected(&block(11, vec![dispute]), &vec![], true);
    assert_eq!(broadcasts.len(), 1);
    assert_eq!(broadcasts[0].user_id, other);
    assert_eq!(
        tower.appointment_status(&id_of(user, dispute)),
        AppointmentStatus::BeingWatched
    );
    assert_eq!(
        tower.appointment_status(&id_of(other, dispute)),
        AppointmentStatus::DisputeResponded
    );
}

#[test]
fn undecryptable_appointment_stays_when_the_policy_keeps_it() {
    let mut tower = Tower::new(
        Watcher::new(false),
        Responder::new(THRESHOLD),
        Gatekeeper::new(10, SLOTS, DURATION, EXPIRY_DELTA),
    );
    let (sk, user) = keys(1);
    tower.register(&user);
    let dispute = txid(7);
    let bad = Appointment::new(Locator::new(dispute), vec![1, 2, 3], 21);
    let signature = sign(&bad, &sk);
    tower.add_appointment(&user, bad, signature).unwrap();
    let broadcasts = tower.on_block_connected(&block(11, vec![dispute]), &vec![], true);
    assert!(broadcasts.is_empty());
    assert_eq!(
        tower.appointment_status(&id_of(user, dispute)),
        AppointmentStatus::BeingWatched
    );
    assert_eq!(available(&tower, &user), 99);
}

#[test]
fn expired_user_is_purged_after_the_grace_period() {
    let mut tower = new_tower(10);
    let (sk, user) = keys(1);
    let (other_sk, other) = keys(2);
    tower.register(&user);
    let expiry = 10 + DURATION;

    // One appointment that waits, one that was answered.
    let waiting = appointment_for(txid(7), &penalty(1));
    let signature = sign(&waiting, &sk);
    tower.add_appointment(&user, waiting, signature).unwrap();
    let answered = appointment_for(txid(8), &penalty(2));
    let signature = sign(&answered, &sk);
    tower.add_appointment(&user, answered, signature).unwrap();
    tower.on_block_connected(&block(11, vec![txid(8)]), &vec![], true);
    assert_eq!(available(&tower, &user), 98);

    // Another user, registered later, answers the same breach.
    tower.on_block_connected(&block(30, vec![]), &vec![penalty(2).txid()], true);
    tower.register(&other);
    let late = appointment_for(txid(9), &penalty(3));
    let signature = sign(&late, &other_sk);
    tower.add_appointment(&other, late, signature).unwrap();
    tower.on_block_connected(&block(31, vec![txid(9)]), &vec![penalty(2).txid()], true);

    // From the expiry on the user cannot add appointments.
    tower.on_block_connected(&block(expiry, vec![]), &vec![penalty(2).txid(), penalty(3).txid()], true);
    let more = appointment_for(txid(10), &penalty(4));
    let signature = sign(&more, &sk);
    assert_eq!(
        tower.add_appointment(&user, more, signature),
        Err(AdmissionError::SubscriptionExpired)
    );

    // At the end of the grace period the data is still there.
    let pool = vec![penalty(2).txid(), penalty(3).txid()];
    tower.on_block_connected(&block(expiry + EXPIRY_DELTA, vec![]), &pool, true);
    assert_eq!(
        tower.appointment_status(&id_of(user, txid(7))),
        AppointmentStatus::BeingWatched
    );
    assert_eq!(
        tower.appointment_status(&id_of(user, txid(8))),
        AppointmentStatus::DisputeResponded
    );
    assert_eq!(available(&tower, &user), 98);

    // One block later it is gone, and the accounting is closed.
    tower.on_block_connected(&block(expiry + EXPIRY_DELTA + 1, vec![]), &pool, true);
    assert_eq!(
        tower.appointment_status(&id_of(user, txid(7))),
        AppointmentStatus::NotFound
    );
    assert_eq!(
        tower.appointment_status(&id_of(user, txid(8))),
        AppointmentStatus::NotFound
    );
    let subscription = tower.gatekeeper.subscription(&user).unwrap();
    assert!(subscription.appointments.is_empty());
    assert_eq!(subscription.available_slots, SLOTS);
    assert_eq!(subscription.subscription_expiry, expiry as u64);

    // The other user's job is untouched.
    assert_eq!(
        tower.appointment_status(&id_of(other, txid(9))),
        AppointmentStatus::DisputeResponded
    );
    assert_eq!(available(&tower, &other), 99);
}

#[test]
fn blocks_applied_at_once_or_one_by_one_give_the_same_tower() {
    let (sk, user) = keys(1);
    let dispute = txid(7);
    let penalty_tx = penalty(1);
    let blocks = || {
        vec![
            block(11, vec![txid(3)]),
            block(12, vec![dispute]),
            block(13, vec![penalty_tx.txid()]),
            block(14, vec![]),
            block(15, vec![txid(4)]),
        ]
    };
    let setup = || {
        let mut tower = new_tower(10);
        tower.register(&user);
        let appointment = appointment_for(dispute, &penalty_tx);
        let signature = sign(&appointment, &sk);
        tower.add_appointment(&user, appointment, signature).unwrap();
        tower
    };

    let mut stepwise = setup();
    let mut stepwise_broadcasts = Vec::new();
    for b in blocks() {
        stepwise_broadcasts.extend(stepwise.on_block_connected(&b, &vec![], true));
    }
    let mut batched = setup();
    let batch_broadcasts = batched.connect_blocks(&blocks(), &vec![], true);

    let mut split = setup();
    let all = blocks();
    let (first, second) = all.split_at(2);
    let mut split_broadcasts = split.connect_blocks(&first.to_vec_blocks(), &vec![], true);
    split_broadcasts.extend(split.connect_blocks(&second.to_vec_blocks(), &vec![], true));

    let id = id_of(user, dispute);
    for tower in [&stepwise, &batched, &split] {
        let job = tower.responder.job(&id).unwrap();
        assert_eq!(job.status, JobStatus::Confirmed);
        assert_eq!(job.confirmation_count, 2);
        assert_eq!(job.broadcast_height, 12);
        assert_eq!(available(tower, &user), 100);
        assert_eq!(tower.gatekeeper.height(), 15);
        assert_eq!(tower.appointment_status(&id), AppointmentStatus::DisputeResponded);
    }
    assert_eq!(stepwise_broadcasts.len(), 1);
    assert_eq!(batch_broadcasts.len(), 1);
    assert_eq!(split_broadcasts.len(), 1);
}

trait ToVecBlocks {
    fn to_vec_blocks(&self) -> Vec<Block>;
}

impl ToVecBlocks for [Block] {
    fn to_vec_blocks(&self) -> Vec<Block> {
        self.iter()
            .map(|b| Block {
                height: b.height,
                txids: b.txids.clone(),
            })
            .collect()
    }
}

#[test]
fn disconnected_breach_makes_the_appointment_wait_again() {
    let mut tower = new_tower(10);
    let (sk, user) = keys(1);
    tower.register(&user);
    let dispute = txid(7);
    let penalty_tx = penalty(1);
    let appointment = appointment_for(dispute, &penalty_tx);
    let signature = sign(&appointment, &sk);
    tower.add_appointment(&user, appointment, signature).unwrap();
    let id = id_of(user, dispute);

    tower.on_block_connected(&block(11, vec![dispute]), &vec![], true);
    assert_eq!(tower.appointment_status(&id), AppointmentStatus::DisputeResponded);
    assert!(!tower.watcher.is_watching(&id));

    tower.on_block_disconnected(11);
    assert!(tower.watcher.is_watching(&id));
    assert_eq!(tower.gatekeeper.height(), 10);

    // The breach comes back in another block: no second job is started.
    tower.on_block_connected(&block(11, vec![txid(2), dispute]), &vec![penalty_tx.txid()], true);
    assert!(!tower.watcher.is_watching(&id));
    assert_eq!(tower.responder.job(&id).unwrap().confirmation_count, 0);
    assert_eq!(available(&tower, &user), 99);
}

#[test]
fn appointment_of_an_unknown_or_wrong_signer_is_refused() {
    let mut tower = new_tower(10);
    let (sk, user) = keys(1);
    let (other_sk, other) = keys(2);
    let appointment = appointment_for(txid(7), &penalty(1));

    // Not registered.
    let signature = sign(&appointment, &sk);
    assert_eq!(
        tower.add_appointment(&user, appointment.clone(), signature),
        Err(AdmissionError::Unauthenticated)
    );

    tower.register(&user);
    tower.register(&other);
    // Signed by somebody else.
    let signature = sign(&appointment, &other_sk);
    assert_eq!(
        tower.add_appointment(&user, appointment.clone(), signature),
        Err(AdmissionError::Unauthenticated)
    );
    // No signature at all.
    assert_eq!(
        tower.add_appointment(&user, appointment.clone(), "dhdhdhd".to_string()),
        Err(AdmissionError::Unauthenticated)
    );
    // Signed over other bytes.
    let signature = sign(&appointment_for(txid(8), &penalty(1)), &sk);
    assert_eq!(
        tower.add_appointment(&user, appointment.clone(), signature),
        Err(AdmissionError::Unauthenticated)
    );
    assert_eq!(available(&tower, &user), 100);
    assert_eq!(available(&tower, &other), 100);
    assert_eq!(
        tower.appointment_status(&id_of(user, txid(7))),
        AppointmentStatus::NotFound
    );
    assert!(tower.watcher.is_fresh());
}

#[test]
fn penalty_in_the_block_of_the_breach_counts_at_once() {
    let mut tower = new_tower(10);
    let (sk, user) = keys(1);
    tower.register(&user);
    let dispute = txid(7);
    let penalty_tx = penalty(1);
    let appointment = appointment_for(dispute, &penalty_tx);
    let signature = sign(&appointment, &sk);
    tower.add_appointment(&user, appointment, signature).unwrap();
    let id = id_of(user, dispute);

    let broadcasts =
        tower.on_block_connected(&block(11, vec![dispute, penalty_tx.txid()]), &vec![], true);
    assert!(broadcasts.is_empty());
    let job = tower.responder.job(&id).unwrap();
    assert_eq!(job.confirmation_count, 1);
    assert_eq!(job.status, JobStatus::AwaitingConfirmation);
    assert_eq!(available(&tower, &user), 99);

    tower.on_block_connected(&block(12, vec![]), &vec![], true);
    assert_eq!(tower.responder.job(&id).unwrap().status, JobStatus::Confirmed);
    assert_eq!(available(&tower, &user), 100);
}
