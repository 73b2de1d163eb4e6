use bitcoin::secp256k1::{PublicKey, Secp256k1, SecretKey};
use teos::appointment::{Appointment, AppointmentId, Locator};
use teos::gatekeeper::{AdmissionError, Gatekeeper};
use teos::ids::{TransactionId, UserId};

fn keys(seed: u8) -> (SecretKey, UserId) {
    let sk = SecretKey::from_slice(&[seed; 32]).unwrap();
    let pk = PublicKey::from_secret_key(&Secp256k1::new(), &sk);
    (sk, UserId::from_slice(&pk.serialize()).unwrap())
}

fn locator(seed: u8) -> Locator {
    Locator::new(TransactionId::new([seed; 32]))
}

fn id(user: UserId, seed: u8) -> AppointmentId {
    AppointmentId {
        user_id: user,
        locator: locator(seed),
    }
}

fn slots(gatekeeper: &Gatekeeper, user: &UserId) -> u32 {
    gatekeeper.subscription(user).unwrap().available_slots
}

#[test]
fn registration_grants_slots_and_duration_from_the_current_height() {
    let mut gatekeeper = Gatekeeper::new(100, 7, 1000, 6);
    assert!(gatekeeper.is_fresh());
    let (_, user) = keys(1);
    assert!(gatekeeper.subscription(&user).is_none());
    let subscription = gatekeeper.register(&user);
    assert_eq!(subscription.user_id, user);
    assert_eq!(subscription.available_slots, 7);
    assert_eq!(subscription.subscription_expiry, 1100);
    assert!(subscription.appointments.is_empty());
    assert!(!gatekeeper.is_fresh());

    // No overflow at the end of the range of heights.
    let mut late = Gatekeeper::new(u32::MAX, 7, u32::MAX, u32::MAX);
    assert_eq!(late.register(&user).subscription_expiry, 2 * (u32::MAX as u64));
    assert!(late.outdated_users(u32::MAX).is_empty());
}

#[test]
fn registering_again_grants_a_fresh_allotment() {
    let mut gatekeeper = Gatekeeper::new(100, 7, 1000, 6);
    let (_, user) = keys(1);
    gatekeeper.register(&user);
    assert_eq!(gatekeeper.accept(&user, Some(user), &locator(1), 2049), Ok(100));
    assert_eq!(slots(&gatekeeper, &user), 5);
    gatekeeper.on_block_connected(150, &vec![], &vec![]);
    let renewed = gatekeeper.register(&user);
    assert_eq!(renewed.available_slots, 7);
    assert_eq!(renewed.subscription_expiry, 1150);
    assert!(renewed.appointments.is_empty());
    // What was held before the renewal gives nothing back.
    gatekeeper.on_block_connected(151, &vec![id(user, 1)], &vec![]);
    assert_eq!(slots(&gatekeeper, &user), 7);
}

#[test]
fn cost_is_the_blob_length_in_slots_rounded_up() {
    let (_, user) = keys(1);
    for (len, cost) in [(0usize, 0u32), (1, 1), (2048, 1), (2049, 2), (4096, 2), (4097, 3)] {
        let mut gatekeeper = Gatekeeper::new(100, 10, 1000, 6);
        gatekeeper.register(&user);
        assert_eq!(gatekeeper.accept(&user, Some(user), &locator(1), len), Ok(100));
        assert_eq!(slots(&gatekeeper, &user), 10 - cost);
    }
}

#[test]
fn slots_left_are_the_grant_less_the_costs_and_come_back_on_resolution() {
    let mut gatekeeper = Gatekeeper::new(100, 10, 1000, 6);
    let (_, user) = keys(1);
    gatekeeper.register(&user);
    let costs = [1u32, 3, 2];
    for (i, cost) in costs.iter().enumerate() {
        let len = *cost as usize * 2048;
        assert_eq!(
            gatekeeper.accept(&user, Some(user), &locator(i as u8 + 1), len),
            Ok(100)
        );
    }
    assert_eq!(slots(&gatekeeper, &user), 10 - 6);

    gatekeeper.on_block_connected(101, &vec![id(user, 2)], &vec![]);
    assert_eq!(slots(&gatekeeper, &user), 10 - 6 + 3);
    // The same block once more gives nothing back again.
    gatekeeper.on_block_connected(101, &vec![id(user, 2)], &vec![]);
    assert_eq!(slots(&gatekeeper, &user), 10 - 6 + 3);
    // Nor does an appointment that the user does not hold.
    gatekeeper.on_block_connected(102, &vec![id(user, 9), id(keys(2).1, 1)], &vec![]);
    assert_eq!(slots(&gatekeeper, &user), 7);
    gatekeeper.on_block_connected(103, &vec![id(user, 1), id(user, 3)], &vec![]);
    assert_eq!(slots(&gatekeeper, &user), 10);
}

#[test]
fn appointment_of_the_same_locator_replaces_the_earlier_one() {
    let mut gatekeeper = Gatekeeper::new(100, 10, 1000, 6);
    let (_, user) = keys(1);
    gatekeeper.register(&user);
    gatekeeper.accept(&user, Some(user), &locator(1), 3 * 2048).unwrap();
    assert_eq!(slots(&gatekeeper, &user), 7);
    gatekeeper.accept(&user, Some(user), &locator(1), 2048).unwrap();
    assert_eq!(slots(&gatekeeper, &user), 9);
    // Ten slots are there for it, since it gives its own one back.
    gatekeeper.accept(&user, Some(user), &locator(1), 10 * 2048).unwrap();
    assert_eq!(slots(&gatekeeper, &user), 0);
    assert_eq!(gatekeeper.subscription(&user).unwrap().appointments.len(), 1);
}

#[test]
fn admission_errors() {
    let mut gatekeeper = Gatekeeper::new(100, 2, 10, 6);
    let (_, user) = keys(1);
    let (_, other) = keys(2);
    assert_eq!(
        gatekeeper.accept(&user, Some(user), &locator(1), 1),
        Err(AdmissionError::Unauthenticated)
    );
    gatekeeper.register(&user);
    assert_eq!(
        gatekeeper.accept(&user, None, &locator(1), 1),
        Err(AdmissionError::Unauthenticated)
    );
    assert_eq!(
        gatekeeper.accept(&user, Some(other), &locator(1), 1),
        Err(AdmissionError::Unauthenticated)
    );
    assert_eq!(
        gatekeeper.accept(&user, Some(user), &locator(1), 2 * 2048 + 1),
        Err(AdmissionError::NotEnoughSlots)
    );
    assert_eq!(slots(&gatekeeper, &user), 2);
    assert_eq!(gatekeeper.accept(&user, Some(user), &locator(1), 2 * 2048), Ok(100));
    assert_eq!(
        gatekeeper.accept(&user, Some(user), &locator(2), 1),
        Err(AdmissionError::NotEnoughSlots)
    );

    gatekeeper.on_block_connected(109, &vec![id(user, 1)], &vec![]);
    assert_eq!(gatekeeper.accept(&user, Some(user), &locator(2), 1), Ok(109));
    gatekeeper.on_block_connected(110, &vec![], &vec![]);
    assert_eq!(
        gatekeeper.accept(&user, Some(user), &locator(3), 1),
        Err(AdmissionError::SubscriptionExpired)
    );
    // Too few slots is said before an expired subscription.
    assert_eq!(
        gatekeeper.accept(&user, Some(user), &locator(3), 3 * 2048),
        Err(AdmissionError::NotEnoughSlots)
    );
    assert_eq!(slots(&gatekeeper, &user), 1);
}

#[test]
fn signature_of_the_user_over_the_appointment_is_needed() {
    let mut gatekeeper = Gatekeeper::new(100, 2, 10, 6);
    let (sk, user) = keys(1);
    let (other_sk, _) = keys(2);
    gatekeeper.register(&user);
    let appointment = Appointment::new(locator(1), vec![0; 100], 21);
    let signature =
        lightning::util::message_signing::sign(&appointment.serialize(), &sk).unwrap();
    let forged =
        lightning::util::message_signing::sign(&appointment.serialize(), &other_sk).unwrap();
    assert_eq!(
        gatekeeper.authenticate_and_admit(&user, &appointment, &forged),
        Err(AdmissionError::Unauthenticated)
    );
    assert_eq!(
        gatekeeper.authenticate_and_admit(&user, &appointment, ""),
        Err(AdmissionError::Unauthenticated)
    );
    assert_eq!(
        gatekeeper.authenticate_and_admit(&user, &appointment, &signature),
        Ok(100)
    );
    assert_eq!(slots(&gatekeeper, &user), 1);
}

#[test]
fn users_are_outdated_after_the_grace_period_and_purged_when_listed() {
    let mut gatekeeper = Gatekeeper::new(100, 5, 10, 6);
    let (_, user) = keys(1);
    let (_, other) = keys(2);
    gatekeeper.register(&user);
    gatekeeper.accept(&user, Some(user), &locator(1), 2048).unwrap();
    gatekeeper.on_block_connected(105, &vec![], &vec![]);
    gatekeeper.register(&other);
    gatekeeper.accept(&other, Some(other), &locator(1), 2048).unwrap();

    assert!(gatekeeper.outdated_users(116).is_empty());
    assert_eq!(gatekeeper.outdated_users(117), vec![user]);
    assert_eq!(gatekeeper.outdated_users(121), vec![user]);
    assert_eq!(gatekeeper.outdated_users(122), vec![user, other]);

    // A user who is listed too early is left alone.
    gatekeeper.on_block_connected(116, &vec![], &vec![user, other]);
    assert_eq!(slots(&gatekeeper, &user), 4);
    assert_eq!(gatekeeper.subscription(&user).unwrap().appointments.len(), 1);

    // So is one who is not listed.
    gatekeeper.on_block_connected(117, &vec![], &vec![]);
    assert_eq!(slots(&gatekeeper, &user), 4);

    gatekeeper.on_block_connected(117, &vec![], &vec![user, other]);
    let purged = gatekeeper.subscription(&user).unwrap();
    assert!(purged.appointments.is_empty());
    assert_eq!(purged.available_slots, 5);
    assert_eq!(purged.subscription_expiry, 110);
    assert_eq!(slots(&gatekeeper, &other), 4);
    assert_eq!(gatekeeper.subscription(&other).unwrap().appointments.len(), 1);
}

#[test]
fn disconnecting_a_block_lowers_the_height() {
    let mut gatekeeper = Gatekeeper::new(100, 5, 10, 6);
    gatekeeper.on_block_connected(101, &vec![], &vec![]);
    assert_eq!(gatekeeper.height(), 101);
    gatekeeper.on_block_disconnected(101);
    assert_eq!(gatekeeper.height(), 100);
    gatekeeper.on_block_disconnected(0);
    assert_eq!(gatekeeper.height(), 0);
}
