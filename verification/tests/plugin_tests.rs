use bitcoin::secp256k1::{PublicKey, Secp256k1, SecretKey};
use teos::appointment::Locator;
use teos::convert::RegisterParams;
use teos::ids::{TransactionId, UserId};
use teos::net::http::{
    judge_appointment_response, recover_response_signer, AddAppointmentError,
    AddAppointmentResponse, ApiError, ApiResponse, AppointmentReceipt, RequestError,
    SignatureError,
};
use teos::tower_info::{TowerInfo, TowerStatus};

const TOWER_ID: &str = "020dea894c967319407265764aba31bdef75d463f96800f34dd6df61380d82dfc0";

fn keys(seed: u8) -> (SecretKey, UserId) {
    let sk = SecretKey::from_slice(&[seed; 32]).unwrap();
    let pk = PublicKey::from_secret_key(&Secp256k1::new(), &sk);
    (sk, UserId::from_slice(&pk.serialize()).unwrap())
}

fn locator(seed: u8) -> Locator {
    Locator::new(TransactionId::new([seed; 32]))
}

#[test]
fn tower_status_predicates_and_words() {
    assert!(TowerStatus::Reachable.is_reachable());
    assert!(!TowerStatus::TemporaryUnreachable.is_reachable());
    assert!(!TowerStatus::Unreachable.is_reachable());
    assert!(!TowerStatus::SubscriptionError.is_reachable());
    assert!(TowerStatus::SubscriptionError.is_subscription_error());
    assert!(!TowerStatus::Reachable.is_subscription_error());
    assert!(!TowerStatus::Unreachable.is_subscription_error());
    assert_eq!(TowerStatus::Reachable.to_string(), "reachable");
    assert_eq!(
        TowerStatus::TemporaryUnreachable.to_string(),
        "temporary unreachable"
    );
    assert_eq!(TowerStatus::Unreachable.to_string(), "unreachable");
    assert_eq!(
        TowerStatus::SubscriptionError.to_string(),
        "subscription error"
    );
}

#[test]
fn new_tower_info_is_reachable_and_empty() {
    let info = TowerInfo::new("http://tower:9814".to_string(), 21, 1000);
    assert_eq!(info.net_addr, "http://tower:9814");
    assert_eq!(info.available_slots, 21);
    assert_eq!(info.subscription_expiry, 1000);
    assert_eq!(info.status, TowerStatus::Reachable);
    assert!(info.appointments.is_empty());
    assert!(info.pending_appointments.is_empty());
}

#[test]
fn tower_info_lists_every_appointment_once() {
    let mut info = TowerInfo::with_appointments(
        "http://tower:9814".to_string(),
        21,
        1000,
        vec![locator(1), locator(2), locator(1), locator(3), locator(2)],
        vec![locator(4), locator(4)],
    );
    assert_eq!(info.status, TowerStatus::Reachable);
    assert_eq!(info.appointments, vec![locator(1), locator(2), locator(3)]);
    assert_eq!(info.pending_appointments, vec![locator(4)]);

    info.add_pending_appointment(locator(5));
    info.add_pending_appointment(locator(4));
    info.add_pending_appointment(locator(5));
    assert_eq!(info.pending_appointments, vec![locator(4), locator(5)]);
    assert_eq!(info.appointments.len(), 3);

    let copy = info.clone();
    assert_eq!(copy.pending_appointments, info.pending_appointments);
    assert_eq!(copy.net_addr, info.net_addr);
}

#[test]
fn connection_errors_make_a_tower_temporarily_unreachable() {
    let mut info = TowerInfo::new("http://tower:9814".to_string(), 21, 1000);
    info.note_request_error(&RequestError::Unexpected("x".into()));
    assert_eq!(info.status, TowerStatus::Reachable);
    info.note_request_error(&RequestError::DeserializeError("x".into()));
    assert_eq!(info.status, TowerStatus::Reachable);
    info.note_request_error(&RequestError::ConnectionError("x".into()));
    assert_eq!(info.status, TowerStatus::TemporaryUnreachable);
    info.status = TowerStatus::SubscriptionError;
    info.note_request_error(&RequestError::Unexpected("x".into()));
    assert_eq!(info.status, TowerStatus::SubscriptionError);
}

#[test]
fn request_errors() {
    assert!(RequestError::ConnectionError("x".into()).is_connection());
    assert!(!RequestError::DeserializeError("x".into()).is_connection());
    assert!(!RequestError::Unexpected("x".into()).is_connection());

    for (is_connect, is_timeout) in [(true, false), (false, true), (true, true)] {
        match RequestError::from_transport(is_connect, is_timeout) {
            RequestError::ConnectionError(m) => {
                assert_eq!(m, "Cannot connect to the tower. Connection refused")
            }
            other => panic!("{:?}", other),
        }
    }
    match RequestError::from_transport(false, false) {
        RequestError::Unexpected(m) => {
            assert_eq!(m, "Unexpected error ocurred (see logs for more info)")
        }
        other => panic!("{:?}", other),
    }
    match RequestError::from_body("EOF while parsing") {
        RequestError::DeserializeError(m) => {
            assert_eq!(m, "Unexpected response body. Error: EOF while parsing")
        }
        other => panic!("{:?}", other),
    }
    assert!(matches!(
        AddAppointmentError::from(RequestError::Unexpected("x".into())),
        AddAppointmentError::RequestError(RequestError::Unexpected(..))
    ));
}

#[test]
fn receipt_bytes_are_signature_then_start_block() {
    let receipt = AppointmentReceipt::new("sig".to_string(), 0x0a0b0c0d);
    assert_eq!(receipt.serialize(), vec![b's', b'i', b'g', 0x0a, 0x0b, 0x0c, 0x0d]);
}

fn response(start_block: u32, signature: String) -> ApiResponse<AddAppointmentResponse> {
    ApiResponse::Response(AddAppointmentResponse {
        locator: locator(1).serialize(),
        start_block,
        signature,
        available_slots: 20,
        subscription_expiry: 1000,
    })
}

#[test]
fn accepted_appointment_stands_when_the_tower_signed_the_receipt() {
    let (tower_sk, tower_id) = keys(5);
    let (other_sk, other_id) = keys(6);
    let user_signature = "user signature".to_string();
    let receipt = AppointmentReceipt::new(user_signature.clone(), 77);
    let good = lightning::util::message_signing::sign(&receipt.serialize(), &tower_sk).unwrap();
    let bad = lightning::util::message_signing::sign(&receipt.serialize(), &other_sk).unwrap();

    let answer = response(77, good.clone());
    let signer = recover_response_signer(&user_signature, &answer);
    assert_eq!(signer, Some(tower_id));
    let accepted = judge_appointment_response(tower_id, &user_signature, answer, signer)
        .unwrap()
        .unwrap();
    assert_eq!(accepted.start_block, 77);
    assert_eq!(accepted.available_slots, 20);
    assert_eq!(accepted.signature, good);

    // Signed by another tower.
    let answer = response(77, bad);
    let signer = recover_response_signer(&user_signature, &answer);
    assert_eq!(signer, Some(other_id));
    match judge_appointment_response(tower_id, &user_signature, answer, signer).unwrap() {
        Err(AddAppointmentError::SignatureError(e)) => assert_eq!(e.signer(), other_id),
        other => panic!("{:?}", other),
    }

    // Signed over another start block: the signer is somebody else.
    let answer = response(78, good);
    let signer = recover_response_signer(&user_signature, &answer);
    assert!(signer.is_some());
    assert_ne!(signer, Some(tower_id));
    assert!(matches!(
        judge_appointment_response(tower_id, &user_signature, answer, signer),
        Some(Err(AddAppointmentError::SignatureError(..)))
    ));

    // No signer at all.
    let answer = response(77, "dhdhdhd".to_string());
    let signer = recover_response_signer(&user_signature, &answer);
    assert_eq!(signer, None);
    assert!(judge_appointment_response(tower_id, &user_signature, answer, signer).is_none());
}

#[test]
fn tower_error_is_an_error() {
    let (_, tower_id) = keys(5);
    let answer: ApiResponse<AddAppointmentResponse> = ApiResponse::Error(ApiError {
        error: "User cannot be authenticated".to_string(),
        error_code: 7,
    });
    let user_signature = "user signature".to_string();
    let signer = recover_response_signer(&user_signature, &answer);
    assert_eq!(signer, None);
    match judge_appointment_response(tower_id, &user_signature, answer, signer) {
        Some(Err(AddAppointmentError::ApiError(e))) => {
            assert_eq!(e.error, "User cannot be authenticated");
            assert_eq!(e.error_code, 7);
        }
        other => panic!("{:?}", other),
    }
}

#[test]
fn signature_error_keeps_the_signer() {
    let (_, id) = keys(9);
    let e = SignatureError::new(AppointmentReceipt::new("s".into(), 1), "t".into(), id);
    assert_eq!(e.signer(), id);
}

#[test]
fn tower_address_has_scheme_host_and_port() {
    let params = |text: &str| RegisterParams::from_text(text).unwrap();
    assert_eq!(
        params(&format!("{}@tower.net:1234", TOWER_ID)).net_addr(9814),
        "http://tower.net:1234"
    );
    assert_eq!(
        params(&format!("{}@tower.net", TOWER_ID)).net_addr(9814),
        "http://tower.net:9814"
    );
    assert_eq!(params(TOWER_ID).net_addr(9814), "http://localhost:9814");
    assert_eq!(params(TOWER_ID).net_addr(0), "http://localhost:0");
    let with_scheme = RegisterParams::from_id(TOWER_ID)
        .unwrap()
        .with_host(Some("https://tower.net"))
        .unwrap()
        .with_port(Some(443))
        .unwrap();
    assert_eq!(with_scheme.net_addr(9814), "https://tower.net:443");
    let short = RegisterParams::from_id(TOWER_ID)
        .unwrap()
        .with_host(Some("htt"))
        .unwrap();
    assert_eq!(short.net_addr(65535), "http://htt:65535");
}
