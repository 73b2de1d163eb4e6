//! The answers of a tower to a client's requests, and what the client
//! makes of them.

use crate::cryptography::{message_signer, recover_signer};
use crate::encoding::{be_bytes, push_be_bytes};
use crate::ids::UserId;
use vstd::prelude::*;
use vstd::slice::slice_to_vec;
use vstd::string::StringExecFns;

verus! {

/// What a tower answers to a request: what was asked for, or an error.
#[derive(Debug)]
pub enum ApiResponse<T> {
    Response(T),
    Error(ApiError),
}

/// An error that a tower answers with.
#[derive(Debug)]
pub struct ApiError {
    pub error: String,
    pub error_code: u8,
}

/// Why a request to a tower got no answer that the client can read.
#[derive(Debug)]
pub enum RequestError {
    ConnectionError(String),
    DeserializeError(String),
    Unexpected(String),
}

impl RequestError {
    /// Whether the tower could not be connected to.
    pub fn is_connection(&self) -> (r: bool)
        ensures
            r == (self is ConnectionError),
    {
        match self {
            RequestError::ConnectionError(_) => true,
            _ => false,
        }
    }

    /// The error for a request that could not be sent: the tower cannot be
    /// connected to where the connection failed or timed out, and something
    /// unexpected happened otherwise.
    pub fn from_transport(is_connect: bool, is_timeout: bool) -> (error: Self)
        ensures
            is_connect || is_timeout ==> (error matches RequestError::ConnectionError(message)
                && message@ == "Cannot connect to the tower. Connection refused"@),
            !(is_connect || is_timeout) ==> (error matches RequestError::Unexpected(message)
                && message@ == "Unexpected error ocurred (see logs for more info)"@),
    {
        if is_connect || is_timeout {
            RequestError::ConnectionError(
                "Cannot connect to the tower. Connection refused".to_owned(),
            )
        } else {
            RequestError::Unexpected("Unexpected error ocurred (see logs for more info)".to_owned())
        }
    }

    /// The error for an answer whose body cannot be read, with what the
    /// reader said of it.
    pub fn from_body(detail: &str) -> (error: Self)
        ensures
            error matches RequestError::DeserializeError(message) && message@
                == "Unexpected response body. Error: "@ + detail@,
    {
        let mut message = "Unexpected response body. Error: ".to_owned();
        message.append(detail);
        RequestError::DeserializeError(message)
    }
}

/// Why an appointment was not accepted by a tower.
#[derive(Debug)]
pub enum AddAppointmentError {
    RequestError(RequestError),
    ApiError(ApiError),
    SignatureError(SignatureError),
}

impl From<RequestError> for AddAppointmentError {
    fn from(r: RequestError) -> (error: Self) {
        AddAppointmentError::RequestError(r)
    }
}

impl vstd::std_specs::convert::FromSpecImpl<RequestError> for AddAppointmentError {
    open spec fn obeys_from_spec() -> bool {
        true
    }

    open spec fn from_spec(r: RequestError) -> Self {
        AddAppointmentError::RequestError(r)
    }
}

/// The receipt of an appointment: what a tower signs when it accepts
/// one.
#[derive(Debug)]
pub struct AppointmentReceipt {
    pub user_signature: String,
    pub start_block: u32,
}

/// The bytes of a receipt that a tower signs: the user's signature, then
/// the start block, most significant byte first.
pub open spec fn receipt_bytes(user_signature: Seq<char>, start_block: u32) -> Seq<u8> {
    vstd::utf8::encode_utf8(user_signature) + be_bytes(start_block)
}

impl AppointmentReceipt {
    /// The receipt for a user's signature and a start block.
    pub fn new(user_signature: String, start_block: u32) -> (receipt: Self)
        ensures
            receipt.user_signature == user_signature,
            receipt.start_block == start_block,
    {
        AppointmentReceipt { user_signature, start_block }
    }

    /// The bytes that a tower signs.
    pub fn serialize(&self) -> (data: Vec<u8>)
        ensures
            data@ == receipt_bytes(self.user_signature@, self.start_block),
    {
        let mut data = slice_to_vec(self.user_signature.as_str().as_bytes());
        push_be_bytes(&mut data, self.start_block);
        data
    }
}

/// A receipt that was not signed by the tower it was asked of.
#[derive(Debug)]
pub struct SignatureError {
    receipt: AppointmentReceipt,
    signature: String,
    recovered_id: UserId,
}

impl SignatureError {
    /// The error for a receipt with the signature that came with it and the
    /// tower that the signature is of.
    pub fn new(receipt: AppointmentReceipt, signature: String, recovered_id: UserId) -> (error: Self)
        ensures
            error.receipt() == receipt,
            error.signature() == signature,
            error.recovered_id() == recovered_id,
    {
        SignatureError { receipt, signature, recovered_id }
    }

    /// The receipt.
    pub closed spec fn receipt(&self) -> AppointmentReceipt {
        self.receipt
    }

    /// The signature that came with the receipt.
    pub closed spec fn signature(&self) -> String {
        self.signature
    }

    /// The tower that the signature is of.
    pub closed spec fn recovered_id(&self) -> UserId {
        self.recovered_id
    }

    /// The tower that the signature is of.
    pub fn signer(&self) -> (id: UserId)
        ensures
            id == self.recovered_id(),
    {
        self.recovered_id
    }
}

/// What a tower answers when it accepts an appointment.
#[derive(Debug)]
pub struct AddAppointmentResponse {
    pub locator: Vec<u8>,
    pub start_block: u32,
    pub signature: String,
    pub available_slots: u32,
    pub subscription_expiry: u32,
}

/// What a client makes of a tower's answer to an appointment, once it
/// knows who signed the receipt. An error of the tower is an error. An
/// accepted appointment stands where the tower asked has signed its receipt,
/// and is an error where another has. Where nobody can be told to have
/// signed it, there is no verdict.
pub fn judge_appointment_response(
    tower_id: UserId,
    user_signature: &String,
    response: ApiResponse<AddAppointmentResponse>,
    signer: Option<UserId>,
) -> (verdict: Option<Result<AddAppointmentResponse, AddAppointmentError>>)
    ensures
        response matches ApiResponse::Error(e) ==> verdict == Some(
            Err::<AddAppointmentResponse, AddAppointmentError>(AddAppointmentError::ApiError(e)),
        ),
        response matches ApiResponse::Response(r) ==> match signer {
            None => verdict is None,
            Some(id) => if id@ == tower_id@ {
                verdict == Some(Ok::<AddAppointmentResponse, AddAppointmentError>(r))
            } else {
                &&& verdict matches Some(Err(AddAppointmentError::SignatureError(e)))
                &&& e.receipt().user_signature@ == user_signature@
                &&& e.receipt().start_block == r.start_block
                &&& e.signature() == r.signature
                &&& e.recovered_id() == id
            },
        },
{
    match response {
        ApiResponse::Response(r) => match signer {
            Some(id) => {
                if id == tower_id {
                    Some(Ok(r))
                } else {
                    let receipt = AppointmentReceipt::new(user_signature.clone(), r.start_block);
                    Some(
                        Err(
                            AddAppointmentError::SignatureError(
                                SignatureError::new(receipt, r.signature, id),
                            ),
                        ),
                    )
                }
            },
            None => None,
        },
        ApiResponse::Error(e) => Some(Err(AddAppointmentError::ApiError(e))),
    }
}

/// Who signed the receipt in a tower's answer, as far as the signature
/// tells; nobody where the tower answered with an error.
pub open spec fn response_signer(
    user_signature: Seq<char>,
    response: ApiResponse<AddAppointmentResponse>,
) -> Option<Seq<u8>> {
    match response {
        ApiResponse::Response(r) => message_signer(
            receipt_bytes(user_signature, r.start_block),
            r.signature@,
        ),
        ApiResponse::Error(_) => None,
    }
}

/// Recovers who signed the receipt in a tower's answer to an appointment:
/// nobody where the tower answered with an error.
pub fn recover_response_signer(
    user_signature: &String,
    response: &ApiResponse<AddAppointmentResponse>,
) -> (signer: Option<UserId>)
    ensures
        crate::gatekeeper::signer_view(signer) == response_signer(user_signature@, *response),
{
    match response {
        ApiResponse::Response(r) => {
            let receipt = AppointmentReceipt::new(user_signature.clone(), r.start_block);
            let message = receipt.serialize();
            match recover_signer(message.as_slice(), r.signature.as_str()) {
                Ok(bytes) => Some(UserId { bytes }),
                Err(_) => None,
            }
        },
        ApiResponse::Error(_) => None,
    }
}

} // verus!
