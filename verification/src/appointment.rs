//! Appointments: what a user hands to the tower so that it watches for one
//! breach, and the locators that index them.

use crate::encoding::{
    be_bytes, hex_bytes, hex_decode, hex_encode, hex_text, is_hex_text, lemma_hex_round_trip,
    push_be_bytes,
};
use crate::ids::{bytes_eq, TransactionId, UserId};
use std::str::FromStr;
use vstd::prelude::*;
use vstd::slice::slice_to_vec;
use vstd::string::StringExecFns;

verus! {

/// Number of bytes of a locator.
pub const LOCATOR_LEN: usize = 16;

#[verifier::external_type_specification]
#[verifier::external_body]
pub struct ExTryFromSliceError(std::array::TryFromSliceError);

/// `<[u8; 16]>::try_from` on a slice: succeeds exactly on a slice of 16
/// bytes, and copies them.
#[verifier::external_body]
fn array_of_slice(data: &[u8]) -> (r: Result<[u8; 16], std::array::TryFromSliceError>)
    ensures
        r matches Ok(bytes) ==> bytes@ == data@,
        r is Err <==> data@.len() != 16,
{
    <[u8; 16]>::try_from(data)
}

/// The key under which the tower files an appointment: the first 16 bytes
/// of the id of the transaction that the appointment watches for.
#[derive(Debug, Clone, Copy, Eq, Hash)]
pub struct Locator {
    pub bytes: [u8; 16],
}

impl View for Locator {
    type V = Seq<u8>;

    open spec fn view(&self) -> Seq<u8> {
        self.bytes@
    }
}

impl PartialEq for Locator {
    fn eq(&self, other: &Self) -> (r: bool) {
        bytes_eq(&self.bytes, &other.bytes)
    }
}

impl vstd::std_specs::cmp::PartialEqSpecImpl for Locator {
    open spec fn obeys_eq_spec() -> bool {
        true
    }

    open spec fn eq_spec(&self, other: &Self) -> bool {
        self@ == other@
    }
}

/// The locator of a transaction id: its first 16 bytes.
pub open spec fn locator_of(txid: Seq<u8>) -> Seq<u8> {
    txid.subrange(0, 16)
}

/// What parsing a text as a locator gives: the 16 bytes that the text
/// stands for in hexadecimal, or the reason why there are none.
pub open spec fn locator_of_text(text: Seq<char>) -> Result<Seq<u8>, Seq<char>> {
    if !is_hex_text(text) {
        Err("Locator is not hex encoded"@)
    } else if text.len() != 32 {
        Err("Locator cannot be built from the given data"@)
    } else {
        Ok(hex_bytes(text))
    }
}

impl Locator {
    /// The locator of a transaction id: its first 16 bytes.
    pub fn new(txid: TransactionId) -> (locator: Self)
        ensures
            locator@ == locator_of(txid@),
    {
        let mut bytes = [0u8; 16];
        let mut i: usize = 0;
        while i < 16
            invariant
                i <= 16,
                forall|j: int| 0 <= j < i ==> bytes@[j] == txid@[j],
            decreases 16 - i,
        {
            bytes[i] = txid.bytes[i];
            i = i + 1;
        }
        assert(bytes@ =~= locator_of(txid@));
        Locator { bytes }
    }

    /// The 16 bytes of the locator.
    pub fn serialize(&self) -> (data: Vec<u8>)
        ensures
            data@ == self@,
    {
        slice_to_vec(self.bytes.as_slice())
    }

    /// Builds a locator from its bytes. Fails unless there are 16.
    pub fn deserialize(data: &[u8]) -> (r: Result<Self, std::array::TryFromSliceError>)
        ensures
            r matches Ok(locator) ==> locator@ == data@,
            r is Err <==> data@.len() != 16,
    {
        match array_of_slice(data) {
            Ok(bytes) => Ok(Locator { bytes }),
            Err(e) => Err(e),
        }
    }

    /// Builds a locator from its hexadecimal text.
    pub fn from_hex(text: &str) -> (r: Result<Self, String>)
        ensures
            r matches Ok(locator) ==> locator_of_text(text@) == Ok::<Seq<u8>, Seq<char>>(
                locator@,
            ),
            r matches Err(reason) ==> locator_of_text(text@) == Err::<Seq<u8>, Seq<char>>(
                reason@,
            ),
    {
        match hex_decode(text) {
            Ok(data) => match Locator::deserialize(data.as_slice()) {
                Ok(locator) => Ok(locator),
                Err(_) => Err("Locator cannot be built from the given data".to_owned()),
            },
            Err(_) => Err("Locator is not hex encoded".to_owned()),
        }
    }

    /// The lower-case hexadecimal text of the locator, from which
    /// `from_hex` builds the locator again.
    pub fn to_string(&self) -> (text: String)
        ensures
            text@ == hex_text(self@),
            locator_of_text(text@) == Ok::<Seq<u8>, Seq<char>>(self@),
    {
        proof {
            lemma_hex_round_trip(self@);
        }
        hex_encode(self.bytes.as_slice())
    }
}

impl From<TransactionId> for Locator {
    fn from(txid: TransactionId) -> (locator: Self) {
        let locator = Locator::new(txid);
        proof {
            let chosen = choose|l: Locator| l@ == locator_of(txid@);
            assert(chosen@ == locator@);
            assert(chosen.bytes =~= locator.bytes);
        }
        locator
    }
}

impl vstd::std_specs::convert::FromSpecImpl<TransactionId> for Locator {
    open spec fn obeys_from_spec() -> bool {
        true
    }

    open spec fn from_spec(txid: TransactionId) -> Self {
        choose|l: Locator| l@ == locator_of(txid@)
    }
}

impl FromStr for Locator {
    type Err = String;

    /// Builds a locator from its hexadecimal text, as `from_hex` does.
    fn from_str(text: &str) -> (r: Result<Self, String>)
        ensures
            r matches Ok(locator) ==> locator_of_text(text@) == Ok::<Seq<u8>, Seq<char>>(
                locator@,
            ),
            r matches Err(reason) ==> locator_of_text(text@) == Err::<Seq<u8>, Seq<char>>(
                reason@,
            ),
    {
        Locator::from_hex(text)
    }
}

/// What identifies an appointment in the tower: the user who sent it and
/// its locator.
#[derive(Debug, Clone, Copy, Eq, Hash)]
pub struct AppointmentId {
    pub user_id: UserId,
    pub locator: Locator,
}

impl View for AppointmentId {
    type V = (Seq<u8>, Seq<u8>);

    open spec fn view(&self) -> (Seq<u8>, Seq<u8>) {
        (self.user_id@, self.locator@)
    }
}

impl PartialEq for AppointmentId {
    fn eq(&self, other: &Self) -> (r: bool) {
        self.user_id == other.user_id && self.locator == other.locator
    }
}

impl vstd::std_specs::cmp::PartialEqSpecImpl for AppointmentId {
    open spec fn obeys_eq_spec() -> bool {
        true
    }

    open spec fn eq_spec(&self, other: &Self) -> bool {
        self@ == other@
    }
}

/// An appointment as a user states it.
#[derive(Debug)]
pub struct Appointment {
    /// The locator of the transaction to watch for.
    pub locator: Locator,
    /// A penalty transaction, encrypted under the id of the transaction to
    /// watch for.
    pub encrypted_blob: Vec<u8>,
    /// The delay of the `to_self` output of the watched commitment.
    pub to_self_delay: u32,
}

/// An appointment as a mathematical value.
pub struct AppointmentView {
    pub locator: Seq<u8>,
    pub encrypted_blob: Seq<u8>,
    pub to_self_delay: u32,
}

impl View for Appointment {
    type V = AppointmentView;

    open spec fn view(&self) -> AppointmentView {
        AppointmentView {
            locator: self.locator@,
            encrypted_blob: self.encrypted_blob@,
            to_self_delay: self.to_self_delay,
        }
    }
}

impl Clone for Appointment {
    fn clone(&self) -> (copy: Self)
        ensures
            copy@ == self@,
    {
        let encrypted_blob = self.encrypted_blob.clone();
        assert(encrypted_blob@ =~= self.encrypted_blob@);
        Appointment { locator: self.locator, encrypted_blob, to_self_delay: self.to_self_delay }
    }
}

impl PartialEq for Appointment {
    fn eq(&self, other: &Self) -> (r: bool) {
        let same_blob = self.encrypted_blob == other.encrypted_blob;
        assert(same_blob == (self.encrypted_blob@ =~= other.encrypted_blob@));
        self.locator == other.locator && same_blob && self.to_self_delay == other.to_self_delay
    }
}

impl Eq for Appointment {

}

impl vstd::std_specs::cmp::PartialEqSpecImpl for Appointment {
    open spec fn obeys_eq_spec() -> bool {
        true
    }

    open spec fn eq_spec(&self, other: &Self) -> bool {
        self@ == other@
    }
}

impl AppointmentView {
    /// The bytes that a user signs: the locator, the encrypted blob and
    /// the delay, most significant byte first.
    pub open spec fn serialized(self) -> Seq<u8> {
        self.locator + self.encrypted_blob + be_bytes(self.to_self_delay)
    }
}

impl Appointment {
    /// An appointment of the given parts.
    pub fn new(locator: Locator, encrypted_blob: Vec<u8>, to_self_delay: u32) -> (appointment: Self)
        ensures
            appointment.locator == locator,
            appointment.encrypted_blob == encrypted_blob,
            appointment.to_self_delay == to_self_delay,
    {
        Appointment { locator, encrypted_blob, to_self_delay }
    }

    /// The bytes that a user signs: the locator, the encrypted blob and
    /// the delay, most significant byte first.
    pub fn serialize(&self) -> (data: Vec<u8>)
        ensures
            data@ == self@.serialized(),
    {
        let mut data = self.locator.serialize();
        let mut i: usize = 0;
        while i < self.encrypted_blob.len()
            invariant
                i <= self.encrypted_blob.len(),
                data@ == self.locator@ + self.encrypted_blob@.subrange(0, i as int),
            decreases self.encrypted_blob.len() - i,
        {
            data.push(self.encrypted_blob[i]);
            assert(self.encrypted_blob@.subrange(0, i + 1) =~= self.encrypted_blob@.subrange(
                0,
                i as int,
            ).push(self.encrypted_blob@[i as int]));
            i = i + 1;
        }
        assert(self.encrypted_blob@.subrange(0, i as int) =~= self.encrypted_blob@);
        push_be_bytes(&mut data, self.to_self_delay);
        data
    }
}

/// What the tower knows of an appointment that a user asks about.
#[derive(Debug, Clone, Copy, PartialEq, Eq, Structural)]
pub enum AppointmentStatus {
    NotFound,
    BeingWatched,
    DisputeResponded,
}

/// The status that a number stands for: 1 and 2 for the two states of a
/// known appointment, anything else for an unknown one.
pub open spec fn status_of_code(code: i32) -> AppointmentStatus {
    if code == 1 {
        AppointmentStatus::BeingWatched
    } else if code == 2 {
        AppointmentStatus::DisputeResponded
    } else {
        AppointmentStatus::NotFound
    }
}

/// What parsing a text as a status gives: the status of that name, or a
/// message that holds the text.
pub open spec fn status_of_name(name: Seq<char>) -> Result<AppointmentStatus, Seq<char>> {
    if name == "being_watched"@ {
        Ok(AppointmentStatus::BeingWatched)
    } else if name == "dispute_responded"@ {
        Ok(AppointmentStatus::DisputeResponded)
    } else if name == "not_found"@ {
        Ok(AppointmentStatus::NotFound)
    } else {
        Err("Unknown status: "@ + name)
    }
}

impl From<i32> for AppointmentStatus {
    fn from(code: i32) -> (status: Self) {
        if code == 1 {
            AppointmentStatus::BeingWatched
        } else if code == 2 {
            AppointmentStatus::DisputeResponded
        } else {
            AppointmentStatus::NotFound
        }
    }
}

impl vstd::std_specs::convert::FromSpecImpl<i32> for AppointmentStatus {
    open spec fn obeys_from_spec() -> bool {
        true
    }

    open spec fn from_spec(code: i32) -> Self {
        status_of_code(code)
    }
}

impl AppointmentStatus {
    /// The number that stands for the status.
    pub open spec fn spec_code(self) -> i32 {
        match self {
            AppointmentStatus::NotFound => 0,
            AppointmentStatus::BeingWatched => 1,
            AppointmentStatus::DisputeResponded => 2,
        }
    }

    /// The name of the status.
    pub open spec fn name(self) -> Seq<char> {
        match self {
            AppointmentStatus::NotFound => "not_found"@,
            AppointmentStatus::BeingWatched => "being_watched"@,
            AppointmentStatus::DisputeResponded => "dispute_responded"@,
        }
    }

    /// The number that stands for the status, from which `from` gives the
    /// status again.
    pub fn code(&self) -> (code: i32)
        ensures
            code == self.spec_code(),
            status_of_code(code) == *self,
    {
        match self {
            AppointmentStatus::NotFound => 0,
            AppointmentStatus::BeingWatched => 1,
            AppointmentStatus::DisputeResponded => 2,
        }
    }

    /// The status of the given name.
    pub fn from_name(name: &str) -> (r: Result<Self, String>)
        ensures
            r matches Ok(status) ==> status_of_name(name@) == Ok::<AppointmentStatus, Seq<char>>(
                status,
            ),
            r matches Err(message) ==> status_of_name(name@) == Err::<
                AppointmentStatus,
                Seq<char>,
            >(message@),
    {
        let owned = name.to_owned();
        if owned == "being_watched".to_owned() {
            Ok(AppointmentStatus::BeingWatched)
        } else if owned == "dispute_responded".to_owned() {
            Ok(AppointmentStatus::DisputeResponded)
        } else if owned == "not_found".to_owned() {
            Ok(AppointmentStatus::NotFound)
        } else {
            let mut message = "Unknown status: ".to_owned();
            message.append(name);
            Err(message)
        }
    }

    /// The name of the status, from which `from_name` gives the status
    /// again.
    pub fn to_string(&self) -> (text: String)
        ensures
            text@ == self.name(),
            status_of_name(text@) == Ok::<AppointmentStatus, Seq<char>>(*self),
    {
        proof {
            reveal_strlit("not_found");
            reveal_strlit("being_watched");
            reveal_strlit("dispute_responded");
            assert("not_found"@.len() == 9);
            assert("being_watched"@.len() == 13);
            assert("dispute_responded"@.len() == 17);
        }
        match self {
            AppointmentStatus::NotFound => "not_found".to_owned(),
            AppointmentStatus::BeingWatched => "being_watched".to_owned(),
            AppointmentStatus::DisputeResponded => "dispute_responded".to_owned(),
        }
    }
}

impl FromStr for AppointmentStatus {
    type Err = String;

    /// The status of the given name, as `from_name` gives it.
    fn from_str(name: &str) -> (r: Result<Self, String>)
        ensures
            r matches Ok(status) ==> status_of_name(name@) == Ok::<AppointmentStatus, Seq<char>>(
                status,
            ),
            r matches Err(message) ==> status_of_name(name@) == Err::<
                AppointmentStatus,
                Seq<char>,
            >(message@),
    {
        AppointmentStatus::from_name(name)
    }
}

} // verus!
