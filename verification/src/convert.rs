//! The parameters of a client's commands, read from the values that the
//! node hands over.

use crate::appointment::{locator_of, locator_of_text, Appointment, AppointmentView, Locator};
use crate::cryptography::{encrypt, encrypted, transaction_id_of, PenaltyTransaction};
use crate::encoding::{
    decimal_string, decimal_text, hex_bytes, hex_decode, is_hex_text,
};
use crate::ids::{user_id_of_text, TransactionId, UserId};
use crate::text::{
    after, before, find, parse_u64, parsed_u64, split_once, trim, trimmed,
};
use vstd::prelude::*;
use vstd::string::StrSliceExecFns;
use vstd::string::StringExecFns;

verus! {

/// The text that JSON writes for a string: the string between quotes, with
/// escapes where JSON needs them.
pub uninterp spec fn json_quoted(text: Seq<char>) -> Seq<char>;

/// `to_string` of a `serde_json::Value::String`: the JSON text of a
/// string is a function of the string alone.
#[verifier::external_body]
fn json_quote(text: &str) -> (quoted: String)
    ensures
        quoted@ == json_quoted(text@),
{
    serde_json::Value::String(text.to_owned()).to_string()
}

/// A value of a command: what the commands tell apart in a JSON value.
#[derive(Debug)]
pub enum RpcValue {
    /// A string.
    String(String),
    /// A number that is a whole number from 0 to 2^64 - 1.
    Number(u64),
    /// An array.
    Array(Vec<RpcValue>),
    /// Any other value, as the compact JSON text of it.
    Other(String),
}

/// A value of a command as a mathematical value.
pub enum RpcValueView {
    String(Seq<char>),
    Number(u64),
    Array(Seq<RpcValueView>),
    Other(Seq<char>),
}

impl RpcValue {
    /// The value as a mathematical value.
    pub open spec fn model(&self) -> RpcValueView
        decreases self,
    {
        match self {
            RpcValue::String(text) => RpcValueView::String(text@),
            RpcValue::Number(number) => RpcValueView::Number(*number),
            RpcValue::Array(items) => RpcValueView::Array(models(items@)),
            RpcValue::Other(text) => RpcValueView::Other(text@),
        }
    }
}

/// The values of a list as mathematical values.
pub open spec fn models(items: Seq<RpcValue>) -> Seq<RpcValueView>
    decreases items,
{
    Seq::new(
        items.len(),
        |i: int|
            if 0 <= i < items.len() {
                items[i].model()
            } else {
                RpcValueView::Number(0)
            },
    )
}

impl View for RpcValue {
    type V = RpcValueView;

    open spec fn view(&self) -> RpcValueView {
        self.model()
    }
}

/// The compact JSON texts of a list of values.
pub open spec fn rendered_all(items: Seq<RpcValueView>) -> Seq<Seq<char>>
    decreases items,
{
    Seq::new(
        items.len(),
        |i: int|
            if 0 <= i < items.len() {
                rendered(items[i])
            } else {
                Seq::empty()
            },
    )
}

/// Texts joined by commas.
pub open spec fn joined(parts: Seq<Seq<char>>) -> Seq<char>
    decreases parts.len(),
{
    if parts.len() == 0 {
        Seq::empty()
    } else if parts.len() == 1 {
        parts[0]
    } else {
        joined(parts.drop_last()) + seq![','] + parts.last()
    }
}

/// The compact JSON text of a value.
pub open spec fn rendered(value: RpcValueView) -> Seq<char>
    decreases value,
{
    match value {
        RpcValueView::String(text) => json_quoted(text),
        RpcValueView::Number(number) => decimal_text(number as nat),
        RpcValueView::Array(items) => seq!['['] + joined(rendered_all(items)) + seq![']'],
        RpcValueView::Other(text) => text,
    }
}

/// Two texts, one after the other.
fn concat(first: &str, second: &str) -> (both: String)
    ensures
        both@ == first@ + second@,
{
    let mut both = first.to_owned();
    both.append(second);
    both
}

impl RpcValue {
    /// The compact JSON texts of the first `n` values of a list, joined
    /// by commas.
    fn render_first(items: &Vec<RpcValue>, n: usize) -> (text: String)
        requires
            n <= items@.len(),
        ensures
            text@ == joined(rendered_all(models(items@)).take(n as int)),
        decreases items, n,
    {
        let ghost parts = rendered_all(models(items@));
        if n == 0 {
            let text = String::new();
            assert(text@ =~= joined(parts.take(0)));
            text
        } else {
            proof {
                reveal_strlit(",");
                assert(parts.take(n as int).drop_last() =~= parts.take(n - 1));
                assert(parts.take(n as int).last() == parts[n - 1]);
                assert(parts[n - 1] == rendered(items@[n - 1]@));
                assert(parts.take(1)[0] == parts[0]);
            }
            let last = items[n - 1].render();
            if n == 1 {
                last
            } else {
                let mut text = RpcValue::render_first(items, n - 1);
                text.append(",");
                text.append(last.as_str());
                assert(text@ =~= joined(parts.take(n as int)));
                text
            }
        }
    }

    /// The compact JSON text of the value.
    pub fn render(&self) -> (text: String)
        ensures
            text@ == rendered(self@),
        decreases self, 0nat,
    {
        match self {
            RpcValue::String(text) => json_quote(text.as_str()),
            RpcValue::Number(number) => decimal_string(*number),
            RpcValue::Array(items) => {
                proof {
                    reveal_strlit("[");
                    reveal_strlit("]");
                }
                let ghost parts = rendered_all(models(items@));
                assert(parts.take(items@.len() as int) =~= parts);
                let inside = RpcValue::render_first(items, items.len());
                let mut text = concat("[", inside.as_str());
                text.append("]");
                assert(text@ =~= seq!['['] + joined(parts) + seq![']']);
                text
            },
            RpcValue::Other(text) => text.clone(),
        }
    }
}

/// Why the parameters of a registration cannot be read.
#[derive(Debug)]
pub enum RegisterError {
    InvalidId(String),
    InvalidHost(String),
    InvalidPort(String),
    InvalidFormat(String),
}

/// A registration error as a mathematical value.
pub enum RegisterErrorView {
    InvalidId(Seq<char>),
    InvalidHost(Seq<char>),
    InvalidPort(Seq<char>),
    InvalidFormat(Seq<char>),
}

impl View for RegisterError {
    type V = RegisterErrorView;

    open spec fn view(&self) -> RegisterErrorView {
        match self {
            RegisterError::InvalidId(message) => RegisterErrorView::InvalidId(message@),
            RegisterError::InvalidHost(message) => RegisterErrorView::InvalidHost(message@),
            RegisterError::InvalidPort(message) => RegisterErrorView::InvalidPort(message@),
            RegisterError::InvalidFormat(message) => RegisterErrorView::InvalidFormat(message@),
        }
    }
}

impl RegisterError {
    /// The message of the error.
    pub fn to_string(&self) -> (message: String)
        ensures
            message@ == match self@ {
                RegisterErrorView::InvalidId(m) => m,
                RegisterErrorView::InvalidHost(m) => m,
                RegisterErrorView::InvalidPort(m) => m,
                RegisterErrorView::InvalidFormat(m) => m,
            },
    {
        match self {
            RegisterError::InvalidId(message) => message.clone(),
            RegisterError::InvalidHost(message) => message.clone(),
            RegisterError::InvalidPort(message) => message.clone(),
            RegisterError::InvalidFormat(message) => message.clone(),
        }
    }
}

/// The parameters of a registration: the tower and, where given, the host
/// and the port at which it answers.
#[derive(Debug)]
pub struct RegisterParams {
    pub tower_id: UserId,
    pub host: Option<String>,
    pub port: Option<u16>,
}

/// The parameters of a registration as a mathematical value.
pub struct RegisterParamsView {
    pub tower_id: Seq<u8>,
    pub host: Option<Seq<char>>,
    pub port: Option<u16>,
}

impl View for RegisterParams {
    type V = RegisterParamsView;

    open spec fn view(&self) -> RegisterParamsView {
        RegisterParamsView {
            tower_id: self.tower_id@,
            host: match self.host {
                Some(host) => Some(host@),
                None => None,
            },
            port: self.port,
        }
    }
}

/// What reading the parameters of a registration gives, as a mathematical
/// value.
pub open spec fn outcome(r: Result<RegisterParams, RegisterError>) -> Result<
    RegisterParamsView,
    RegisterErrorView,
> {
    match r {
        Ok(params) => Ok(params@),
        Err(error) => Err(error@),
    }
}

/// The text of a text that may be there.
pub open spec fn text_view(text: Option<&str>) -> Option<Seq<char>> {
    match text {
        Some(t) => Some(t@),
        None => None,
    }
}

/// The parameters that name a tower and nothing more: the text must be
/// the hexadecimal text of a public key.
pub open spec fn params_from_id(tower_id: Seq<char>) -> Result<
    RegisterParamsView,
    RegisterErrorView,
> {
    match user_id_of_text(tower_id) {
        Some(id) => Ok(RegisterParamsView { tower_id: id, host: None, port: None }),
        None => Err(RegisterErrorView::InvalidId("Invalid tower id"@)),
    }
}

/// Parameters with a host: a host that is given must not be empty and
/// must hold no space.
pub open spec fn params_with_host(params: RegisterParamsView, host: Option<Seq<char>>) -> Result<
    RegisterParamsView,
    RegisterErrorView,
> {
    match host {
        Some(h) => if h.len() == 0 {
            Err(RegisterErrorView::InvalidHost("hostname is empty"@))
        } else if h.contains(' ') {
            Err(RegisterErrorView::InvalidHost("hostname contains white spaces"@))
        } else {
            Ok(RegisterParamsView { host: Some(h), ..params })
        },
        None => Ok(RegisterParamsView { host: None, ..params }),
    }
}

/// Parameters with a port: a port that is given must be below 2^16.
pub open spec fn params_with_port(params: RegisterParamsView, port: Option<u64>) -> Result<
    RegisterParamsView,
    RegisterErrorView,
> {
    match port {
        Some(p) => if p > 0xffff {
            Err(
                RegisterErrorView::InvalidHost(
                    "port must be a 16-byte integer. Received: "@ + decimal_text(p as nat),
                ),
            )
        } else {
            Ok(RegisterParamsView { port: Some(p as u16), ..params })
        },
        None => Ok(RegisterParamsView { port: None, ..params }),
    }
}

/// The parameters made of the texts of a tower, a host and a port. The
/// tower is read first, then the host, then the port.
pub open spec fn params_new(
    tower_id: Seq<char>,
    host: Option<Seq<char>>,
    port: Option<Seq<char>>,
) -> Result<RegisterParamsView, RegisterErrorView> {
    match params_from_id(tower_id) {
        Err(e) => Err(e),
        Ok(named) => match params_with_host(named, host) {
            Err(e) => Err(e),
            Ok(hosted) => match port {
                Some(p) => match parsed_u64(p) {
                    Some(number) => params_with_port(hosted, Some(number)),
                    None => Err(RegisterErrorView::InvalidPort("Port is not a number: "@ + p)),
                },
                None => params_with_port(hosted, None),
            },
        },
    }
}

/// The parameters that a text of the form `tower_id[@host[:port]]` stands
/// for. White space around the text does not count. What follows a second
/// `@`, or a second `:` after the `@`, does not count either.
pub open spec fn params_of_text(text: Seq<char>) -> Result<RegisterParamsView, RegisterErrorView> {
    let s = trimmed(text);
    match after(s, '@') {
        Some(rest) => {
            let address = before(rest, '@');
            params_new(
                before(s, '@'),
                Some(before(address, ':')),
                match after(address, ':') {
                    Some(tail) => Some(before(tail, ':')),
                    None => None,
                },
            )
        },
        None => params_from_id(before(s, '@')),
    }
}

/// The parameters that a list of two or three values stands for: a tower,
/// a host and, where there is a third value, a port.
pub open spec fn params_of_list(items: Seq<RpcValueView>) -> Result<
    RegisterParamsView,
    RegisterErrorView,
> {
    match items[0] {
        RpcValueView::String(tower_id) => match items[1] {
            RpcValueView::String(host) => {
                if items.len() == 3 && !(items[2] is Number) {
                    Err(
                        RegisterErrorView::InvalidPort(
                            "port must be a number. Received: "@ + rendered(items[2]),
                        ),
                    )
                } else {
                    match params_from_id(tower_id) {
                        Err(e) => Err(e),
                        Ok(named) => match params_with_host(named, Some(host)) {
                            Err(e) => Err(e),
                            Ok(hosted) => params_with_port(
                                hosted,
                                if items.len() == 3 {
                                    Some(items[2]->Number_0)
                                } else {
                                    None
                                },
                            ),
                        },
                    }
                }
            },
            _ => Err(
                RegisterErrorView::InvalidHost(
                    "host must be a string. Received: "@ + rendered(items[1]),
                ),
            ),
        },
        _ => Err(
            RegisterErrorView::InvalidId(
                "tower_id must be a string. Received: "@ + rendered(items[0]),
            ),
        ),
    }
}

/// The parameters of a registration that a value stands for: a text of
/// the form `tower_id[@host[:port]]`, a list of one such value, or a list of
/// a tower, a host and, if wanted, a port.
pub open spec fn params_of_value(value: RpcValueView) -> Result<
    RegisterParamsView,
    RegisterErrorView,
>
    decreases value,
{
    match value {
        RpcValueView::String(text) => params_of_text(text),
        RpcValueView::Array(items) => if items.len() == 1 {
            params_of_value(items[0])
        } else if items.len() == 2 || items.len() == 3 {
            params_of_list(items)
        } else {
            Err(
                RegisterErrorView::InvalidFormat(
                    "Unexpected request format. The request needs 1-3 parameters. Received: "@
                        + decimal_text(items.len()),
                ),
            )
        },
        _ => Err(
            RegisterErrorView::InvalidFormat(
                "Unexpected request format. Expected: 'tower_id[@host][:port]' or 'tower_id [host] [port]'. Received: '"@
                    + rendered(value) + "'"@,
            ),
        ),
    }
}

impl RegisterParams {
    /// The parameters made of the texts of a tower and, where given, of a
    /// host and a port.
    pub fn new(tower_id: &str, host: Option<&str>, port: Option<&str>) -> (r: Result<
        Self,
        RegisterError,
    >)
        ensures
            outcome(r) == params_new(tower_id@, text_view(host), text_view(port)),
    {
        let params = match RegisterParams::from_id(tower_id) {
            Ok(named) => match named.with_host(host) {
                Ok(hosted) => hosted,
                Err(e) => {
                    return Err(e);
                },
            },
            Err(e) => {
                return Err(e);
            },
        };
        let port = match port {
            Some(p) => match parse_u64(p) {
                Some(number) => Some(number),
                None => {
                    return Err(RegisterError::InvalidPort(concat("Port is not a number: ", p)));
                },
            },
            None => None,
        };
        params.with_port(port)
    }

    /// The parameters that name a tower and nothing more.
    pub fn from_id(tower_id: &str) -> (r: Result<Self, RegisterError>)
        ensures
            outcome(r) == params_from_id(tower_id@),
    {
        match UserId::from_hex(tower_id) {
            Some(id) => Ok(RegisterParams { tower_id: id, host: None, port: None }),
            None => Err(RegisterError::InvalidId("Invalid tower id".to_owned())),
        }
    }

    /// The parameters with the given host in place of theirs.
    pub fn with_host(self, host: Option<&str>) -> (r: Result<Self, RegisterError>)
        ensures
            outcome(r) == params_with_host(self@, text_view(host)),
    {
        match host {
            Some(h) => {
                proof {
                    crate::text::lemma_position(h@, ' ');
                }
                if h.unicode_len() == 0 {
                    Err(RegisterError::InvalidHost("hostname is empty".to_owned()))
                } else if find(h, ' ') < h.unicode_len() {
                    Err(RegisterError::InvalidHost("hostname contains white spaces".to_owned()))
                } else {
                    Ok(
                        RegisterParams {
                            tower_id: self.tower_id,
                            host: Some(h.to_owned()),
                            port: self.port,
                        },
                    )
                }
            },
            None => Ok(RegisterParams { tower_id: self.tower_id, host: None, port: self.port }),
        }
    }

    /// The parameters with the given port in place of theirs.
    pub fn with_port(self, port: Option<u64>) -> (r: Result<Self, RegisterError>)
        ensures
            outcome(r) == params_with_port(self@, port),
    {
        match port {
            Some(p) => {
                if p > 0xffff {
                    let number = decimal_string(p);
                    Err(
                        RegisterError::InvalidHost(
                            concat("port must be a 16-byte integer. Received: ", number.as_str()),
                        ),
                    )
                } else {
                    Ok(
                        RegisterParams {
                            tower_id: self.tower_id,
                            host: self.host,
                            port: Some(p as u16),
                        },
                    )
                }
            },
            None => Ok(RegisterParams { tower_id: self.tower_id, host: self.host, port: None }),
        }
    }

    /// The parameters that a text of the form `tower_id[@host[:port]]`
    /// stands for.
    pub fn from_text(text: &str) -> (r: Result<Self, RegisterError>)
        ensures
            outcome(r) == params_of_text(text@),
    {
        let s = trim(text);
        let (tower_id, rest) = split_once(s, '@');
        match rest {
            Some(rest) => {
                let (address, _) = split_once(rest, '@');
                let (host, tail) = split_once(address, ':');
                let port = match tail {
                    Some(tail) => {
                        let (port, _) = split_once(tail, ':');
                        Some(port)
                    },
                    None => None,
                };
                RegisterParams::new(tower_id, Some(host), port)
            },
            None => RegisterParams::from_id(tower_id),
        }
    }

    /// The parameters that a list of two or three values stands for.
    fn from_list(items: &Vec<RpcValue>) -> (r: Result<Self, RegisterError>)
        requires
            items@.len() == 2 || items@.len() == 3,
        ensures
            outcome(r) == params_of_list(models(items@)),
    {
        let tower_id = match &items[0] {
            RpcValue::String(text) => text,
            other => {
                let value = other.render();
                return Err(
                    RegisterError::InvalidId(
                        concat("tower_id must be a string. Received: ", value.as_str()),
                    ),
                );
            },
        };
        let host = match &items[1] {
            RpcValue::String(text) => text,
            other => {
                let value = other.render();
                return Err(
                    RegisterError::InvalidHost(
                        concat("host must be a string. Received: ", value.as_str()),
                    ),
                );
            },
        };
        let port = if items.len() == 3 {
            match &items[2] {
                RpcValue::Number(number) => Some(*number),
                other => {
                    let value = other.render();
                    return Err(
                        RegisterError::InvalidPort(
                            concat("port must be a number. Received: ", value.as_str()),
                        ),
                    );
                },
            }
        } else {
            None
        };
        match RegisterParams::from_id(tower_id.as_str()) {
            Ok(named) => match named.with_host(Some(host.as_str())) {
                Ok(hosted) => hosted.with_port(port),
                Err(e) => Err(e),
            },
            Err(e) => Err(e),
        }
    }

    /// The parameters of a registration that a value stands for.
    pub fn from_value(value: &RpcValue) -> (r: Result<Self, RegisterError>)
        ensures
            outcome(r) == params_of_value(value@),
        decreases value,
    {
        match value {
            RpcValue::String(text) => RegisterParams::from_text(text.as_str()),
            RpcValue::Array(items) => {
                if items.len() == 1 {
                    RegisterParams::from_value(&items[0])
                } else if items.len() == 2 || items.len() == 3 {
                    RegisterParams::from_list(items)
                } else {
                    let count = decimal_string(items.len() as u64);
                    Err(
                        RegisterError::InvalidFormat(
                            concat(
                                "Unexpected request format. The request needs 1-3 parameters. Received: ",
                                count.as_str(),
                            ),
                        ),
                    )
                }
            },
            other => {
                let value_text = other.render();
                let mut message = concat(
                    "Unexpected request format. Expected: 'tower_id[@host][:port]' or 'tower_id [host] [port]'. Received: '",
                    value_text.as_str(),
                );
                message.append("'");
                Err(RegisterError::InvalidFormat(message))
            },
        }
    }

    /// The parameters of a registration that a value stands for.
    pub fn try_from(value: RpcValue) -> (r: Result<Self, RegisterError>)
        ensures
            outcome(r) == params_of_value(value@),
    {
        RegisterParams::from_value(&value)
    }
}

/// The host at which a tower is taken to answer where none is given.
pub open spec fn default_host() -> Seq<char> {
    "localhost"@
}

/// The address of a tower: host and port, after `http://` unless the host
/// starts with `http` itself. A host or a port that is not given is the
/// default one.
pub open spec fn net_addr_of(host: Option<Seq<char>>, port: Option<u16>, default_port: u16) -> Seq<
    char,
> {
    let address = match host {
        Some(h) => h,
        None => default_host(),
    } + seq![':'] + decimal_text(
        match port {
            Some(p) => p,
            None => default_port,
        } as nat,
    );
    if "http"@.is_prefix_of(address) {
        address
    } else {
        "http://"@ + address
    }
}

impl RegisterParams {
    /// The address at which the tower of the parameters is asked.
    pub fn net_addr(&self, default_port: u16) -> (address: String)
        ensures
            address@ == net_addr_of(self@.host, self@.port, default_port),
    {
        proof {
            reveal_strlit(":");
            reveal_strlit("http");
        }
        let port = match self.port {
            Some(p) => p,
            None => default_port,
        };
        let mut address = match &self.host {
            Some(h) => h.clone(),
            None => "localhost".to_owned(),
        };
        address.append(":");
        address.append(decimal_string(port as u64).as_str());
        let text = address.as_str();
        let with_scheme = text.unicode_len() >= 4 && text.get_char(0) == 'h' && text.get_char(1)
            == 't' && text.get_char(2) == 't' && text.get_char(3) == 'p';
        assert(with_scheme == "http"@.is_prefix_of(address@)) by {
            if with_scheme {
                assert("http"@ =~= address@.subrange(0, 4));
            } else if "http"@.is_prefix_of(address@) {
                assert("http"@ == address@.subrange(0, 4));
                assert(address@.subrange(0, 4)[0] == 'h');
                assert(address@.subrange(0, 4)[1] == 't');
                assert(address@.subrange(0, 4)[2] == 't');
                assert(address@.subrange(0, 4)[3] == 'p');
            }
        }
        if with_scheme {
            address
        } else {
            concat("http://", address.as_str())
        }
    }
}

/// The parameters of a question about an appointment: the tower that was
/// handed the appointment, and the locator of the appointment.
#[derive(Debug)]
pub struct GetAppointmentParams {
    pub tower_id: UserId,
    pub locator: Locator,
}

/// What the parameters of a question about an appointment are read as: a
/// list of the hexadecimal texts of a tower and of a locator.
pub open spec fn appointment_params_of_value(value: RpcValueView) -> Result<
    (Seq<u8>, Seq<u8>),
    Seq<char>,
> {
    match value {
        RpcValueView::Array(items) => if items.len() != 2 {
            Err(
                "Unexpected request format. The request needs 2 parameter. Received: "@
                    + decimal_text(items.len()),
            )
        } else {
            match items[0] {
                RpcValueView::String(tower_text) => match user_id_of_text(tower_text) {
                    Some(tower_id) => match items[1] {
                        RpcValueView::String(locator_text) => match locator_of_text(
                            locator_text,
                        ) {
                            Ok(locator) => Ok((tower_id, locator)),
                            Err(reason) => Err(reason),
                        },
                        _ => Err("locator must be a hex encoded string"@),
                    },
                    None => Err("Invalid tower id"@),
                },
                _ => Err("tower_id must be a hex encoded string"@),
            }
        },
        _ => Err(
            "Unexpected request format. Expected: tower_id locator. Received: '"@ + rendered(
                value,
            ) + "'"@,
        ),
    }
}

impl GetAppointmentParams {
    /// The parameters of a question about an appointment that a value
    /// stands for.
    pub fn try_from(value: RpcValue) -> (r: Result<Self, String>)
        ensures
            r matches Ok(params) ==> appointment_params_of_value(value@) == Ok::<
                (Seq<u8>, Seq<u8>),
                Seq<char>,
            >((params.tower_id@, params.locator@)),
            r matches Err(reason) ==> appointment_params_of_value(value@) == Err::<
                (Seq<u8>, Seq<u8>),
                Seq<char>,
            >(reason@),
    {
        match &value {
            RpcValue::Array(items) => {
                if items.len() != 2 {
                    let count = decimal_string(items.len() as u64);
                    return Err(
                        concat(
                            "Unexpected request format. The request needs 2 parameter. Received: ",
                            count.as_str(),
                        ),
                    );
                }
                proof {
                    assert(value@ == RpcValueView::Array(models(items@)));
                    assert(models(items@)[0] == items@[0].model());
                    assert(models(items@)[1] == items@[1].model());
                }
                let tower_id = match &items[0] {
                    RpcValue::String(text) => match UserId::from_hex(text.as_str()) {
                        Some(id) => id,
                        None => {
                            return Err("Invalid tower id".to_owned());
                        },
                    },
                    _ => {
                        return Err("tower_id must be a hex encoded string".to_owned());
                    },
                };
                let locator = match &items[1] {
                    RpcValue::String(text) => match Locator::from_hex(text.as_str()) {
                        Ok(locator) => locator,
                        Err(reason) => {
                            return Err(reason);
                        },
                    },
                    _ => {
                        return Err("locator must be a hex encoded string".to_owned());
                    },
                };
                Ok(GetAppointmentParams { tower_id, locator })
            },
            other => {
                let value_text = other.render();
                let mut message = concat(
                    "Unexpected request format. Expected: tower_id locator. Received: '",
                    value_text.as_str(),
                );
                message.append("'");
                Err(message)
            },
        }
    }
}

/// The delay that a client states in its appointments.
pub const TO_SELF_DELAY: u32 = 42;

/// What a node tells when a commitment is revoked.
#[derive(Debug)]
pub struct CommitmentRevocation {
    pub channel_id: String,
    pub commit_num: u32,
    /// The id of the revoked commitment transaction.
    pub commitment_txid: TransactionId,
    /// The penalty transaction, serialized, in hexadecimal text.
    pub penalty_tx: String,
}

/// Why a revocation gives no appointment.
#[derive(Debug)]
pub enum RevocationError {
    /// The penalty transaction is no hexadecimal text.
    NotHex(hex::FromHexError),
    /// The bytes of the penalty transaction serialize no transaction.
    NotATransaction(bitcoin::consensus::encode::Error),
    /// The cipher refuses the penalty transaction.
    Cipher(chacha20poly1305::aead::Error),
}

/// The appointment for a revoked commitment of the given id and penalty
/// transaction: under the locator of the id, the penalty transaction
/// encrypted under the id.
pub open spec fn appointment_for(commitment_txid: Seq<u8>, penalty_text: Seq<char>) -> Option<
    AppointmentView,
> {
    if is_hex_text(penalty_text) && transaction_id_of(hex_bytes(penalty_text)) is Some {
        match encrypted(hex_bytes(penalty_text), commitment_txid) {
            Some(blob) => Some(
                AppointmentView {
                    locator: locator_of(commitment_txid),
                    encrypted_blob: blob,
                    to_self_delay: 42,
                },
            ),
            None => None,
        }
    } else {
        None
    }
}

impl CommitmentRevocation {
    /// The appointment that asks a tower to answer the revoked commitment
    /// with the penalty transaction.
    pub fn appointment(&self) -> (r: Result<Appointment, RevocationError>)
        ensures
            r matches Ok(appointment) ==> appointment_for(self.commitment_txid@, self.penalty_tx@)
                == Some(appointment@),
            r is Err ==> appointment_for(self.commitment_txid@, self.penalty_tx@) is None,
            r matches Err(RevocationError::NotHex(_)) <==> !is_hex_text(self.penalty_tx@),
            r matches Err(RevocationError::NotATransaction(_)) <==> is_hex_text(self.penalty_tx@)
                && transaction_id_of(hex_bytes(self.penalty_tx@)) is None,
    {
        let raw = match hex_decode(self.penalty_tx.as_str()) {
            Ok(raw) => raw,
            Err(e) => {
                return Err(RevocationError::NotHex(e));
            },
        };
        let penalty = match PenaltyTransaction::parse(raw) {
            Ok(penalty) => penalty,
            Err(e) => {
                return Err(RevocationError::NotATransaction(e));
            },
        };
        let locator = Locator::new(self.commitment_txid);
        match encrypt(&penalty, &self.commitment_txid) {
            Ok(blob) => Ok(Appointment::new(locator, blob, TO_SELF_DELAY)),
            Err(e) => Err(RevocationError::Cipher(e)),
        }
    }
}

} // verus!
