//! The message vocabulary exchanged between a client session and the arbiter.

use vstd::prelude::*;

verus! {

/// The kinds of failure that are reported to a client.
#[derive(Clone, Copy, Debug, PartialEq, Eq, Structural)]
pub enum ErrorKind {
    DeviceUnavailable,
    AlreadyOpen,
    NotOpen,
    IOError,
    Protocol,
    DeviceEnumerationFailed,
}

#[derive(Clone, Copy, Debug, PartialEq, Eq, Structural)]
pub enum Parity {
    Off,
    Odd,
    Even,
}

#[derive(Clone, Copy, Debug, PartialEq, Eq, Structural)]
pub enum FlowControl {
    Off,
    Software,
    Hardware,
}

/// The serial-line configuration a port is opened with.
#[derive(Clone, Copy, Debug, PartialEq, Eq, Structural)]
pub struct PortConfig {
    pub baud_rate: u32,
    pub data_bits: u8,
    pub parity: Parity,
    pub stop_bits: u8,
    pub flow_control: FlowControl,
}

/// A request as it comes off the wire: the payload is still text.
#[derive(Clone, Debug, PartialEq, Eq)]
pub enum RawRequest {
    Open { device: String, config: PortConfig },
    Close { device: String },
    Write { device: String, payload: String },
    List,
}

/// A request that passed strict decoding.
#[derive(Clone, Debug, PartialEq, Eq)]
pub enum Request {
    Open { device: String, config: PortConfig },
    Close { device: String },
    Write { device: String, bytes: Vec<u8> },
    List,
}

pub ghost enum RequestView {
    Open { device: Seq<char>, config: PortConfig },
    Close { device: Seq<char> },
    Write { device: Seq<char>, bytes: Seq<u8> },
    List,
}

impl View for Request {
    type V = RequestView;

    open spec fn view(&self) -> RequestView {
        match *self {
            Request::Open { device, config } => RequestView::Open { device: device@, config },
            Request::Close { device } => RequestView::Close { device: device@ },
            Request::Write { device, bytes } => RequestView::Write {
                device: device@,
                bytes: bytes@,
            },
            Request::List => RequestView::List,
        }
    }
}

/// A response or event sent to a client. The `bytes` of `Data` are the
/// text encoding of the octets that the device produced.
#[derive(Clone, Debug, PartialEq, Eq)]
pub enum Event {
    Opened { device: String },
    Closed { device: String },
    Data { device: String, bytes: String },
    PortList { devices: Vec<String> },
    Error { kind: ErrorKind, detail: String },
}

pub ghost enum EventView {
    Opened { device: Seq<char> },
    Closed { device: Seq<char> },
    Data { device: Seq<char>, bytes: Seq<char> },
    PortList { devices: Seq<Seq<char>> },
    Error { kind: ErrorKind, detail: Seq<char> },
}

/// The names held by a list of strings.
pub open spec fn names(devices: Seq<String>) -> Seq<Seq<char>> {
    Seq::new(devices.len(), |i: int| devices[i]@)
}

impl View for Event {
    type V = EventView;

    open spec fn view(&self) -> EventView {
        match *self {
            Event::Opened { device } => EventView::Opened { device: device@ },
            Event::Closed { device } => EventView::Closed { device: device@ },
            Event::Data { device, bytes } => EventView::Data { device: device@, bytes: bytes@ },
            Event::PortList { devices } => EventView::PortList { devices: names(devices@) },
            Event::Error { kind, detail } => EventView::Error { kind, detail: detail@ },
        }
    }
}

/// The standard base64 text (with padding) of a sequence of octets.
pub uninterp spec fn base64_text(bytes: Seq<u8>) -> Seq<char>;

/// The octets that a text decodes to under standard base64 with padding,
/// or `None` where the text is no such encoding.
pub uninterp spec fn base64_bytes(text: Seq<char>) -> Option<Seq<u8>>;

/// Calls `base64::Engine::encode` on the `STANDARD` engine. The contract
/// only names the text that comes back. The call panics only where the
/// encoded length overflows `usize`, which no slice in memory can reach.
#[verifier::external_body]
fn encode_payload(bytes: &Vec<u8>) -> (text: String)
    ensures
        text@ == base64_text(bytes@),
{
    base64::Engine::encode(&base64::engine::general_purpose::STANDARD, bytes.as_slice())
}

/// Calls `base64::Engine::decode` on the `STANDARD` engine. The contract
/// names the outcome: the decoded octets, or `None` where the engine
/// reports a decode error.
#[verifier::external_body]
fn decode_payload(text: &String) -> (bytes: Option<Vec<u8>>)
    ensures
        match bytes {
            Some(v) => base64_bytes(text@) == Some(v@),
            None => base64_bytes(text@).is_none(),
        },
{
    match base64::Engine::decode(&base64::engine::general_purpose::STANDARD, text.as_bytes()) {
        Ok(v) => Some(v),
        Err(_) => None,
    }
}

/// What strict decoding makes of a request whose payload, if it has one,
/// decoded to `payload`.
pub open spec fn checked(raw: RawRequest, payload: Option<Seq<u8>>) -> Option<RequestView> {
    match raw {
        RawRequest::Open { device, config } => if device@.len() > 0 {
            Some(RequestView::Open { device: device@, config })
        } else {
            None
        },
        RawRequest::Close { device } => if device@.len() > 0 {
            Some(RequestView::Close { device: device@ })
        } else {
            None
        },
        RawRequest::Write { device, payload: _ } => if device@.len() > 0 && payload.is_some() {
            Some(RequestView::Write { device: device@, bytes: payload.unwrap() })
        } else {
            None
        },
        RawRequest::List => Some(RequestView::List),
    }
}

/// The payload text of a raw request, decoded; `None` for a request
/// without payload.
pub open spec fn payload_of(raw: RawRequest) -> Option<Seq<u8>> {
    match raw {
        RawRequest::Write { device: _, payload } => base64_bytes(payload@),
        _ => None,
    }
}

impl Event {
    /// The event that carries `bytes`, produced by `device`, to a client.
    pub fn data(device: String, bytes: &Vec<u8>) -> (event: Event)
        ensures
            event@ == (EventView::Data { device: device@, bytes: base64_text(bytes@) }),
    {
        Event::Data { device, bytes: encode_payload(bytes) }
    }

    /// The reply to a device enumeration: the list where the host gave one,
    /// else an error of kind `DeviceEnumerationFailed`.
    pub fn port_list(found: Option<Vec<String>>) -> (event: Event)
        ensures
            event@ == match found {
                Some(devices) => EventView::PortList { devices: names(devices@) },
                None => EventView::Error {
                    kind: ErrorKind::DeviceEnumerationFailed,
                    detail: Seq::<char>::empty(),
                },
            },
    {
        match found {
            Some(devices) => Event::PortList { devices },
            None => Event::Error { kind: ErrorKind::DeviceEnumerationFailed, detail: String::new() },
        }
    }
}

impl Request {
    /// Strict decoding once the payload text has been decoded: every device
    /// identifier must be non-empty, and the payload of a write must have
    /// decoded. Anything else is a protocol error.
    pub fn check(raw: RawRequest, payload: Option<Vec<u8>>) -> (res: Result<Request, ErrorKind>)
        ensures
            match res {
                Ok(request) => checked(
                    raw,
                    match payload {
                        Some(v) => Some(v@),
                        None => None,
                    },
                ) == Some(request@),
                Err(kind) => kind == ErrorKind::Protocol && checked(
                    raw,
                    match payload {
                        Some(v) => Some(v@),
                        None => None,
                    },
                ).is_none(),
            },
    {
        match raw {
            RawRequest::Open { device, config } => {
                if device.as_str().is_empty() {
                    Err(ErrorKind::Protocol)
                } else {
                    Ok(Request::Open { device, config })
                }
            },
            RawRequest::Close { device } => {
                if device.as_str().is_empty() {
                    Err(ErrorKind::Protocol)
                } else {
                    Ok(Request::Close { device })
                }
            },
            RawRequest::Write { device, payload: _ } => {
                if device.as_str().is_empty() {
                    Err(ErrorKind::Protocol)
                } else {
                    match payload {
                        Some(bytes) => Ok(Request::Write { device, bytes }),
                        None => Err(ErrorKind::Protocol),
                    }
                }
            },
            RawRequest::List => Ok(Request::List),
        }
    }

    /// Strict decoding of a raw request: decodes the payload text of a write
    /// and checks the rest.
    pub fn decode(raw: RawRequest) -> (res: Result<Request, ErrorKind>)
        ensures
            match res {
                Ok(request) => checked(raw, payload_of(raw)) == Some(request@),
                Err(kind) => kind == ErrorKind::Protocol && checked(raw, payload_of(raw)).is_none(),
            },
    {
        let payload = match &raw {
            RawRequest::Write { device: _, payload } => decode_payload(payload),
            _ => None,
        };
        Request::check(raw, payload)
    }
}

} // verus!
