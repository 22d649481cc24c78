//! Strict decoding of a message from the fields of its JSON object.
//!
//! A message is one flat object. Its `type` is one of `open`, `close`,
//! `write` and `list`; every kind but `list` names a `device`; a write
//! carries its payload as text in `bytes`; an open may give any of
//! `baud_rate`, `data_bits`, `parity`, `stop_bits` and `flow_control`,
//! and takes the rest from the configured default. A field that the kind
//! does not know, a field that occurs twice and a value of the wrong type
//! make the message malformed.
//!
//! An event is written as one flat object too, under one of the types
//! `opened`, `closed`, `data`, `port_list` and `error`.

use vstd::prelude::*;
use crate::protocol::{
    ErrorKind, Event, EventView, FlowControl, Parity, PortConfig, RawRequest, names,
};

verus! {

/// The value of one field, as far as the protocol reads it.
#[derive(Clone, Debug, PartialEq, Eq)]
pub enum FieldValue {
    Text(String),
    Number(u64),
    List(Vec<String>),
    Other,
}

/// One field of a JSON object.
#[derive(Clone, Debug, PartialEq, Eq)]
pub struct Field {
    pub name: String,
    pub value: FieldValue,
}

pub ghost enum FieldValueView {
    Text(Seq<char>),
    Number(u64),
    List(Seq<Seq<char>>),
    Other,
}

impl View for FieldValue {
    type V = FieldValueView;

    open spec fn view(&self) -> FieldValueView {
        match *self {
            FieldValue::Text(text) => FieldValueView::Text(text@),
            FieldValue::Number(n) => FieldValueView::Number(n),
            FieldValue::List(items) => FieldValueView::List(names(items@)),
            FieldValue::Other => FieldValueView::Other,
        }
    }
}

/// One field as plain values.
pub ghost struct FieldView {
    pub name: Seq<char>,
    pub value: FieldValueView,
}

/// The fields as plain values.
pub open spec fn fields_view(fields: Seq<Field>) -> Seq<FieldView> {
    Seq::new(fields.len(), |i: int| FieldView { name: fields[i].name@, value: fields[i].value@ })
}

/// The fields of the JSON object that a text holds, with numbers that are
/// no unsigned 64-bit integers and values that are neither text nor
/// number as `Other`; `None` where the text is not one JSON object.
pub uninterp spec fn json_object(text: Seq<char>) -> Option<Seq<FieldView>>;

/// Calls `serde_json::from_str` for a `serde_json::Map` and hands out its
/// entries in the order of the map, each value by its variant. The
/// contract only names the outcome.
#[verifier::external_body]
fn read_object(text: &str) -> (res: Option<Vec<Field>>)
    ensures
        match res {
            Some(fields) => json_object(text@) == Some(fields_view(fields@)),
            None => json_object(text@).is_none(),
        },
{
    let object: serde_json::Map<String, serde_json::Value> = serde_json::from_str(text).ok()?;
    let mut fields = Vec::new();
    for (name, value) in object {
        let value = match value {
            serde_json::Value::String(text) => FieldValue::Text(text),
            serde_json::Value::Number(number) => match number.as_u64() {
                Some(n) => FieldValue::Number(n),
                None => FieldValue::Other,
            },
            _ => FieldValue::Other,
        };
        fields.push(Field { name, value });
    }
    Some(fields)
}

pub ghost enum RawRequestView {
    Open { device: Seq<char>, config: PortConfig },
    Close { device: Seq<char> },
    Write { device: Seq<char>, payload: Seq<char> },
    List,
}

/// A raw request as plain values.
pub open spec fn raw_view(raw: RawRequest) -> RawRequestView {
    match raw {
        RawRequest::Open { device, config } => RawRequestView::Open { device: device@, config },
        RawRequest::Close { device } => RawRequestView::Close { device: device@ },
        RawRequest::Write { device, payload } => RawRequestView::Write {
            device: device@,
            payload: payload@,
        },
        RawRequest::List => RawRequestView::List,
    }
}

/// No name occurs twice among the fields.
pub open spec fn unique(fields: Seq<FieldView>) -> bool {
    forall|i: int, j: int|
        0 <= i < j < fields.len() ==> (#[trigger] fields[i]).name != (#[trigger] fields[j]).name
}

/// Whether a field of that name is there.
pub open spec fn present(fields: Seq<FieldView>, name: Seq<char>) -> bool {
    exists|i: int| 0 <= i < fields.len() && (#[trigger] fields[i]).name == name
}

/// The value of the field of that name, if it is there.
pub open spec fn value_of(fields: Seq<FieldView>, name: Seq<char>) -> Option<FieldValueView> {
    if present(fields, name) {
        let i = choose|i: int| 0 <= i < fields.len() && (#[trigger] fields[i]).name == name;
        Some(fields[i].value)
    } else {
        None
    }
}

/// The text of a field that has to be there.
pub open spec fn text_of(fields: Seq<FieldView>, name: Seq<char>) -> Option<Seq<char>> {
    match value_of(fields, name) {
        Some(FieldValueView::Text(text)) => Some(text),
        _ => None,
    }
}

/// The number of a field that may be left out, up to `limit`.
pub open spec fn number_of(fields: Seq<FieldView>, name: Seq<char>, default: u64, limit: u64) -> Option<
    u64,
> {
    match value_of(fields, name) {
        None => Some(default),
        Some(FieldValueView::Number(n)) => if n <= limit {
            Some(n)
        } else {
            None
        },
        _ => None,
    }
}

pub open spec fn parity_of(fields: Seq<FieldView>, default: Parity) -> Option<Parity> {
    match value_of(fields, "parity"@) {
        None => Some(default),
        Some(FieldValueView::Text(text)) => if text == "none"@ {
            Some(Parity::Off)
        } else if text == "odd"@ {
            Some(Parity::Odd)
        } else if text == "even"@ {
            Some(Parity::Even)
        } else {
            None
        },
        _ => None,
    }
}

pub open spec fn flow_control_of(fields: Seq<FieldView>, default: FlowControl) -> Option<FlowControl> {
    match value_of(fields, "flow_control"@) {
        None => Some(default),
        Some(FieldValueView::Text(text)) => if text == "none"@ {
            Some(FlowControl::Off)
        } else if text == "software"@ {
            Some(FlowControl::Software)
        } else if text == "hardware"@ {
            Some(FlowControl::Hardware)
        } else {
            None
        },
        _ => None,
    }
}

/// The configuration that the fields of an open give, over the default.
pub open spec fn config_of(fields: Seq<FieldView>, default: PortConfig) -> Option<PortConfig> {
    let baud_rate = number_of(fields, "baud_rate"@, default.baud_rate as u64, u32::MAX as u64);
    let data_bits = number_of(fields, "data_bits"@, default.data_bits as u64, u8::MAX as u64);
    let stop_bits = number_of(fields, "stop_bits"@, default.stop_bits as u64, u8::MAX as u64);
    let parity = parity_of(fields, default.parity);
    let flow_control = flow_control_of(fields, default.flow_control);
    if baud_rate.is_some() && data_bits.is_some() && stop_bits.is_some() && parity.is_some()
        && flow_control.is_some() {
        Some(
            PortConfig {
                baud_rate: baud_rate.unwrap() as u32,
                data_bits: data_bits.unwrap() as u8,
                parity: parity.unwrap(),
                stop_bits: stop_bits.unwrap() as u8,
                flow_control: flow_control.unwrap(),
            },
        )
    } else {
        None
    }
}

/// Whether a message of type `kind` knows a field of that name.
pub open spec fn known(kind: Seq<char>, name: Seq<char>) -> bool {
    ||| name == "type"@
    ||| kind != "list"@ && name == "device"@
    ||| kind == "write"@ && name == "bytes"@
    ||| kind == "open"@ && (name == "baud_rate"@ || name == "data_bits"@ || name == "parity"@
        || name == "stop_bits"@ || name == "flow_control"@)
}

/// Every field is known to a message of type `kind`.
pub open spec fn all_known(kind: Seq<char>, fields: Seq<FieldView>) -> bool {
    forall|i: int| 0 <= i < fields.len() ==> known(kind, (#[trigger] fields[i]).name)
}

/// The request that the fields make under type `kind`.
pub open spec fn request_of_kind(kind: Seq<char>, fields: Seq<FieldView>, default: PortConfig) -> Option<
    RawRequestView,
> {
    if kind == "list"@ {
        Some(RawRequestView::List)
    } else {
        match text_of(fields, "device"@) {
            None => None,
            Some(device) => if kind == "close"@ {
                Some(RawRequestView::Close { device })
            } else if kind == "write"@ {
                match text_of(fields, "bytes"@) {
                    Some(payload) => Some(RawRequestView::Write { device, payload }),
                    None => None,
                }
            } else if kind == "open"@ {
                match config_of(fields, default) {
                    Some(config) => Some(RawRequestView::Open { device, config }),
                    None => None,
                }
            } else {
                None
            },
        }
    }
}

/// The request that the fields of one object make; `None` where they are
/// no message of the protocol.
pub open spec fn request_of(fields: Seq<FieldView>, default: PortConfig) -> Option<RawRequestView> {
    match text_of(fields, "type"@) {
        Some(kind) => if unique(fields) && all_known(kind, fields) {
            request_of_kind(kind, fields, default)
        } else {
            None
        },
        None => None,
    }
}

fn has_unique_names(fields: &Vec<Field>) -> (res: bool)
    ensures
        res == unique(fields_view(fields@)),
{
    let ghost v = fields_view(fields@);
    let mut j: usize = 0;
    while j < fields.len()
        invariant
            j <= fields@.len(),
            v == fields_view(fields@),
            forall|a: int, b: int| 0 <= a < b < j ==> (#[trigger] v[a]).name != (#[trigger] v[b]).name,
        decreases fields@.len() - j,
    {
        let mut i: usize = 0;
        while i < j
            invariant
                i <= j < fields@.len(),
                v == fields_view(fields@),
                forall|a: int| 0 <= a < i ==> (#[trigger] v[a]).name != v[j as int].name,
            decreases j - i,
        {
            proof {
                assert(v[i as int].name == fields@[i as int].name@);
                assert(v[j as int].name == fields@[j as int].name@);
            }
            if fields[i].name == fields[j].name {
                return false;
            }
            i += 1;
        }
        j += 1;
    }
    true
}

/// The value of the field of that name among fields with unique names.
fn find_value<'a>(fields: &'a Vec<Field>, name: &str) -> (res: Option<&'a FieldValue>)
    requires
        unique(fields_view(fields@)),
    ensures
        match res {
            Some(value) => value_of(fields_view(fields@), name@) == Some(value@),
            None => value_of(fields_view(fields@), name@).is_none(),
        },
{
    let wanted = name.to_owned();
    let ghost v = fields_view(fields@);
    let mut i: usize = 0;
    while i < fields.len()
        invariant
            i <= fields@.len(),
            unique(fields_view(fields@)),
            wanted@ == name@,
            v == fields_view(fields@),
            forall|a: int| 0 <= a < i ==> (#[trigger] v[a]).name != name@,
        decreases fields@.len() - i,
    {
        proof {
            assert(v[i as int].name == fields@[i as int].name@);
        }
        if fields[i].name == wanted {
            proof {
                let k = choose|k: int| 0 <= k < v.len() && (#[trigger] v[k]).name == name@;
                assert(v[k].name == v[i as int].name);
                assert(k == i);
                assert(v[i as int].value == fields@[i as int].value@);
            }
            return Some(&fields[i].value);
        }
        i += 1;
    }
    None
}

fn find_text(fields: &Vec<Field>, name: &str) -> (res: Option<String>)
    requires
        unique(fields_view(fields@)),
    ensures
        match res {
            Some(text) => text_of(fields_view(fields@), name@) == Some(text@),
            None => text_of(fields_view(fields@), name@).is_none(),
        },
{
    match find_value(fields, name) {
        Some(FieldValue::Text(text)) => Some(text.clone()),
        _ => None,
    }
}

fn find_number(fields: &Vec<Field>, name: &str, default: u64, limit: u64) -> (res: Option<u64>)
    requires
        unique(fields_view(fields@)),
    ensures
        res == number_of(fields_view(fields@), name@, default, limit),
{
    match find_value(fields, name) {
        None => Some(default),
        Some(FieldValue::Number(n)) => if *n <= limit {
            Some(*n)
        } else {
            None
        },
        _ => None,
    }
}

fn reads(text: &String, literal: &str) -> (res: bool)
    ensures
        res == (text@ == literal@),
{
    *text == literal.to_owned()
}

fn find_parity(fields: &Vec<Field>, default: Parity) -> (res: Option<Parity>)
    requires
        unique(fields_view(fields@)),
    ensures
        res == parity_of(fields_view(fields@), default),
{
    match find_value(fields, "parity") {
        None => Some(default),
        Some(FieldValue::Text(text)) => {
            if reads(text, "none") {
                Some(Parity::Off)
            } else if reads(text, "odd") {
                Some(Parity::Odd)
            } else if reads(text, "even") {
                Some(Parity::Even)
            } else {
                None
            }
        },
        _ => None,
    }
}

fn find_flow_control(fields: &Vec<Field>, default: FlowControl) -> (res: Option<FlowControl>)
    requires
        unique(fields_view(fields@)),
    ensures
        res == flow_control_of(fields_view(fields@), default),
{
    match find_value(fields, "flow_control") {
        None => Some(default),
        Some(FieldValue::Text(text)) => {
            if reads(text, "none") {
                Some(FlowControl::Off)
            } else if reads(text, "software") {
                Some(FlowControl::Software)
            } else if reads(text, "hardware") {
                Some(FlowControl::Hardware)
            } else {
                None
            }
        },
        _ => None,
    }
}

fn find_config(fields: &Vec<Field>, default: PortConfig) -> (res: Option<PortConfig>)
    requires
        unique(fields_view(fields@)),
    ensures
        res == config_of(fields_view(fields@), default),
{
    let baud_rate = find_number(fields, "baud_rate", default.baud_rate as u64, u32::MAX as u64);
    let data_bits = find_number(fields, "data_bits", default.data_bits as u64, u8::MAX as u64);
    let stop_bits = find_number(fields, "stop_bits", default.stop_bits as u64, u8::MAX as u64);
    let parity = find_parity(fields, default.parity);
    let flow_control = find_flow_control(fields, default.flow_control);
    match (baud_rate, data_bits, stop_bits, parity, flow_control) {
        (Some(baud_rate), Some(data_bits), Some(stop_bits), Some(parity), Some(flow_control)) => Some(
            PortConfig {
                baud_rate: baud_rate as u32,
                data_bits: data_bits as u8,
                parity,
                stop_bits: stop_bits as u8,
                flow_control,
            },
        ),
        _ => None,
    }
}

fn is_known(kind: &String, name: &String) -> (res: bool)
    ensures
        res == known(kind@, name@),
{
    reads(name, "type") || (!reads(kind, "list") && reads(name, "device")) || (reads(kind, "write") && reads(
        name,
        "bytes",
    )) || (reads(kind, "open") && (reads(name, "baud_rate") || reads(name, "data_bits") || reads(
        name,
        "parity",
    ) || reads(name, "stop_bits") || reads(name, "flow_control")))
}

fn has_known_names(kind: &String, fields: &Vec<Field>) -> (res: bool)
    ensures
        res == all_known(kind@, fields_view(fields@)),
{
    let ghost v = fields_view(fields@);
    let mut i: usize = 0;
    while i < fields.len()
        invariant
            i <= fields@.len(),
            v == fields_view(fields@),
            forall|a: int| 0 <= a < i ==> known(kind@, (#[trigger] v[a]).name),
        decreases fields@.len() - i,
    {
        proof {
            assert(v[i as int].name == fields@[i as int].name@);
        }
        if !is_known(kind, &fields[i].name) {
            return false;
        }
        i += 1;
    }
    true
}

/// Decodes the fields of one JSON object into a request, strictly; an
/// open takes what it leaves out from `default`. `None` is a malformed
/// message.
pub fn parse_fields(fields: &Vec<Field>, default: PortConfig) -> (res: Option<RawRequest>)
    ensures
        match res {
            Some(raw) => request_of(fields_view(fields@), default) == Some(raw_view(raw)),
            None => request_of(fields_view(fields@), default).is_none(),
        },
{
    if !has_unique_names(fields) {
        return None;
    }
    let kind = match find_text(fields, "type") {
        Some(kind) => kind,
        None => {
            return None;
        },
    };
    if !has_known_names(&kind, fields) {
        return None;
    }
    if reads(&kind, "list") {
        return Some(RawRequest::List);
    }
    let device = match find_text(fields, "device") {
        Some(device) => device,
        None => {
            return None;
        },
    };
    if reads(&kind, "close") {
        Some(RawRequest::Close { device })
    } else if reads(&kind, "write") {
        match find_text(fields, "bytes") {
            Some(payload) => Some(RawRequest::Write { device, payload }),
            None => None,
        }
    } else if reads(&kind, "open") {
        match find_config(fields, default) {
            Some(config) => Some(RawRequest::Open { device, config }),
            None => None,
        }
    } else {
        None
    }
}

/// What a text is as a message of the protocol, given the JSON object
/// that it holds.
pub open spec fn message_of(object: Option<Seq<FieldView>>, default: PortConfig) -> Option<
    RawRequestView,
> {
    match object {
        Some(fields) => request_of(fields, default),
        None => None,
    }
}

/// Decodes one inbound text, strictly: it has to be one JSON object whose
/// fields make a request. `None` is a malformed message.
pub fn parse_message(text: &str, default: PortConfig) -> (res: Option<RawRequest>)
    ensures
        match res {
            Some(raw) => message_of(json_object(text@), default) == Some(raw_view(raw)),
            None => message_of(json_object(text@), default).is_none(),
        },
{
    match read_object(text) {
        Some(fields) => parse_fields(&fields, default),
        None => None,
    }
}

/// The JSON text of the object with these fields, as `serde_json` writes
/// it.
pub uninterp spec fn json_text(fields: Seq<FieldView>) -> Seq<char>;

/// Builds a `serde_json::Map` of the fields, each value by its variant
/// (`Other` as null), and calls `to_string` on the object. The contract
/// only names the text.
#[verifier::external_body]
fn write_object(fields: &Vec<Field>) -> (text: String)
    ensures
        text@ == json_text(fields_view(fields@)),
{
    let mut object = serde_json::Map::new();
    for field in fields {
        let value = match &field.value {
            FieldValue::Text(text) => serde_json::Value::from(text.as_str()),
            FieldValue::Number(n) => serde_json::Value::from(*n),
            FieldValue::List(items) => serde_json::Value::from(items.clone()),
            FieldValue::Other => serde_json::Value::Null,
        };
        object.insert(field.name.clone(), value);
    }
    serde_json::Value::Object(object).to_string()
}

/// The name under which a kind of error is reported.
pub open spec fn kind_name(kind: ErrorKind) -> Seq<char> {
    match kind {
        ErrorKind::DeviceUnavailable => "DeviceUnavailable"@,
        ErrorKind::AlreadyOpen => "AlreadyOpen"@,
        ErrorKind::NotOpen => "NotOpen"@,
        ErrorKind::IOError => "IOError"@,
        ErrorKind::Protocol => "Protocol"@,
        ErrorKind::DeviceEnumerationFailed => "DeviceEnumerationFailed"@,
    }
}

pub open spec fn text_field(name: Seq<char>, text: Seq<char>) -> FieldView {
    FieldView { name, value: FieldValueView::Text(text) }
}

/// The fields of the object that stands for an event.
pub open spec fn event_fields(event: EventView) -> Seq<FieldView> {
    match event {
        EventView::Opened { device } => seq![
            text_field("type"@, "opened"@),
            text_field("device"@, device),
        ],
        EventView::Closed { device } => seq![
            text_field("type"@, "closed"@),
            text_field("device"@, device),
        ],
        EventView::Data { device, bytes } => seq![
            text_field("type"@, "data"@),
            text_field("device"@, device),
            text_field("bytes"@, bytes),
        ],
        EventView::PortList { devices } => seq![
            text_field("type"@, "port_list"@),
            FieldView { name: "devices"@, value: FieldValueView::List(devices) },
        ],
        EventView::Error { kind, detail } => seq![
            text_field("type"@, "error"@),
            text_field("kind"@, kind_name(kind)),
            text_field("detail"@, detail),
        ],
    }
}

fn named(name: &str, text: String) -> (field: Field)
    ensures
        field.name@ == name@,
        field.value@ == FieldValueView::Text(text@),
{
    Field { name: name.to_owned(), value: FieldValue::Text(text) }
}

fn kind_text(kind: ErrorKind) -> (text: String)
    ensures
        text@ == kind_name(kind),
{
    match kind {
        ErrorKind::DeviceUnavailable => "DeviceUnavailable".to_owned(),
        ErrorKind::AlreadyOpen => "AlreadyOpen".to_owned(),
        ErrorKind::NotOpen => "NotOpen".to_owned(),
        ErrorKind::IOError => "IOError".to_owned(),
        ErrorKind::Protocol => "Protocol".to_owned(),
        ErrorKind::DeviceEnumerationFailed => "DeviceEnumerationFailed".to_owned(),
    }
}

/// The fields of the object that stands for an event.
pub fn fields_of(event: Event) -> (fields: Vec<Field>)
    ensures
        fields_view(fields@) == event_fields(event@),
{
    let mut fields: Vec<Field> = Vec::new();
    match event {
        Event::Opened { device } => {
            fields.push(named("type", "opened".to_owned()));
            fields.push(named("device", device));
        },
        Event::Closed { device } => {
            fields.push(named("type", "closed".to_owned()));
            fields.push(named("device", device));
        },
        Event::Data { device, bytes } => {
            fields.push(named("type", "data".to_owned()));
            fields.push(named("device", device));
            fields.push(named("bytes", bytes));
        },
        Event::PortList { devices } => {
            fields.push(named("type", "port_list".to_owned()));
            fields.push(Field { name: "devices".to_owned(), value: FieldValue::List(devices) });
        },
        Event::Error { kind, detail } => {
            fields.push(named("type", "error".to_owned()));
            fields.push(named("kind", kind_text(kind)));
            fields.push(named("detail", detail));
        },
    }
    proof {
        assert(fields_view(fields@) =~= event_fields(event@));
    }
    fields
}

/// The JSON text of an event.
pub fn render(event: Event) -> (text: String)
    ensures
        text@ == json_text(event_fields(event@)),
{
    let fields = fields_of(event);
    write_object(&fields)
}

} // verus!
