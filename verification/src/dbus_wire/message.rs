//! Messages: the fixed header, the header fields and the body.

use vstd::prelude::*;

use crate::dbus_wire::decode::{decode, unmarshal};
use crate::dbus_wire::encode::{encode, marshal};
use crate::dbus_wire::number::{
    align_up, le_value, lemma_capacities, lemma_le_value, lemma_padding, pad, padding, read_le,
    zeros,
};
use crate::dbus_wire::value::{
    value_view, value_views, Value, ValueView, WireError, WireErrorView, MAX_ARRAY, MAX_MESSAGE,
};
use crate::text::{
    copy_bytes, decimal, decimal_digits, lemma_decimal_digits, maybe, outcome, push_bytes,
};

verus! {

/// Major protocol version of every message.
pub const PROTOCOL_VERSION: u8 = 1;

/// Bytes of the fixed part of a header: the four bytes, the body length, the
/// serial and the length of the header-field array.
pub const FIXED_HEADER: usize = 16;

/// The flag byte of a little-endian message, `l`.
pub const LITTLE_ENDIAN: u8 = 108;

/// Message type of a call.
pub const MSG_METHOD_CALL: u8 = 1;

/// Message type of the reply to a call.
pub const MSG_METHOD_RETURN: u8 = 2;

/// Message type of an error reply.
pub const MSG_ERROR: u8 = 3;

/// Header field codes ("Header Fields").
pub const FIELD_PATH: u8 = 1;

pub const FIELD_INTERFACE: u8 = 2;

pub const FIELD_MEMBER: u8 = 3;

pub const FIELD_ERROR_NAME: u8 = 4;

pub const FIELD_REPLY_SERIAL: u8 = 5;

pub const FIELD_DESTINATION: u8 = 6;

pub const FIELD_SENDER: u8 = 7;

pub const FIELD_SIGNATURE: u8 = 8;

pub const FIELD_UNIX_FDS: u8 = 9;

/// One message off the wire, with its body still marshalled: the body's
/// signature is a header field, so it is known only once the header is.
#[derive(Debug, PartialEq, Eq)]
pub struct Message {
    pub kind: u8,
    pub reply_serial: Option<u32>,
    pub error_name: Option<String>,
    /// Unique name of the sender, which on a bus the bus itself fills in
    /// and a client cannot forge.
    pub sender: Option<String>,
    pub signature: String,
    /// What `UNIX_FDS` declared, which must match what arrived.
    pub unix_fds: u32,
    pub body: Vec<u8>,
}

/// Model of a [`Message`].
pub struct MessageView {
    pub kind: u8,
    pub reply_serial: Option<u32>,
    pub error_name: Option<Seq<char>>,
    pub sender: Option<Seq<char>>,
    pub signature: Seq<char>,
    pub unix_fds: u32,
    pub body: Seq<u8>,
}

impl View for Message {
    type V = MessageView;

    open spec fn view(&self) -> MessageView {
        MessageView {
            kind: self.kind,
            reply_serial: self.reply_serial,
            error_name: maybe(self.error_name),
            sender: maybe(self.sender),
            signature: self.signature@,
            unix_fds: self.unix_fds,
            body: self.body@,
        }
    }
}

/// The models of a list of header fields.
pub open spec fn field_views(fields: Seq<(u8, Value)>) -> Seq<(u8, ValueView)> {
    Seq::new(fields.len(), |i: int| (fields[i].0, value_view(fields[i].1)))
}

/// Header fields as the wire holds them: structs of a code and a variant.
pub open spec fn field_structs(fields: Seq<(u8, ValueView)>) -> Seq<ValueView> {
    Seq::new(
        fields.len(),
        |i: int|
            ValueView::Struct(
                seq![ValueView::Byte(fields[i].0), ValueView::Variant(Box::new(fields[i].1))],
            ),
    )
}

/// The values of a message header.
pub open spec fn header_values(
    kind: u8,
    flags: u8,
    serial: u32,
    fields: Seq<(u8, ValueView)>,
    body_len: nat,
) -> Seq<ValueView> {
    seq![
        ValueView::Byte(LITTLE_ENDIAN),
        ValueView::Byte(kind),
        ValueView::Byte(flags),
        ValueView::Byte(PROTOCOL_VERSION),
        ValueView::Uint32(body_len as u32),
        ValueView::Uint32(serial),
        ValueView::Array(field_structs(fields)),
    ]
}

/// The bytes of a message: the fixed header, the header fields, padding to
/// 8, then the body. "The length of the header must be a multiple of 8,
/// allowing the body to begin on an 8-byte boundary."
pub open spec fn marshal_message(
    kind: u8,
    flags: u8,
    serial: u32,
    fields: Seq<(u8, ValueView)>,
    body: Seq<u8>,
) -> Result<Seq<u8>, WireErrorView> {
    if body.len() > MAX_MESSAGE {
        Err(WireErrorView::MessageTooLong(body.len()))
    } else {
        match marshal("yyyyuua(yv)"@, header_values(kind, flags, serial, fields, body.len())) {
            Err(e) => Err(e),
            Ok(header) => {
                let message = header + zeros(padding(header.len(), 8)) + body;
                if message.len() > MAX_MESSAGE {
                    Err(WireErrorView::MessageTooLong(message.len()))
                } else {
                    Ok(message)
                }
            },
        }
    }
}

/// Where the body of a message begins and how long it is, from its fixed
/// header alone.
pub open spec fn message_frame(head: Seq<u8>) -> Result<(nat, nat), WireErrorView> {
    if head.len() < FIXED_HEADER {
        Err(WireErrorView::Truncated)
    } else if head[0] != LITTLE_ENDIAN {
        Err(WireErrorView::Endianness(head[0]))
    } else if head[3] != PROTOCOL_VERSION {
        Err(WireErrorView::BadMessage("a message of an unknown version"@))
    } else {
        let body_len = le_value(head.subrange(4, 8));
        let fields_len = le_value(head.subrange(12, 16));
        let fields_end = (FIXED_HEADER + fields_len) as nat;
        let body_at = fields_end + padding(fields_end, 8);
        if fields_len > MAX_ARRAY {
            Err(WireErrorView::ArrayTooLong(fields_len))
        } else if body_len > MAX_MESSAGE {
            Err(WireErrorView::MessageTooLong(body_len))
        } else if body_at + body_len > MAX_MESSAGE {
            Err(WireErrorView::MessageTooLong(body_at + body_len))
        } else {
            Ok((body_at, body_len))
        }
    }
}

/// What the header fields of a message say.
pub struct Fields {
    pub reply_serial: Option<u32>,
    pub error_name: Option<Seq<char>>,
    pub sender: Option<Seq<char>>,
    pub signature: Seq<char>,
    pub unix_fds: u32,
    /// Codes met so far.
    pub seen: Seq<u8>,
}

/// The fields of a header that has none.
pub open spec fn no_fields() -> Fields {
    Fields {
        reply_serial: None,
        error_name: None,
        sender: None,
        signature: Seq::empty(),
        unix_fds: 0,
        seen: Seq::empty(),
    }
}

/// One more header field. A known code must have the type the specification
/// gives it, an unknown one is ignored, and a code that appears twice is
/// refused.
pub open spec fn with_field(fields: Fields, code: u8, value: ValueView) -> Result<
    Fields,
    WireErrorView,
> {
    let met = Fields { seen: fields.seen.push(code), ..fields };
    let wrong = Err(WireErrorView::BadMessage("a header field of the wrong type"@));
    if fields.seen.contains(code) {
        Err(WireErrorView::BadMessage("a header field twice"@))
    } else if code == FIELD_REPLY_SERIAL {
        match value {
            ValueView::Uint32(v) => Ok(Fields { reply_serial: Some(v), ..met }),
            _ => wrong,
        }
    } else if code == FIELD_ERROR_NAME {
        match value {
            ValueView::Str(v) => Ok(Fields { error_name: Some(v), ..met }),
            _ => wrong,
        }
    } else if code == FIELD_SENDER {
        match value {
            ValueView::Str(v) => Ok(Fields { sender: Some(v), ..met }),
            _ => wrong,
        }
    } else if code == FIELD_SIGNATURE {
        match value {
            ValueView::Signature(v) => Ok(Fields { signature: v, ..met }),
            _ => wrong,
        }
    } else if code == FIELD_UNIX_FDS {
        match value {
            ValueView::Uint32(v) => Ok(Fields { unix_fds: v, ..met }),
            _ => wrong,
        }
    } else if code == FIELD_PATH {
        match value {
            ValueView::ObjectPath(_) => Ok(met),
            _ => wrong,
        }
    } else if code == FIELD_INTERFACE || code == FIELD_MEMBER || code == FIELD_DESTINATION {
        match value {
            ValueView::Str(_) => Ok(met),
            _ => wrong,
        }
    } else {
        Ok(met)
    }
}

/// The code and the value of a header field, if that is what it is.
pub open spec fn field_pair(field: ValueView) -> Option<(u8, ValueView)> {
    match field {
        ValueView::Struct(pair) => if pair.len() == 2 && pair[0] is Byte && pair[1] is Variant {
            Some((pair[0]->Byte_0, *pair[1]->Variant_0))
        } else {
            None
        },
        _ => None,
    }
}

/// The header fields from `i` on, after the ones `fields` holds.
pub open spec fn collect_fields(all: Seq<ValueView>, i: int, fields: Fields) -> Result<
    Fields,
    WireErrorView,
>
    decreases all.len() - i,
{
    if i < 0 || i >= all.len() {
        Ok(fields)
    } else {
        match field_pair(all[i]) {
            None => Err(WireErrorView::BadMessage("a header field it could not read"@)),
            Some((code, value)) => match with_field(fields, code, value) {
                Err(e) => Err(e),
                Ok(next) => collect_fields(all, i + 1, next),
            },
        }
    }
}

/// The message whose header fields and body were read.
pub open spec fn assembled(kind: u8, fields: Result<Fields, WireErrorView>, body: Seq<u8>) -> Result<
    MessageView,
    WireErrorView,
> {
    match fields {
        Err(e) => Err(e),
        Ok(f) => if f.signature.len() == 0 && body.len() > 0 {
            Err(WireErrorView::BadMessage("a body with no signature"@))
        } else {
            Ok(
                MessageView {
                    kind,
                    reply_serial: f.reply_serial,
                    error_name: f.error_name,
                    sender: f.sender,
                    signature: f.signature,
                    unix_fds: f.unix_fds,
                    body,
                },
            )
        },
    }
}

/// The message some bytes stand for.
pub open spec fn read_message(message: Seq<u8>) -> Result<MessageView, WireErrorView> {
    match message_frame(message) {
        Err(e) => Err(e),
        Ok((body_at, body_len)) => {
            let fields_end = (FIXED_HEADER + le_value(message.subrange(12, 16))) as int;
            if fields_end > message.len() {
                Err(WireErrorView::Truncated)
            } else {
                match unmarshal("yyyyuua(yv)"@, message.take(fields_end)) {
                    Err(e) => Err(e),
                    Ok(values) => if values.len() != 7 || !(values[1] is Byte) || !(
                    values[6] is Array) {
                        Err(WireErrorView::BadMessage("a header it could not read"@))
                    } else if body_at > message.len() {
                        Err(WireErrorView::Truncated)
                    } else if exists|i: int|
                        fields_end <= i < body_at && #[trigger] message[i] != 0 {
                        Err(WireErrorView::Padding)
                    } else if body_at + body_len > message.len() {
                        Err(WireErrorView::Truncated)
                    } else {
                        assembled(
                            values[1]->Byte_0,
                            collect_fields(values[6]->Array_0, 0, no_fields()),
                            message.subrange(body_at as int, (body_at + body_len) as int),
                        )
                    },
                }
            }
        },
    }
}

/// Marshal one message: the fixed header, the header fields, padding to 8,
/// then the body.
pub fn encode_message(kind: u8, flags: u8, serial: u32, fields: &[(u8, Value)], body: &[u8]) -> (r:
    Result<Vec<u8>, WireError>)
    ensures
        outcome(r) == marshal_message(kind, flags, serial, field_views(fields@), body@),
{
    broadcast use crate::dbus_wire::value::lemma_value_view_containers;

    if body.len() > MAX_MESSAGE {
        return Err(WireError::MessageTooLong(body.len()));
    }
    let ghost models = field_views(fields@);
    let mut structs: Vec<Value> = Vec::new();
    let mut i: usize = 0;
    while i < fields.len()
        invariant
            models == field_views(fields@),
            i <= fields@.len(),
            value_views(structs@) == field_structs(models).take(i as int),
        decreases fields@.len() - i,
    {
        let ghost before = value_views(structs@);
        let code = Value::Byte(fields[i].0);
        let content = Value::Variant(Box::new(fields[i].1.duplicate()));
        let pair: Vec<Value> = vec![code, content];
        proof {
            assert(value_views(pair@) =~= seq![
                ValueView::Byte(models[i as int].0),
                ValueView::Variant(Box::new(models[i as int].1)),
            ]);
        }
        let field = Value::Struct(pair);
        structs.push(field);
        i = i + 1;
        proof {
            crate::dbus_wire::value::lemma_value_view_containers(field);
            assert(value_views(structs@) =~= before.push(field@));
            assert(field_structs(models).take(i as int) =~= before.push(
                field_structs(models)[i - 1],
            ));
        }
    }
    proof {
        assert(field_structs(models).take(i as int) =~= field_structs(models));
    }
    let array = Value::Array(structs);
    proof {
        crate::dbus_wire::value::lemma_value_view_containers(array);
    }
    let header: Vec<Value> = vec![
        Value::Byte(LITTLE_ENDIAN),
        Value::Byte(kind),
        Value::Byte(flags),
        Value::Byte(PROTOCOL_VERSION),
        Value::Uint32(body.len() as u32),
        Value::Uint32(serial),
        array,
    ];
    proof {
        assert(value_views(header@) =~= header_values(kind, flags, serial, models, body@.len()));
    }
    let mut message = match encode("yyyyuua(yv)", &header) {
        Ok(m) => m,
        Err(e) => {
            return Err(e);
        },
    };
    pad(&mut message, 8);
    push_bytes(&mut message, body);
    if message.len() > MAX_MESSAGE {
        return Err(WireError::MessageTooLong(message.len()));
    }
    Ok(message)
}

/// Where the body of the message starting at `head` begins and how long it
/// is, read from the fixed header alone. The header-field array's length is
/// the UINT32 at offset 12, the last of the fixed part.
pub fn frame(head: &[u8]) -> (r: Result<(usize, usize), WireError>)
    ensures
        match r {
            Ok((body_at, body_len)) => message_frame(head@) == Ok::<(nat, nat), WireErrorView>(
                (body_at as nat, body_len as nat),
            ),
            Err(e) => message_frame(head@) == Err::<(nat, nat), WireErrorView>(e@),
        },
{
    if head.len() < FIXED_HEADER {
        return Err(WireError::Truncated);
    }
    if head[0] != LITTLE_ENDIAN {
        return Err(WireError::Endianness(head[0]));
    }
    if head[3] != PROTOCOL_VERSION {
        return Err(WireError::BadMessage("a message of an unknown version"));
    }
    proof {
        lemma_capacities();
        lemma_le_value(head@.subrange(4, 8));
        lemma_le_value(head@.subrange(12, 16));
    }
    let body_len = read_le(vstd::slice::slice_subrange(head, 4, 8));
    let fields_len = read_le(vstd::slice::slice_subrange(head, 12, 16));
    if fields_len > MAX_ARRAY as u64 {
        return Err(WireError::ArrayTooLong(fields_len as usize));
    }
    if body_len > MAX_MESSAGE as u64 {
        return Err(WireError::MessageTooLong(body_len as usize));
    }
    let fields_end = FIXED_HEADER + fields_len as usize;
    proof {
        lemma_padding(fields_end as nat, 8);
    }
    let body_at = align_up(fields_end, 8);
    let total = body_at + body_len as usize;
    if total > MAX_MESSAGE {
        return Err(WireError::MessageTooLong(total));
    }
    Ok((body_at, body_len as usize))
}

/// What the fields met so far say.
pub open spec fn fields_of(m: Message, seen: Seq<u8>) -> Fields {
    Fields {
        reply_serial: m.reply_serial,
        error_name: maybe(m.error_name),
        sender: maybe(m.sender),
        signature: m.signature@,
        unix_fds: m.unix_fds,
        seen,
    }
}

/// Take one more header field in.
fn take_field(m: &mut Message, seen: &mut Vec<u8>, code: u8, value: &Value) -> (r: Result<
    (),
    WireError,
>)
    ensures
        final(m).kind == old(m).kind,
        final(m).body@ == old(m).body@,
        match r {
            Ok(()) => with_field(fields_of(*old(m), old(seen)@), code, value@) == Ok::<
                Fields,
                WireErrorView,
            >(fields_of(*final(m), final(seen)@)),
            Err(e) => with_field(fields_of(*old(m), old(seen)@), code, value@) == Err::<
                Fields,
                WireErrorView,
            >(e@),
        },
{
    let mut i: usize = 0;
    while i < seen.len()
        invariant
            i <= seen@.len(),
            seen@ == old(seen)@,
            *m == *old(m),
            forall|j: int| 0 <= j < i ==> seen@[j] != code,
        decreases seen@.len() - i,
    {
        if seen[i] == code {
            proof {
                assert(seen@.contains(seen@[i as int]));
            }
            return Err(WireError::BadMessage("a header field twice"));
        }
        i = i + 1;
    }
    assert(!seen@.contains(code));
    seen.push(code);
    match (code, value) {
        (FIELD_REPLY_SERIAL, Value::Uint32(v)) => {
            m.reply_serial = Some(*v);
        },
        (FIELD_ERROR_NAME, Value::Str(v)) => {
            m.error_name = Some(v.clone());
        },
        (FIELD_SENDER, Value::Str(v)) => {
            m.sender = Some(v.clone());
        },
        (FIELD_SIGNATURE, Value::Signature(v)) => {
            m.signature = v.clone();
        },
        (FIELD_UNIX_FDS, Value::Uint32(v)) => {
            m.unix_fds = *v;
        },
        (FIELD_PATH, Value::ObjectPath(_)) => {},
        (FIELD_INTERFACE, Value::Str(_)) => {},
        (FIELD_MEMBER, Value::Str(_)) => {},
        (FIELD_DESTINATION, Value::Str(_)) => {},
        _ => {
            if code >= FIELD_PATH && code <= FIELD_UNIX_FDS {
                return Err(WireError::BadMessage("a header field of the wrong type"));
            }
            // A field code from a newer specification: accept and ignore.
        },
    }
    Ok(())
}

/// Take every header field in.
fn take_fields(m: &mut Message, fields: &Vec<Value>) -> (r: Result<(), WireError>)
    ensures
        final(m).kind == old(m).kind,
        final(m).body@ == old(m).body@,
        match r {
            Ok(()) => collect_fields(value_views(fields@), 0, fields_of(*old(m), Seq::empty()))
                matches Ok(f) && f == fields_of(*final(m), f.seen),
            Err(e) => collect_fields(value_views(fields@), 0, fields_of(*old(m), Seq::empty()))
                == Err::<Fields, WireErrorView>(e@),
        },
{
    broadcast use crate::dbus_wire::value::lemma_value_view_containers;

    let ghost all = value_views(fields@);
    let ghost total = collect_fields(all, 0, fields_of(*m, Seq::empty()));
    let mut seen: Vec<u8> = Vec::new();
    assert(seen@ =~= Seq::empty());
    let mut i: usize = 0;
    while i < fields.len()
        invariant
            all == value_views(fields@),
            i <= fields@.len(),
            m.kind == old(m).kind,
            m.body@ == old(m).body@,
            total == collect_fields(all, 0, fields_of(*old(m), Seq::empty())),
            total == collect_fields(all, i as int, fields_of(*m, seen@)),
        decreases fields@.len() - i,
    {
        proof {
            assert(all[i as int] == fields@[i as int]@);
            crate::dbus_wire::value::lemma_value_view_containers(fields@[i as int]);
        }
        let pair = match &fields[i] {
            Value::Struct(p) => p,
            _ => {
                return Err(WireError::BadMessage("a header field it could not read"));
            },
        };
        proof {
            assert(all[i as int] == ValueView::Struct(value_views(pair@)));
        }
        if pair.len() != 2 {
            return Err(WireError::BadMessage("a header field it could not read"));
        }
        proof {
            assert(value_views(pair@)[0] == pair@[0]@);
            assert(value_views(pair@)[1] == pair@[1]@);
        }
        match (&pair[0], &pair[1]) {
            (Value::Byte(code), Value::Variant(value)) => {
                match take_field(m, &mut seen, *code, value) {
                    Ok(()) => {},
                    Err(e) => {
                        return Err(e);
                    },
                }
            },
            _ => {
                return Err(WireError::BadMessage("a header field it could not read"));
            },
        }
        i = i + 1;
    }
    Ok(())
}

/// Unmarshal one whole message. Header fields whose code is known must have
/// the type the specification gives them; unknown codes are ignored, which is
/// what "Header Fields" requires of a client meeting a newer bus. A code that
/// appears twice is refused: the specification gives no rule for which copy
/// wins, and two readers picking different ones is how a message means two
/// things at once.
pub fn decode_message(message: &[u8]) -> (r: Result<Message, WireError>)
    ensures
        outcome(r) == read_message(message@),
{
    broadcast use crate::dbus_wire::value::lemma_value_view_containers;

    let (body_at, body_len) = match frame(message) {
        Ok(f) => f,
        Err(e) => {
            return Err(e);
        },
    };
    proof {
        lemma_capacities();
        lemma_le_value(message@.subrange(12, 16));
        lemma_padding((FIXED_HEADER + le_value(message@.subrange(12, 16))) as nat, 8);
    }
    let fields_len = read_le(vstd::slice::slice_subrange(message, 12, 16));
    let fields_end = FIXED_HEADER + fields_len as usize;
    if fields_end > message.len() {
        return Err(WireError::Truncated);
    }
    let header = vstd::slice::slice_subrange(message, 0, fields_end);
    assert(header@ =~= message@.take(fields_end as int));
    let values = match decode("yyyyuua(yv)", header) {
        Ok(v) => v,
        Err(e) => {
            return Err(e);
        },
    };
    let ghost models = value_views(values@);
    if values.len() != 7 {
        return Err(WireError::BadMessage("a header it could not read"));
    }
    assert(models[1] == values@[1]@ && models[6] == values@[6]@);
    let (kind, fields) = match (&values[1], &values[6]) {
        (Value::Byte(k), Value::Array(f)) => (*k, f),
        _ => {
            return Err(WireError::BadMessage("a header it could not read"));
        },
    };
    // The padding between the header and the body is part of neither, so
    // it is checked here rather than by the decoder.
    if body_at > message.len() {
        return Err(WireError::Truncated);
    }
    let mut i: usize = fields_end;
    while i < body_at
        invariant
            fields_end <= i <= body_at <= message@.len(),
            forall|j: int| fields_end <= j < i ==> #[trigger] message@[j] == 0,
            message_frame(message@) == Ok::<(nat, nat), WireErrorView>(
                (body_at as nat, body_len as nat),
            ),
            fields_end == FIXED_HEADER + le_value(message@.subrange(12, 16)),
            unmarshal("yyyyuua(yv)"@, message@.take(fields_end as int)) == Ok::<
                Seq<ValueView>,
                WireErrorView,
            >(models),
            models.len() == 7,
            models[1] is Byte,
            models[6] is Array,
        decreases body_at - i,
    {
        if message[i] != 0 {
            assert(message@[i as int] != 0);
            return Err(WireError::Padding);
        }
        i = i + 1;
    }
    if body_len > message.len() - body_at {
        return Err(WireError::Truncated);
    }
    let body = copy_bytes(vstd::slice::slice_subrange(message, body_at, body_at + body_len));
    let mut out = Message {
        kind,
        reply_serial: None,
        error_name: None,
        sender: None,
        signature: String::new(),
        unix_fds: 0,
        body,
    };
    assert(fields_of(out, Seq::empty()) == no_fields());
    match take_fields(&mut out, fields) {
        Ok(()) => {},
        Err(e) => {
            return Err(e);
        },
    }
    if out.signature.as_str().is_empty() && out.body.len() > 0 {
        return Err(WireError::BadMessage("a body with no signature"));
    }
    Ok(out)
}

/// The hexadecimal digit of a number below 16.
pub open spec fn hex_digit(d: nat) -> char {
    if d < 10 {
        (('0' as u32) + d) as char
    } else {
        (('a' as u32) + d - 10) as char
    }
}

/// The bytes of a text, each written as two hexadecimal digits.
pub open spec fn hex_text(text: Seq<char>) -> Seq<char> {
    Seq::new(
        2 * text.len(),
        |i: int|
            {
                let code = text[i / 2] as nat;
                if i % 2 == 0 {
                    hex_digit(code / 16)
                } else {
                    hex_digit(code % 16)
                }
            },
    )
}

pub(crate) fn hex(d: u8) -> (c: char)
    requires
        d < 16,
    ensures
        c == hex_digit(d as nat),
{
    if d < 10 {
        (48 + d) as char
    } else {
        (97 + (d - 10)) as char
    }
}

/// The ASCII decimal digits of `uid`, each byte written as two hex digits:
/// what `AUTH EXTERNAL` takes. "31303030 is ASCII decimal \"1000\"
/// represented in hex, so the client is authenticating as Unix uid 1000".
pub fn uid_hex(uid: u32) -> (r: String)
    ensures
        r@ == hex_text(decimal_digits(uid as nat)),
{
    let text = decimal(uid as u64);
    let digits = crate::text::chars_of(&text);
    proof {
        lemma_decimal_digits(uid as nat);
    }
    let mut out = String::new();
    let mut i: usize = 0;
    while i < digits.len()
        invariant
            digits@ == decimal_digits(uid as nat),
            forall|j: int| 0 <= j < digits@.len() ==> '0' <= #[trigger] digits@[j] <= '9',
            i <= digits@.len(),
            out@ == hex_text(digits@.take(i as int)),
        decreases digits@.len() - i,
    {
        let byte = digits[i] as u8;
        let ghost before = out@;
        out.push(hex(byte / 16));
        out.push(hex(byte % 16));
        i = i + 1;
        proof {
            let more = digits@.take(i as int);
            assert(more.drop_last() =~= digits@.take(i - 1));
            assert forall|j: int| 0 <= j < 2 * i implies hex_text(more)[j] == out@[j] by {
                if j < 2 * (i - 1) {
                    assert(before[j] == hex_text(digits@.take(i - 1))[j]);
                    assert(digits@.take(i - 1)[j / 2] == more[j / 2]);
                } else {
                    assert(j / 2 == i - 1);
                    assert(more[j / 2] == digits@[i - 1]);
                    assert(more[j / 2] as nat == byte as nat);
                }
            }
            assert(out@ =~= hex_text(more));
        }
    }
    proof {
        assert(digits@.take(i as int) =~= digits@);
    }
    out
}

} // verus!
