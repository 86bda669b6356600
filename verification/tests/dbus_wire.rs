//! Marshalling, messages and the session.

use bubbler_core::dbus_wire::encode::valid_object_path;
use bubbler_core::dbus_wire::message::{
    decode_message, encode_message, frame, uid_hex, Message, FIELD_DESTINATION, FIELD_ERROR_NAME,
    FIELD_INTERFACE, FIELD_MEMBER, FIELD_PATH, FIELD_REPLY_SERIAL, FIELD_SENDER, FIELD_SIGNATURE,
    FIELD_UNIX_FDS, FIXED_HEADER, MSG_ERROR, MSG_METHOD_CALL, MSG_METHOD_RETURN,
};
use bubbler_core::dbus_wire::session::{
    answer, check_fd_indices, opening, Call, Stage, Step, BUS_INTERFACE, BUS_NAME, BUS_PATH,
    MAX_AUTH_LINE, MAX_CALL_FDS,
};
use bubbler_core::dbus_wire::signature::parse_signature;
use bubbler_core::dbus_wire::value::{MAX_ARRAY, MAX_CONTAINER_DEPTH, MAX_DEPTH, MAX_SIGNATURE};
use bubbler_core::dbus_wire::{decode, encode, Session, Value, WireError};

/// The `Hello` call bubbler opens every connection with, byte for
/// byte, laid out by hand from "Message Format": the four bytes, the
/// body length, the serial, then the header-field array, whose
/// `(yv)` elements each start on an 8-byte boundary.
const HELLO_FRAME: [u8; 128] = [
    // little-endian, METHOD_CALL, no flags, protocol version 1
    b'l', 1, 0, 1, // body length 0
    0, 0, 0, 0, // serial 1
    1, 0, 0, 0, // the header fields take 110 bytes
    0x6e, 0, 0, 0, // PATH, a variant of signature "o", 21 bytes of text
    1, 1, b'o', 0, 21, 0, 0, 0, b'/', b'o', b'r', b'g', b'/', b'f', b'r', b'e', b'e', b'd',
    b'e', b's', b'k', b't', b'o', b'p', b'/', b'D', b'B', b'u', b's', 0,
    // padding to the next 8-byte boundary
    0, 0, // DESTINATION, a variant of signature "s", 20 bytes of text
    6, 1, b's', 0, 20, 0, 0, 0, b'o', b'r', b'g', b'.', b'f', b'r', b'e', b'e', b'd', b'e',
    b's', b'k', b't', b'o', b'p', b'.', b'D', b'B', b'u', b's', 0, 0, 0, 0,
    // INTERFACE, the same name again
    2, 1, b's', 0, 20, 0, 0, 0, b'o', b'r', b'g', b'.', b'f', b'r', b'e', b'e', b'd', b'e',
    b's', b'k', b't', b'o', b'p', b'.', b'D', b'B', b'u', b's', 0, 0, 0, 0,
    // MEMBER "Hello"
    3, 1, b's', 0, 5, 0, 0, 0, b'H', b'e', b'l', b'l', b'o', 0,
    // padding to the 8-byte boundary the body would start on
    0, 0,
];

/// The header fields of the `Hello` call, in the order a call writes
/// them.
fn hello_fields() -> Vec<(u8, Value)> {
    vec![
        (FIELD_PATH, Value::ObjectPath(BUS_PATH.to_owned())),
        (FIELD_DESTINATION, Value::Str(BUS_NAME.to_owned())),
        (FIELD_INTERFACE, Value::Str(BUS_INTERFACE.to_owned())),
        (FIELD_MEMBER, Value::Str("Hello".to_owned())),
    ]
}

#[test]
fn the_hello_call_is_marshalled_byte_for_byte() {
    let message = encode_message(MSG_METHOD_CALL, 0, 1, &hello_fields(), &[]).unwrap();
    assert_eq!(message, HELLO_FRAME);
    let back = decode_message(&HELLO_FRAME).unwrap();
    assert_eq!(back.kind, MSG_METHOD_CALL);
    assert_eq!(back.reply_serial, None);
    assert!(back.body.is_empty());
    assert_eq!(back.signature, "");
}

#[test]
fn the_specification_string_example_marshals_as_printed() {
    // "if the current position is a multiple of 8 bytes from the
    // beginning of a little-endian message, strings 'foo', '+' and
    // 'bar' would be serialized in sequence as follows".
    let values = vec![
        Value::Str("foo".to_owned()),
        Value::Str("+".to_owned()),
        Value::Str("bar".to_owned()),
    ];
    let bytes = encode("sss", &values).unwrap();
    assert_eq!(
        bytes,
        [
            0x03, 0x00, 0x00, 0x00, b'f', b'o', b'o', 0x00, 0x01, 0x00, 0x00, 0x00, b'+', 0x00,
            // two bytes of padding to reach the next multiple of 4
            0x00, 0x00, 0x03, 0x00, 0x00, 0x00, b'b', b'a', b'r', 0x00,
        ]
    );
    assert_eq!(decode("sss", &bytes).unwrap(), values);
}

#[test]
fn an_array_pads_to_its_element_even_when_it_is_empty() {
    // "an array containing only the 64-bit integer 5": the length,
    // then padding to the element's 8-byte boundary that the length
    // does not count, then the element.
    assert_eq!(
        encode("at", &[Value::Array(vec![Value::Uint64(5)])]).unwrap(),
        [8, 0, 0, 0, 0, 0, 0, 0, 5, 0, 0, 0, 0, 0, 0, 0]
    );
    // "the alignment padding for the first element is required even
    // if there is no first element".
    assert_eq!(
        encode("at", &[Value::Array(Vec::new())]).unwrap(),
        [0, 0, 0, 0, 0, 0, 0, 0]
    );
}

#[test]
fn a_variant_carries_the_signature_of_what_is_in_it() {
    // "a variant containing a 64-bit integer 5": the signature, then
    // padding to the contained value's own alignment.
    assert_eq!(
        encode("v", &[Value::Variant(Box::new(Value::Uint64(5)))]).unwrap(),
        [0x01, b't', 0x00, 0, 0, 0, 0, 0, 5, 0, 0, 0, 0, 0, 0, 0]
    );
}

#[test]
fn a_value_is_padded_to_its_own_alignment() {
    assert_eq!(
        encode("yu", &[Value::Byte(1), Value::Uint32(2)]).unwrap(),
        [1, 0, 0, 0, 2, 0, 0, 0]
    );
    assert_eq!(
        encode("yt", &[Value::Byte(1), Value::Uint64(2)]).unwrap(),
        [1, 0, 0, 0, 0, 0, 0, 0, 2, 0, 0, 0, 0, 0, 0, 0]
    );
}

#[test]
fn every_type_round_trips() {
    let cases: Vec<(&str, Vec<Value>)> = vec![
        ("y", vec![Value::Byte(0xab)]),
        ("b", vec![Value::Bool(true)]),
        ("b", vec![Value::Bool(false)]),
        ("n", vec![Value::Int16(-2)]),
        ("q", vec![Value::Uint16(7)]),
        ("i", vec![Value::Int32(-70_000)]),
        ("u", vec![Value::Uint32(70_000)]),
        ("x", vec![Value::Int64(-5_000_000_000)]),
        ("t", vec![Value::Uint64(5_000_000_000)]),
        ("d", vec![Value::Double(0.5f64.to_bits())]),
        ("s", vec![Value::Str("héllo".to_owned())]),
        ("s", vec![Value::Str(String::new())]),
        (
            "o",
            vec![Value::ObjectPath(
                "/org/freedesktop/portal/documents".to_owned(),
            )],
        ),
        ("g", vec![Value::Signature("a{sv}".to_owned())]),
        ("h", vec![Value::Fd(3)]),
        ("ay", vec![Value::ByteArray(vec![1, 2, 3])]),
        ("ay", vec![Value::ByteArray(Vec::new())]),
        (
            "as",
            vec![Value::Array(vec![
                Value::Str("read".to_owned()),
                Value::Str("write".to_owned()),
            ])],
        ),
        ("ah", vec![Value::Array(vec![Value::Fd(0), Value::Fd(1)])]),
        (
            "a{sv}",
            vec![Value::Dict(vec![
                (
                    "mountpoint".to_owned(),
                    Value::Variant(Box::new(Value::ByteArray(b"/run/user/1000/doc".to_vec()))),
                ),
                (
                    "count".to_owned(),
                    Value::Variant(Box::new(Value::Uint32(2))),
                ),
            ])],
        ),
        ("a{sv}", vec![Value::Dict(Vec::new())]),
        (
            "(is)",
            vec![Value::Struct(vec![
                Value::Int32(1),
                Value::Str("x".to_owned()),
            ])],
        ),
        (
            "a(yv)",
            vec![Value::Array(vec![Value::Struct(vec![
                Value::Byte(9),
                Value::Variant(Box::new(Value::Uint32(1))),
            ])])],
        ),
        (
            "v",
            vec![Value::Variant(Box::new(Value::Str("v".to_owned())))],
        ),
        // The shape of the `AddFull` call and of its reply.
        (
            "ahusas",
            vec![
                Value::Array(vec![Value::Fd(0), Value::Fd(1)]),
                Value::Uint32(1),
                Value::Str("org.bubbler.pdf".to_owned()),
                Value::Array(vec![
                    Value::Str("read".to_owned()),
                    Value::Str("write".to_owned()),
                ]),
            ],
        ),
        (
            "asa{sv}",
            vec![
                Value::Array(vec![Value::Str("1a2b".to_owned())]),
                Value::Dict(Vec::new()),
            ],
        ),
    ];
    for (sig, values) in cases {
        let bytes = encode(sig, &values).unwrap();
        assert_eq!(decode(sig, &bytes).unwrap(), values, "signature {sig:?}");
    }
}

#[test]
fn padding_that_is_not_nul_is_refused() {
    let mut bytes = encode("yu", &[Value::Byte(1), Value::Uint32(2)]).unwrap();
    bytes[2] = 0xff;
    assert!(matches!(decode("yu", &bytes), Err(WireError::Padding)));
}

#[test]
fn a_truncated_value_is_refused() {
    let mut bytes = encode("as", &[Value::Array(vec![Value::Str("read".to_owned())])]).unwrap();
    bytes.truncate(bytes.len() - 2);
    assert!(matches!(decode("as", &bytes), Err(WireError::Truncated)));
    assert!(matches!(decode("u", &[1, 2, 3]), Err(WireError::Truncated)));
}

#[test]
fn an_array_whose_elements_do_not_fill_it_is_refused() {
    let mut bytes = encode("ay", &[Value::ByteArray(vec![1, 2, 3, 4])]).unwrap();
    // One byte fewer than the elements that follow: the sender and
    // the reader disagree about where the array ends.
    bytes[..4].copy_from_slice(&3u32.to_le_bytes());
    assert!(matches!(decode("ay", &bytes), Err(WireError::Trailing(1))));
    let mut bytes = encode("au", &[Value::Array(vec![Value::Uint32(1)])]).unwrap();
    bytes[..4].copy_from_slice(&2u32.to_le_bytes());
    assert!(matches!(decode("au", &bytes), Err(WireError::Truncated)));
}

#[test]
fn an_array_longer_than_the_specification_allows_is_refused() {
    let mut bytes = encode("ay", &[Value::ByteArray(vec![1])]).unwrap();
    bytes[..4].copy_from_slice(&(MAX_ARRAY as u32 + 1).to_le_bytes());
    assert!(matches!(
        decode("ay", &bytes),
        Err(WireError::ArrayTooLong(_))
    ));
    // And one that would be believed if the length were not checked
    // against what is there.
    bytes[..4].copy_from_slice(&u32::MAX.to_le_bytes());
    assert!(matches!(
        decode("ay", &bytes),
        Err(WireError::ArrayTooLong(_))
    ));
}

#[test]
fn a_string_with_a_nul_in_it_is_refused() {
    assert!(matches!(
        encode("s", &[Value::Str("a\0b".to_owned())]),
        Err(WireError::BadString)
    ));
    let mut bytes = encode("s", &[Value::Str("ab".to_owned())]).unwrap();
    // "a\0", where a C reader would stop early and see "a".
    bytes[5] = 0;
    assert!(matches!(decode("s", &bytes), Err(WireError::BadString)));
}

#[test]
fn a_string_that_does_not_end_in_a_nul_is_refused() {
    let mut bytes = encode("s", &[Value::Str("ab".to_owned())]).unwrap();
    let last = bytes.len() - 1;
    bytes[last] = b'c';
    assert!(matches!(decode("s", &bytes), Err(WireError::BadString)));
}

#[test]
fn a_string_that_is_not_utf8_is_refused() {
    let bytes = [1, 0, 0, 0, 0xff, 0];
    assert!(matches!(decode("s", &bytes), Err(WireError::BadString)));
}

#[test]
fn bytes_left_over_are_refused() {
    let mut bytes = encode("u", &[Value::Uint32(1)]).unwrap();
    bytes.push(0);
    assert!(matches!(decode("u", &bytes), Err(WireError::Trailing(1))));
}

#[test]
fn a_boolean_that_is_not_zero_or_one_is_refused() {
    assert!(matches!(
        decode("b", &2u32.to_le_bytes()),
        Err(WireError::BadBool(2))
    ));
}

#[test]
fn object_paths_follow_the_rules_in_the_specification() {
    for good in ["/", "/a", "/org/freedesktop/portal/documents", "/a_1/B9"] {
        assert!(valid_object_path(good), "{good:?}");
    }
    for bad in ["", "a", "/a/", "//a", "/a//b", "/a.b", "/a-b", "/a b"] {
        assert!(!valid_object_path(bad), "{bad:?}");
    }
    assert!(matches!(
        encode("o", &[Value::ObjectPath("a.b".to_owned())]),
        Err(WireError::BadObjectPath(_))
    ));
    let mut bytes = encode("o", &[Value::ObjectPath("/ab".to_owned())]).unwrap();
    bytes[4] = b'.';
    assert!(matches!(
        decode("o", &bytes),
        Err(WireError::BadObjectPath(_))
    ));
}

#[test]
fn signatures_that_are_not_single_complete_types_are_refused() {
    for bad in [
        "aa", "(ii", "ii)", "a", "()", "{sv}", "a{vs}", "a{s}", "a{svv}", "r", "e", "*", "?",
        "m", "@",
    ] {
        assert!(parse_signature(bad).is_err(), "{bad:?}");
    }
    for good in [
        "", "i", "ii", "aiai", "(ii)(ii)", "a{sv}", "a(ii)", "v", "ay", "(i(ii))", "aay",
    ] {
        assert!(parse_signature(good).is_ok(), "{good:?}");
    }
    assert!(parse_signature(&"y".repeat(MAX_SIGNATURE)).is_ok());
    assert!(parse_signature(&"y".repeat(MAX_SIGNATURE + 1)).is_err());
}

#[test]
fn nesting_past_the_limit_is_refused() {
    assert!(parse_signature(&format!("{}y", "a".repeat(MAX_CONTAINER_DEPTH))).is_ok());
    assert!(parse_signature(&format!("{}y", "a".repeat(MAX_CONTAINER_DEPTH + 1))).is_err());
    // Variants carry their own signature, so without a running total
    // a reply could nest them until the decoder ran out of stack.
    let mut bytes = Vec::new();
    for _ in 0..MAX_DEPTH + 2 {
        bytes.extend_from_slice(&[1, b'v', 0]);
    }
    bytes.extend_from_slice(&[1, b'y', 0, 0]);
    assert!(matches!(decode("v", &bytes), Err(WireError::Depth)));
}

#[test]
fn a_value_of_the_wrong_type_is_refused() {
    assert!(matches!(
        encode("s", &[Value::Uint32(1)]),
        Err(WireError::TypeMismatch { expected: 's', .. })
    ));
    assert!(matches!(
        encode("ay", &[Value::Array(vec![Value::Byte(1)])]),
        Err(WireError::TypeMismatch { .. })
    ));
    assert!(matches!(
        encode("ss", &[Value::Str("a".to_owned())]),
        Err(WireError::Arity {
            expected: 2,
            got: 1
        })
    ));
    assert!(matches!(
        encode(
            "(ii)",
            &[Value::Struct(vec![
                Value::Int32(1),
                Value::Int32(2),
                Value::Int32(3)
            ])]
        ),
        Err(WireError::Arity { .. })
    ));
}

#[test]
fn a_dict_key_that_is_not_a_string_is_refused_rather_than_guessed() {
    let bytes = encode("a{us}", &[Value::Dict(Vec::new())]);
    assert!(matches!(bytes, Err(WireError::Unsupported(_))));
    assert!(matches!(
        decode("a{us}", &[0, 0, 0, 0, 0, 0, 0, 0]),
        Err(WireError::Unsupported(_))
    ));
}

#[test]
fn a_big_endian_message_is_refused_rather_than_guessed() {
    let mut message = HELLO_FRAME;
    message[0] = b'B';
    assert!(matches!(
        decode_message(&message),
        Err(WireError::Endianness(b'B'))
    ));
    message[0] = b'l';
    message[3] = 2;
    assert!(matches!(
        decode_message(&message),
        Err(WireError::BadMessage(_))
    ));
}

#[test]
fn a_header_field_of_the_wrong_type_is_refused() {
    // "implementations must not send or accept known header fields
    // with the wrong type stored in the field value".
    let message = encode_message(
        MSG_METHOD_RETURN,
        0,
        1,
        &[(FIELD_REPLY_SERIAL, Value::Str("1".to_owned()))],
        &[],
    )
    .unwrap();
    assert!(matches!(
        decode_message(&message),
        Err(WireError::BadMessage(_))
    ));
}

#[test]
fn a_header_field_from_a_newer_specification_is_accepted_and_ignored() {
    let message = encode_message(
        MSG_METHOD_RETURN,
        0,
        1,
        &[
            (FIELD_REPLY_SERIAL, Value::Uint32(7)),
            (200, Value::Uint64(1)),
        ],
        &[],
    )
    .unwrap();
    assert_eq!(decode_message(&message).unwrap().reply_serial, Some(7));
}

#[test]
fn a_body_with_no_signature_is_refused() {
    let message = encode_message(
        MSG_METHOD_RETURN,
        0,
        1,
        &[(FIELD_REPLY_SERIAL, Value::Uint32(1))],
        &[1, 2, 3, 4],
    )
    .unwrap();
    assert!(matches!(
        decode_message(&message),
        Err(WireError::BadMessage(_))
    ));
}

#[test]
fn the_uid_goes_out_as_hex_of_its_decimal_digits() {
    // "31303030 is ASCII decimal "1000" represented in hex, so the
    // client is authenticating as Unix uid 1000".
    assert_eq!(uid_hex(1000), "31303030");
    assert_eq!(uid_hex(0), "30");
    assert_eq!(uid_hex(4_294_967_295), "34323934393637323935");
}

#[test]
fn a_header_field_that_appears_twice_is_refused() {
    let message = encode_message(
        MSG_METHOD_RETURN,
        0,
        1,
        &[
            (FIELD_REPLY_SERIAL, Value::Uint32(1)),
            (FIELD_REPLY_SERIAL, Value::Uint32(2)),
        ],
        &[],
    )
    .unwrap();
    assert!(matches!(
        decode_message(&message),
        Err(WireError::BadMessage(_))
    ));
}

#[test]
fn a_value_too_deep_to_name_is_refused_before_the_stack_runs_out() {
    // The signature of what goes in a variant is worked out before
    // the encoder has recursed at all, so the guard has to be there
    // as well as in the encoder.
    let mut value = Value::Byte(1);
    for _ in 0..200 {
        value = Value::Array(vec![value]);
    }
    let err = encode("v", &[Value::Variant(Box::new(value))]).unwrap_err();
    assert!(matches!(err, WireError::Depth), "{err:?}");
}

/// `depth` nested arrays around a variant holding `inner_depth`
/// nested arrays around one byte, for a block starting on an 8-byte
/// boundary. Every array holds exactly one element, so a decoder
/// walks the whole chain.
fn arrays_around_a_variant(depth: usize, inner_depth: usize) -> (String, Vec<u8>) {
    let inner_sig = format!("{}y", "a".repeat(inner_depth));
    let mut inner = vec![0x7f];
    for _ in 0..inner_depth {
        let mut wrapped = (inner.len() as u32).to_le_bytes().to_vec();
        wrapped.extend_from_slice(&inner);
        inner = wrapped;
    }
    // One 4-byte length per enclosing array stands before the variant.
    let at = depth * 4;
    let mut bytes = vec![inner_sig.len() as u8];
    bytes.extend_from_slice(inner_sig.as_bytes());
    bytes.push(0);
    while (at + bytes.len()) % 4 != 0 {
        bytes.push(0);
    }
    bytes.extend_from_slice(&inner);
    for _ in 0..depth {
        let mut wrapped = (bytes.len() as u32).to_le_bytes().to_vec();
        wrapped.extend_from_slice(&bytes);
        bytes = wrapped;
    }
    (format!("{}v", "a".repeat(depth)), bytes)
}

#[test]
fn containers_that_cross_a_variant_boundary_count_toward_one_limit() {
    let (sig, bytes) = arrays_around_a_variant(10, 10);
    assert!(decode(&sig, &bytes).is_ok());
    // Each half is inside the specification's limit of 32 arrays and
    // the two together are past the total depth of 64.
    let (sig, bytes) = arrays_around_a_variant(32, 32);
    assert!(matches!(decode(&sig, &bytes), Err(WireError::Depth)));
}

fn text(s: &str) -> Value {
    Value::Str(s.to_owned())
}

/// The serial of a message the client sent.
fn serial_of(message: &[u8]) -> u32 {
    u32::from_le_bytes([message[8], message[9], message[10], message[11]])
}

/// The bytes of a message from the bus's side.
fn sent_by_bus(kind: u8, serial: u32, fields: &[(u8, Value)], sig: &str, body: &[Value]) -> Vec<u8> {
    let mut fields = fields.to_vec();
    if !sig.is_empty() {
        fields.push((FIELD_SIGNATURE, Value::Signature(sig.to_owned())));
    }
    let body = encode(sig, body).unwrap();
    encode_message(kind, 0, serial, &fields, &body).unwrap()
}

/// A reply to the call with serial `reply_to`, from `sender`.
fn reply_bytes(serial: u32, reply_to: u32, sender: &str, sig: &str, body: &[Value]) -> Vec<u8> {
    sent_by_bus(
        MSG_METHOD_RETURN,
        serial,
        &[
            (FIELD_REPLY_SERIAL, Value::Uint32(reply_to)),
            (FIELD_SENDER, text(sender)),
        ],
        sig,
        body,
    )
}

/// A signal, which a pending call must skip whatever it carries.
fn signal_bytes(serial: u32, reply_serial: Option<u32>) -> Vec<u8> {
    let mut fields = vec![
        (FIELD_PATH, Value::ObjectPath("/org/a".to_owned())),
        (FIELD_INTERFACE, text("org.a")),
        (FIELD_MEMBER, text("Changed")),
        (FIELD_SENDER, text(":1.5")),
    ];
    if let Some(reply_serial) = reply_serial {
        fields.push((FIELD_REPLY_SERIAL, Value::Uint32(reply_serial)));
    }
    sent_by_bus(4, serial, &fields, "s", &[text("ignore me")])
}

/// Give the session what the bus sent and take every step it leads to, up to
/// the first that is not a message passed over.
fn give(session: &mut Session, bytes: &[u8]) -> Result<Step, WireError> {
    session.received(bytes, 0)?;
    loop {
        match session.advance()? {
            Step::Skipped => {}
            step => return Ok(step),
        }
    }
}

/// The bytes a step sends.
fn bytes_sent(step: Step) -> Vec<u8> {
    match step {
        Step::Send { bytes, .. } => bytes,
        other => panic!("{other:?}"),
    }
}

/// A session whose opening the bus answered, and the `Hello` it was sent.
fn greeted(fds: bool) -> (Session, Vec<u8>) {
    let mut session = Session::new();
    let step = give(&mut session, b"OK 0123456789abcdef\r\n").unwrap();
    assert_eq!(bytes_sent(step), b"NEGOTIATE_UNIX_FD\r\n");
    let line: &[u8] = if fds { b"AGREE_UNIX_FD\r\n" } else { b"ERROR no\r\n" };
    let step = give(&mut session, line).unwrap();
    let bytes = bytes_sent(step);
    assert!(bytes.starts_with(b"BEGIN\r\n"));
    (session, bytes[7..].to_vec())
}

/// A session that may make its first call.
fn started(name: &str) -> Session {
    let (mut session, hello) = greeted(true);
    let reply = reply_bytes(1, serial_of(&hello), BUS_NAME, "s", &[text(name)]);
    assert!(matches!(give(&mut session, &reply).unwrap(), Step::Ready));
    session
}

fn call_to(dest: &str, path: &str, iface: &str, member: &str) -> Call {
    Call {
        dest: dest.to_owned(),
        path: path.to_owned(),
        iface: iface.to_owned(),
        member: member.to_owned(),
        sig: String::new(),
        body: vec![],
        fds: 0,
    }
}

fn ask(session: &mut Session) -> u32 {
    let step = session.call(call_to(":1.5", "/org/a", "org.a", "Ask")).unwrap();
    serial_of(&bytes_sent(step))
}

fn replied(step: Step) -> Vec<Value> {
    match step {
        Step::Reply(values) => values,
        other => panic!("{other:?}"),
    }
}

#[test]
fn a_connection_opens_with_a_nul_and_the_uid() {
    assert_eq!(opening(1000), b"\0AUTH EXTERNAL 31303030\r\n");
}

#[test]
fn a_session_authenticates_says_hello_and_makes_a_call() {
    let (mut session, hello) = greeted(true);
    // What goes out first is the frame pinned above, unchanged.
    assert_eq!(hello, HELLO_FRAME);
    let reply = reply_bytes(1, serial_of(&hello), BUS_NAME, "s", &[text(":1.42")]);
    assert!(matches!(give(&mut session, &reply).unwrap(), Step::Ready));
    assert_eq!(session.unique_name(), ":1.42");
    assert!(session.passes_fds());
    let step = session
        .call(call_to(BUS_NAME, BUS_PATH, BUS_INTERFACE, "GetId"))
        .unwrap();
    let bytes = bytes_sent(step);
    assert_eq!(decode_message(&bytes).unwrap().kind, MSG_METHOD_CALL);
    let reply = reply_bytes(2, serial_of(&bytes), BUS_NAME, "s", &[text("deadbeef")]);
    assert_eq!(
        replied(give(&mut session, &reply).unwrap()),
        vec![Value::Str("deadbeef".to_owned())]
    );
    // Nothing is sent for a call that names nobody: a reply to it could not be
    // attributed to an owner.
    let err = session
        .call(call_to("", BUS_PATH, BUS_INTERFACE, "GetId"))
        .unwrap_err();
    assert!(matches!(err, WireError::NoDestination), "{err:?}");
}

#[test]
fn signals_and_replies_to_other_calls_are_skipped() {
    let mut session = started(":1.9");
    let step = session
        .call(call_to(BUS_NAME, BUS_PATH, BUS_INTERFACE, "GetId"))
        .unwrap();
    let serial = serial_of(&bytes_sent(step));
    // A signal with no reply serial at all, then a reply to a call this
    // connection never made.
    assert!(matches!(
        give(&mut session, &signal_bytes(7, None)).unwrap(),
        Step::Wait
    ));
    let other = reply_bytes(8, 999, BUS_NAME, "s", &[text("not yours")]);
    assert!(matches!(give(&mut session, &other).unwrap(), Step::Wait));
    // A signal that carries the pending serial: "if a signal has a reply
    // serial it must be ignored".
    assert!(matches!(
        give(&mut session, &signal_bytes(10, Some(serial))).unwrap(),
        Step::Wait
    ));
    let reply = reply_bytes(9, serial, BUS_NAME, "s", &[text("yours")]);
    assert_eq!(
        replied(give(&mut session, &reply).unwrap()),
        vec![Value::Str("yours".to_owned())]
    );
}

#[test]
fn an_error_reply_names_the_error_and_leaves_the_session_usable() {
    let mut session = started(":1.10");
    let step = session
        .call(call_to(":1.5", "/org/a", "org.a", "Denied"))
        .unwrap();
    let error = sent_by_bus(
        MSG_ERROR,
        2,
        &[
            (FIELD_REPLY_SERIAL, Value::Uint32(serial_of(&bytes_sent(step)))),
            (
                FIELD_ERROR_NAME,
                Value::Str("org.freedesktop.portal.Error.NotAllowed".to_owned()),
            ),
            (FIELD_SENDER, Value::Str(":1.5".to_owned())),
        ],
        "s",
        &[Value::Str("no".to_owned())],
    );
    match give(&mut session, &error).unwrap_err() {
        WireError::Remote { name, message } => {
            assert_eq!(name, "org.freedesktop.portal.Error.NotAllowed");
            assert_eq!(message, "no");
        }
        other => panic!("{other:?}"),
    }
    // The connection is still good: an error is an answer.
    let step = session
        .call(call_to(":1.5", "/org/a", "org.a", "Allowed"))
        .unwrap();
    let reply = reply_bytes(3, serial_of(&bytes_sent(step)), ":1.5", "u", &[Value::Uint32(1)]);
    assert_eq!(
        replied(give(&mut session, &reply).unwrap()),
        vec![Value::Uint32(1)]
    );
}

#[test]
fn a_refused_mechanism_is_reported() {
    let mut session = Session::new();
    let err = give(&mut session, b"REJECTED DBUS_COOKIE_SHA1 ANONYMOUS\r\n").unwrap_err();
    assert!(
        matches!(&err, WireError::AuthRejected(m) if m == "DBUS_COOKIE_SHA1 ANONYMOUS"),
        "{err:?}"
    );
}

#[test]
fn an_opening_that_is_no_line_of_the_protocol_is_reported() {
    let mut session = Session::new();
    let err = give(&mut session, b"HELLO\r\n").unwrap_err();
    assert_eq!(err, WireError::Auth("HELLO".to_owned()));
    // What is not ASCII is shown with what it could not be read as replaced.
    let mut session = Session::new();
    let err = give(&mut session, b"OK \xff\r\n").unwrap_err();
    assert_eq!(err, WireError::Auth("OK \u{fffd}".to_owned()));
    let mut session = Session::new();
    let long = vec![b'a'; MAX_AUTH_LINE + 1];
    let err = give(&mut session, &long).unwrap_err();
    assert_eq!(err, WireError::Auth("a line with no end".to_owned()));
    let mut session = Session::new();
    assert!(matches!(give(&mut session, b"OK 12").unwrap(), Step::Wait));
    assert!(matches!(
        session.received(&[], 0),
        Err(WireError::Closed)
    ));
}

#[test]
fn a_bus_that_will_not_pass_descriptors_refuses_a_call_that_carries_one() {
    let (mut session, hello) = greeted(false);
    let reply = reply_bytes(1, serial_of(&hello), BUS_NAME, "s", &[text(":1.11")]);
    assert!(matches!(give(&mut session, &reply).unwrap(), Step::Ready));
    assert!(!session.passes_fds());
    let mut call = call_to(":1.5", "/org/a", "org.a", "Add");
    call.sig = "h".to_owned();
    call.body = vec![Value::Fd(0)];
    call.fds = 1;
    let err = session.call(call).unwrap_err();
    assert!(matches!(err, WireError::NoFdPassing), "{err:?}");
}

#[test]
fn a_descriptor_is_sent_with_the_call_and_named_by_its_index() {
    let mut session = started(":1.12");
    let mut call = call_to(":1.5", "/org/a", "org.a", "Add");
    call.sig = "h".to_owned();
    call.body = vec![Value::Fd(0)];
    call.fds = 1;
    let Step::Send { bytes, with_fds } = session.call(call).unwrap() else {
        panic!("nothing was sent");
    };
    assert!(with_fds);
    assert_eq!(decode_message(&bytes).unwrap().unix_fds, 1);
    // An index past the descriptors would name whatever happened to be there.
    let mut session = started(":1.12");
    let mut call = call_to(":1.5", "/org/a", "org.a", "Add");
    call.sig = "ah".to_owned();
    call.body = vec![Value::Array(vec![Value::Fd(0), Value::Fd(1)])];
    call.fds = 1;
    let err = session.call(call).unwrap_err();
    assert!(matches!(err, WireError::FdIndex(1)), "{err:?}");
    let mut session = started(":1.12");
    let mut call = call_to(":1.5", "/org/a", "org.a", "Add");
    call.fds = MAX_CALL_FDS + 1;
    let err = session.call(call).unwrap_err();
    assert!(matches!(err, WireError::TooManyFds(_)), "{err:?}");
    let nested = Value::Dict(vec![("k".to_owned(), Value::Variant(Box::new(Value::Fd(2))))]);
    assert_eq!(check_fd_indices(&nested, 2), Err(WireError::FdIndex(2)));
    assert_eq!(check_fd_indices(&nested, 3), Ok(()));
}

#[test]
fn a_reply_from_anyone_but_the_owner_of_the_name_is_ignored() {
    let mut session = started(":1.15");
    let documents = || {
        call_to(
            "org.freedesktop.portal.Documents",
            "/org/freedesktop/portal/documents",
            "org.freedesktop.portal.Documents",
            "GetMountPoint",
        )
    };
    // A call to a well-known name asks the bus who owns it first.
    let bytes = bytes_sent(session.call(documents()).unwrap());
    assert_eq!(
        decode("s", &decode_message(&bytes).unwrap().body).unwrap(),
        vec![Value::Str("org.freedesktop.portal.Documents".to_owned())]
    );
    let owner = reply_bytes(2, serial_of(&bytes), BUS_NAME, "s", &[text(":1.77")]);
    let bytes = bytes_sent(give(&mut session, &owner).unwrap());
    // Another peer on the bus guesses the serial and answers first, choosing
    // the path bubbler would go on to use.
    let forged = reply_bytes(3, serial_of(&bytes), ":1.99", "s", &[text("/forged")]);
    assert!(matches!(give(&mut session, &forged).unwrap(), Step::Wait));
    let genuine = reply_bytes(4, serial_of(&bytes), ":1.77", "s", &[text("/genuine")]);
    assert_eq!(
        replied(give(&mut session, &genuine).unwrap()),
        vec![text("/genuine")]
    );
    // The owner is remembered, so the second call asks nothing.
    let bytes = bytes_sent(session.call(documents()).unwrap());
    let again = reply_bytes(5, serial_of(&bytes), ":1.77", "s", &[text("/again")]);
    assert_eq!(
        replied(give(&mut session, &again).unwrap()),
        vec![text("/again")]
    );
}

#[test]
fn a_reply_with_no_sender_is_refused() {
    let mut session = started(":1.16");
    let serial = ask(&mut session);
    let nobody = sent_by_bus(
        MSG_METHOD_RETURN,
        2,
        &[(FIELD_REPLY_SERIAL, Value::Uint32(serial))],
        "s",
        &[Value::Str("from nobody".to_owned())],
    );
    let err = give(&mut session, &nobody).unwrap_err();
    assert!(matches!(err, WireError::BadMessage(_)), "{err:?}");
}

#[test]
fn a_hello_reply_that_is_not_a_unique_name_is_refused() {
    let (mut session, hello) = greeted(true);
    let reply = reply_bytes(1, serial_of(&hello), BUS_NAME, "s", &[text("org.not.unique")]);
    let err = give(&mut session, &reply).unwrap_err();
    assert!(matches!(err, WireError::BadMessage(_)), "{err:?}");
}

#[test]
fn an_error_reply_with_no_name_is_refused() {
    let mut session = started(":1.17");
    let serial = ask(&mut session);
    let nameless = sent_by_bus(
        MSG_ERROR,
        2,
        &[
            (FIELD_REPLY_SERIAL, Value::Uint32(serial)),
            (FIELD_SENDER, Value::Str(":1.5".to_owned())),
        ],
        "s",
        &[Value::Str("nameless".to_owned())],
    );
    let err = give(&mut session, &nameless).unwrap_err();
    // Never an invented name: a refusal that cannot be named is a failure, not
    // `org.freedesktop.DBus.Error.Failed`.
    assert!(matches!(err, WireError::BadMessage(_)), "{err:?}");
}

#[test]
fn a_reply_delivered_one_byte_at_a_time_is_assembled() {
    let mut session = started(":1.19");
    let serial = ask(&mut session);
    let reply = reply_bytes(2, serial, ":1.5", "s", &[text("assembled")]);
    let last = reply.len() - 1;
    for byte in &reply[..last] {
        assert!(matches!(give(&mut session, &[*byte]).unwrap(), Step::Wait));
    }
    assert_eq!(
        replied(give(&mut session, &reply[last..]).unwrap()),
        vec![Value::Str("assembled".to_owned())]
    );
}

#[test]
fn two_messages_in_one_write_are_read_one_at_a_time() {
    let mut session = started(":1.20");
    let serial = ask(&mut session);
    let mut both = signal_bytes(7, None);
    both.extend_from_slice(&reply_bytes(8, serial, ":1.5", "s", &[text("second")]));
    assert_eq!(
        replied(give(&mut session, &both).unwrap()),
        vec![Value::Str("second".to_owned())]
    );
}

#[test]
fn a_message_that_declares_descriptors_it_did_not_send_is_refused() {
    let mut session = started(":1.22");
    let serial = ask(&mut session);
    let three = sent_by_bus(
        MSG_METHOD_RETURN,
        2,
        &[
            (FIELD_REPLY_SERIAL, Value::Uint32(serial)),
            (FIELD_SENDER, Value::Str(":1.5".to_owned())),
            (FIELD_UNIX_FDS, Value::Uint32(3)),
        ],
        "s",
        &[Value::Str("three, honest".to_owned())],
    );
    let err = give(&mut session, &three).unwrap_err();
    assert!(matches!(err, WireError::BadMessage(_)), "{err:?}");
}

#[test]
fn descriptors_that_came_with_a_reply_are_the_ones_it_declares() {
    let mut session = started(":1.21");
    let serial = ask(&mut session);
    let reply = sent_by_bus(
        MSG_METHOD_RETURN,
        2,
        &[
            (FIELD_REPLY_SERIAL, Value::Uint32(serial)),
            (FIELD_SENDER, Value::Str(":1.5".to_owned())),
            (FIELD_UNIX_FDS, Value::Uint32(3)),
        ],
        "s",
        &[Value::Str("ok".to_owned())],
    );
    session.received(&reply, 3).unwrap();
    let step = session.advance().unwrap();
    assert_eq!(replied(step), vec![Value::Str("ok".to_owned())]);
    assert_eq!(session.stage, Stage::Idle);
}

#[test]
fn only_the_owner_of_the_name_answers_a_call() {
    let message = |sender: Option<&str>, serial: Option<u32>, kind: u8| Message {
        kind,
        reply_serial: serial,
        error_name: None,
        sender: sender.map(str::to_owned),
        signature: "y".to_owned(),
        unix_fds: 0,
        body: vec![7],
    };
    let of = |m: Message| answer(&m, 5, ":1.7");
    assert!(of(message(Some(":1.8"), Some(5), MSG_METHOD_RETURN)).is_none());
    assert!(of(message(Some(":1.7"), Some(6), MSG_METHOD_RETURN)).is_none());
    assert!(of(message(Some(":1.7"), None, MSG_METHOD_RETURN)).is_none());
    assert!(of(message(Some(":1.7"), Some(5), 4)).is_none());
    assert_eq!(
        of(message(Some(":1.7"), Some(5), MSG_METHOD_RETURN)),
        Some(Ok(vec![Value::Byte(7)]))
    );
}

#[test]
fn the_serial_after_the_last_one_is_one_again() {
    let mut session = started(":1.23");
    session.serial = u32::MAX;
    assert_eq!(ask(&mut session), 1);
}

#[test]
fn a_frame_is_read_of_the_fixed_header_alone() {
    assert_eq!(frame(&HELLO_FRAME), Ok((128, 0)));
    assert_eq!(frame(&HELLO_FRAME[..FIXED_HEADER]), Ok((128, 0)));
    let mut long = HELLO_FRAME;
    long[7] = 0xff;
    assert!(matches!(frame(&long), Err(WireError::MessageTooLong(_))));
}

#[test]
fn a_message_is_read_back_as_it_was_written() {
    let body = encode("su", &[text("a"), Value::Uint32(9)]).unwrap();
    let bytes = encode_message(
        MSG_ERROR,
        0,
        3,
        &[
            (FIELD_REPLY_SERIAL, Value::Uint32(8)),
            (FIELD_SENDER, text(":1.4")),
            (FIELD_ERROR_NAME, text("org.a.Error")),
            (FIELD_SIGNATURE, Value::Signature("su".to_owned())),
            (FIELD_UNIX_FDS, Value::Uint32(2)),
            (FIELD_DESTINATION, text(":1.5")),
        ],
        &body,
    )
    .unwrap();
    let back = decode_message(&bytes).unwrap();
    assert_eq!(back.kind, MSG_ERROR);
    assert_eq!(back.reply_serial, Some(8));
    assert_eq!(back.sender.as_deref(), Some(":1.4"));
    assert_eq!(back.error_name.as_deref(), Some("org.a.Error"));
    assert_eq!(back.signature, "su");
    assert_eq!(back.unix_fds, 2);
    assert_eq!(back.body, body);
}

#[test]
fn every_wire_error_is_described() {
    for (error, said) in [
        (
            WireError::Connect {
                path: b"/run/\xff".to_vec(),
                reason: "refused".to_owned(),
            },
            "connecting to the bus socket /run/\u{fffd}",
        ),
        (WireError::BadObjectPath("a\"\n".to_owned()), "\"a\\\"\\n\""),
        (
            WireError::TypeMismatch {
                expected: '\'',
                got: "a string",
            },
            "'\\''",
        ),
    ] {
        let message = error.message();
        assert!(message.contains(said), "{message}");
    }
}

#[test]
fn a_flood_of_messages_to_skip_does_not_outlast_the_deadline() {
    let mut session = started(":1.18");
    let serial = ask(&mut session);
    // Never the reply: always one more message to skip. Each is passed over by
    // itself, so whoever drives the session looks at the clock in between.
    let signal = signal_bytes(7, Some(serial));
    for _ in 0..1000 {
        session.received(&signal, 0).unwrap();
        assert!(matches!(session.advance().unwrap(), Step::Skipped));
        assert!(matches!(session.advance().unwrap(), Step::Wait));
    }
    assert_eq!(session.stage, Stage::Await);
}

/// Every byte of a body that is accepted comes back when its values are
/// encoded again.
#[test]
fn a_decoded_body_is_encoded_to_the_same_bytes() {
    let values = vec![
        Value::Byte(7),
        Value::Variant(Box::new(Value::Struct(vec![
            Value::Int16(-2),
            Value::Array(vec![Value::Str("a".to_owned()), Value::Str("bc".to_owned())]),
        ]))),
        Value::Dict(vec![("k".to_owned(), Value::Variant(Box::new(Value::Int64(i64::MIN))))]),
        Value::Array(vec![]),
    ];
    let body = encode("yva{sv}at", &values).unwrap();
    let read = decode("yva{sv}at", &body).unwrap();
    assert_eq!(encode("yva{sv}at", &read), Ok(body));
}

#[test]
fn signatures_joined_list_the_types_of_both() {
    let (a, b) = ("a{sv}(ii)", "ay");
    let mut both = parse_signature(a).unwrap();
    both.extend(parse_signature(b).unwrap());
    assert_eq!(parse_signature(&format!("{a}{b}")), Ok(both));
    let long = "y".repeat(200);
    let twice = format!("{long}{long}");
    assert_eq!(parse_signature(&twice), Err(WireError::BadSignature(twice.clone())));
}
