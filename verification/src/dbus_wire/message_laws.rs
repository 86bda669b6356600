//! What writing and reading messages promise together.

use vstd::prelude::*;
use vstd::utf8::*;

use crate::dbus_wire::encode::{
    after, marshal, marshal_aligned, marshal_array, marshal_elements, marshal_fields, marshal_items,
    marshal_value,
};
use crate::dbus_wire::laws::unmarshal_gives_back_what_marshal_wrote;
use crate::dbus_wire::message::{
    assembled, collect_fields, field_structs, header_values, marshal_message, message_frame,
    no_fields, read_message, FIXED_HEADER, LITTLE_ENDIAN, PROTOCOL_VERSION,
};
use crate::dbus_wire::number::{
    le, lemma_capacities, lemma_le_len, lemma_le_round_trip, lemma_padding, padding, zeros,
};
use crate::dbus_wire::signature::{char_at, read_fields, read_type, read_types, signature_types};
use crate::dbus_wire::value::{
    alignment_of, TypeView, ValueView, WireErrorView, MAX_ARRAY, MAX_MESSAGE,
};
use crate::text::utf8;

verus! {

/// The type of one header field.
pub open spec fn field_type() -> TypeView {
    TypeView::Struct(seq![TypeView::Byte, TypeView::Variant])
}

/// The types of a message header.
pub open spec fn header_types() -> Seq<TypeView> {
    seq![
        TypeView::Byte,
        TypeView::Byte,
        TypeView::Byte,
        TypeView::Byte,
        TypeView::Uint32,
        TypeView::Uint32,
        TypeView::Array(Box::new(field_type())),
    ]
}

proof fn lemma_header_types()
    ensures
        signature_types("yyyyuua(yv)"@) == Some(header_types()),
{
    let s = "yyyyuua(yv)"@;
    reveal_strlit("yyyyuua(yv)");
    assert(s =~= seq!['y', 'y', 'y', 'y', 'u', 'u', 'a', '(', 'y', 'v', ')']);
    assert(is_ascii_chars(s));
    is_ascii_chars_encode_utf8(s);
    assert(utf8(s).len() == 11);
    reveal_with_fuel(read_fields, 3);
    reveal_with_fuel(read_type, 3);
    reveal_with_fuel(read_types, 8);
    assert(read_fields(s, 10, 1, 1) == Some((Seq::<TypeView>::empty(), 11int)));
    assert(read_type(s, 9, 1, 1) == Some((TypeView::Variant, 10int)));
    assert(read_fields(s, 9, 1, 1) == Some(
        (seq![TypeView::Variant] + Seq::<TypeView>::empty(), 11int),
    ));
    assert(read_type(s, 8, 1, 1) == Some((TypeView::Byte, 9int)));
    assert(read_fields(s, 8, 1, 1) == Some(
        (seq![TypeView::Byte] + (seq![TypeView::Variant] + Seq::<TypeView>::empty()), 11int),
    ));
    assert(seq![TypeView::Byte] + (seq![TypeView::Variant] + Seq::<TypeView>::empty()) =~= seq![
        TypeView::Byte,
        TypeView::Variant,
    ]);
    assert(read_type(s, 7, 1, 0) == Some((field_type(), 11int)));
    assert(!char_at(s, 7, '{'));
    assert(read_type(s, 6, 0, 0) == Some((TypeView::Array(Box::new(field_type())), 11int)));
    let t7 = Seq::<TypeView>::empty();
    let t6 = seq![TypeView::Array(Box::new(field_type()))] + t7;
    let t5 = seq![TypeView::Uint32] + t6;
    let t4 = seq![TypeView::Uint32] + t5;
    let t3 = seq![TypeView::Byte] + t4;
    let t2 = seq![TypeView::Byte] + t3;
    let t1 = seq![TypeView::Byte] + t2;
    let t0 = seq![TypeView::Byte] + t1;
    assert(read_types(s, 11) == Some(t7));
    assert(read_types(s, 6) == Some(t6));
    assert(read_types(s, 5) == Some(t5));
    assert(read_types(s, 4) == Some(t4));
    assert(read_types(s, 3) == Some(t3));
    assert(read_types(s, 2) == Some(t2));
    assert(read_types(s, 1) == Some(t1));
    assert(read_types(s, 0) == Some(t0));
    assert(t0 =~= header_types());
}

/// The bytes of a header: the fixed part, then the header fields.
pub open spec fn header_bytes(
    kind: u8,
    flags: u8,
    serial: u32,
    elements: Seq<u8>,
    body_len: nat,
) -> Seq<u8> {
    seq![LITTLE_ENDIAN, kind, flags, PROTOCOL_VERSION] + le(body_len, 4) + le(serial as nat, 4)
        + le(elements.len(), 4) + elements
}

proof fn lemma_header_bytes(
    kind: u8,
    flags: u8,
    serial: u32,
    fields: Seq<(u8, ValueView)>,
    body_len: nat,
)
    requires
        body_len <= MAX_MESSAGE,
        marshal("yyyyuua(yv)"@, header_values(kind, flags, serial, fields, body_len)) is Ok,
    ensures
        ({
            let elements = marshal_items(field_type(), field_structs(fields), 0, 16, 1)->Ok_0;
            &&& elements.len() <= MAX_ARRAY
            &&& marshal("yyyyuua(yv)"@, header_values(kind, flags, serial, fields, body_len))->Ok_0
                == header_bytes(kind, flags, serial, elements, body_len)
        }),
{
    let ts = header_types();
    let vs = header_values(kind, flags, serial, fields, body_len);
    let elements = marshal_items(field_type(), field_structs(fields), 0, 16, 1)->Ok_0;
    lemma_header_types();
    lemma_le_len(body_len, 4);
    lemma_le_len(serial as nat, 4);
    lemma_byte(LITTLE_ENDIAN, 0);
    lemma_byte(kind, 1);
    lemma_byte(flags, 2);
    lemma_byte(PROTOCOL_VERSION, 3);
    lemma_word(body_len as u32, 4);
    lemma_word(serial, 8);
    lemma_field(ts, vs, 0, 0, seq![LITTLE_ENDIAN]);
    lemma_field(ts, vs, 1, 1, seq![kind]);
    lemma_field(ts, vs, 2, 2, seq![flags]);
    lemma_field(ts, vs, 3, 3, seq![PROTOCOL_VERSION]);
    lemma_field(ts, vs, 4, 4, le(body_len, 4));
    lemma_field(ts, vs, 5, 8, le(serial as nat, 4));
    lemma_last_field(ts, vs, 6, 12);
    lemma_field_array(fields);
    let array = le(elements.len(), 4) + elements;
    assert(marshal_fields(ts, vs, 6, 12, 0) == Ok::<Seq<u8>, WireErrorView>(array));
    let b5 = le(serial as nat, 4) + array;
    let b4 = le(body_len, 4) + b5;
    let b3 = seq![PROTOCOL_VERSION] + b4;
    let b2 = seq![flags] + b3;
    let b1 = seq![kind] + b2;
    let b0 = seq![LITTLE_ENDIAN] + b1;
    assert(marshal_fields(ts, vs, 0, 0, 0) == Ok::<Seq<u8>, WireErrorView>(b0));
    lemma_header_parts(kind, flags, serial, elements, body_len);
}

proof fn lemma_header_parts(kind: u8, flags: u8, serial: u32, elements: Seq<u8>, body_len: nat)
    ensures
        header_bytes(kind, flags, serial, elements, body_len) == seq![LITTLE_ENDIAN] + (seq![kind]
            + (seq![flags] + (seq![PROTOCOL_VERSION] + (le(body_len, 4) + (le(serial as nat, 4) + (
        le(elements.len(), 4) + elements)))))),
{
    assert(header_bytes(kind, flags, serial, elements, body_len) =~= seq![LITTLE_ENDIAN] + (
    seq![kind] + (seq![flags] + (seq![PROTOCOL_VERSION] + (le(body_len, 4) + (le(serial as nat, 4)
        + (le(elements.len(), 4) + elements)))))));
}

proof fn lemma_no_padding(at: nat, align: nat)
    requires
        align > 0,
        at % align == 0,
    ensures
        padding(at, align) == 0,
{
    reveal(padding);
}

proof fn lemma_byte(b: u8, at: nat)
    ensures
        marshal_value(TypeView::Byte, ValueView::Byte(b), at, 0) == Ok::<Seq<u8>, WireErrorView>(
            seq![b],
        ),
{
    reveal(padding);
    assert(zeros(0) + seq![b] =~= seq![b]);
}

proof fn lemma_word(n: u32, at: nat)
    requires
        at % 4 == 0,
    ensures
        marshal_value(TypeView::Uint32, ValueView::Uint32(n), at, 0) == Ok::<
            Seq<u8>,
            WireErrorView,
        >(le(n as nat, 4)),
{
    reveal(padding);
    assert(zeros(0) + le(n as nat, 4) =~= le(n as nat, 4));
}

proof fn lemma_field(ts: Seq<TypeView>, vs: Seq<ValueView>, i: int, at: nat, bytes: Seq<u8>)
    requires
        0 <= i < vs.len(),
        marshal_value(ts[i], vs[i], at, 0) == Ok::<Seq<u8>, WireErrorView>(bytes),
    ensures
        marshal_fields(ts, vs, i, at, 0) == after(
            bytes,
            marshal_fields(ts, vs, i + 1, at + bytes.len(), 0),
        ),
{
}

proof fn lemma_last_field(ts: Seq<TypeView>, vs: Seq<ValueView>, i: int, at: nat)
    requires
        0 <= i == vs.len() - 1,
    ensures
        marshal_fields(ts, vs, i, at, 0) == marshal_value(ts[i], vs[i], at, 0),
{
    if let Ok(bytes) = marshal_value(ts[i], vs[i], at, 0) {
        lemma_field(ts, vs, i, at, bytes);
        assert(bytes + Seq::<u8>::empty() =~= bytes);
        assert(marshal_fields(ts, vs, i + 1, at + bytes.len(), 0) == Ok::<Seq<u8>, WireErrorView>(
            Seq::empty(),
        ));
    }
}

proof fn lemma_field_array(fields: Seq<(u8, ValueView)>)
    requires
        marshal_value(
            TypeView::Array(Box::new(field_type())),
            ValueView::Array(field_structs(fields)),
            12,
            0,
        ) is Ok,
    ensures
        ({
            let elements = marshal_items(field_type(), field_structs(fields), 0, 16, 1)->Ok_0;
            &&& elements.len() <= MAX_ARRAY
            &&& marshal_value(
                TypeView::Array(Box::new(field_type())),
                ValueView::Array(field_structs(fields)),
                12,
                0,
            ) == Ok::<Seq<u8>, WireErrorView>(le(elements.len(), 4) + elements)
        }),
{
    let v = ValueView::Array(field_structs(fields));
    lemma_no_padding(12, 4);
    lemma_no_padding(16, 8);
    lemma_unpadded(TypeView::Array(Box::new(field_type())), v, 12);
    lemma_unpadded_array(field_type(), v, 12);
    lemma_field_elements(fields);
}

proof fn lemma_unpadded(ty: TypeView, v: ValueView, at: nat)
    requires
        padding(at, alignment_of(ty)) == 0,
    ensures
        marshal_value(ty, v, at, 0) == marshal_aligned(ty, v, at, 0),
{
    if let Ok(bytes) = marshal_aligned(ty, v, at, 0) {
        assert(zeros(0) + bytes =~= bytes);
    }
}

proof fn lemma_unpadded_array(element: TypeView, v: ValueView, at: nat)
    requires
        padding(at + 4, alignment_of(element)) == 0,
        marshal_aligned(TypeView::Array(Box::new(element)), v, at, 0) is Ok,
    ensures
        ({
            let elements = marshal_elements(element, v, at + 4, 0)->Ok_0;
            &&& elements.len() <= MAX_ARRAY
            &&& marshal_aligned(TypeView::Array(Box::new(element)), v, at, 0) == Ok::<
                Seq<u8>,
                WireErrorView,
            >(le(elements.len(), 4) + elements)
        }),
{
    let elements = marshal_elements(element, v, at + 4, 0)->Ok_0;
    assert(marshal_aligned(TypeView::Array(Box::new(element)), v, at, 0) == marshal_array(
        element,
        v,
        at,
        0,
    ));
    assert(le(elements.len(), 4) + zeros(0) =~= le(elements.len(), 4));
}

proof fn lemma_field_elements(fields: Seq<(u8, ValueView)>)
    ensures
        marshal_elements(field_type(), ValueView::Array(field_structs(fields)), 16, 0)
            == marshal_items(field_type(), field_structs(fields), 0, 16, 1),
{
}

/// A message is framed as it was written, and read back to the kind, the
/// header fields and the body it was made from.
pub proof fn read_message_gives_back_what_marshal_message_wrote(
    kind: u8,
    flags: u8,
    serial: u32,
    fields: Seq<(u8, ValueView)>,
    body: Seq<u8>,
)
    requires
        marshal_message(kind, flags, serial, fields, body) is Ok,
    ensures
        ({
            let message = marshal_message(kind, flags, serial, fields, body)->Ok_0;
            &&& message_frame(message) == Ok::<(nat, nat), WireErrorView>(
                ((message.len() - body.len()) as nat, body.len()),
            )
            &&& read_message(message) == assembled(
                kind,
                collect_fields(field_structs(fields), 0, no_fields()),
                body,
            )
        }),
{
    let message = marshal_message(kind, flags, serial, fields, body)->Ok_0;
    let vs = header_values(kind, flags, serial, fields, body.len());
    let header = marshal("yyyyuua(yv)"@, vs)->Ok_0;
    let elements = marshal_items(field_type(), field_structs(fields), 0, 16, 1)->Ok_0;
    lemma_header_bytes(kind, flags, serial, fields, body.len());
    unmarshal_gives_back_what_marshal_wrote("yyyyuua(yv)"@, vs);
    lemma_capacities();
    lemma_le_round_trip(body.len(), 4);
    lemma_le_round_trip(serial as nat, 4);
    lemma_le_round_trip(elements.len(), 4);
    lemma_padding(header.len(), 8);
    let gap = padding(header.len(), 8);
    assert(message == header + zeros(gap) + body);
    assert(message.subrange(4, 8) =~= le(body.len(), 4));
    assert(message.subrange(12, 16) =~= le(elements.len(), 4));
    assert(message[0] == LITTLE_ENDIAN);
    assert(message[3] == PROTOCOL_VERSION);
    assert(header.len() == FIXED_HEADER + elements.len());
    assert(message.take(header.len() as int) =~= header);
    assert(message.subrange((header.len() + gap) as int, message.len() as int) =~= body);
    assert forall|i: int| header.len() <= i < header.len() + gap implies #[trigger] message[i]
        == 0 by {
        assert(message[i] == zeros(gap)[i - header.len()]);
    }
}

/// A message can be framed as soon as its fixed header is there: what comes
/// after it changes nothing.
pub proof fn frame_reads_the_fixed_header_alone(head: Seq<u8>, rest: Seq<u8>)
    requires
        head.len() >= FIXED_HEADER,
    ensures
        message_frame(head + rest) == message_frame(head),
{
    assert((head + rest).subrange(4, 8) =~= head.subrange(4, 8));
    assert((head + rest).subrange(12, 16) =~= head.subrange(12, 16));
}

/// A message is at least its fixed header, and the body is no longer than it.
pub proof fn lemma_message_has_a_header(
    kind: u8,
    flags: u8,
    serial: u32,
    fields: Seq<(u8, ValueView)>,
    body: Seq<u8>,
)
    requires
        marshal_message(kind, flags, serial, fields, body) is Ok,
    ensures
        marshal_message(kind, flags, serial, fields, body)->Ok_0.len() >= FIXED_HEADER
            + body.len(),
{
    let message = marshal_message(kind, flags, serial, fields, body)->Ok_0;
    let vs = header_values(kind, flags, serial, fields, body.len());
    let header = marshal("yyyyuua(yv)"@, vs)->Ok_0;
    let elements = marshal_items(field_type(), field_structs(fields), 0, 16, 1)->Ok_0;
    lemma_header_bytes(kind, flags, serial, fields, body.len());
    lemma_le_len(body.len(), 4);
    lemma_le_len(serial as nat, 4);
    lemma_le_len(elements.len(), 4);
    assert(header.len() >= FIXED_HEADER);
    assert(message == header + zeros(padding(header.len(), 8)) + body);
}

} // verus!
