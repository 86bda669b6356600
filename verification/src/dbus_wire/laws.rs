//! What marshalling and unmarshalling promise together.

use vstd::prelude::*;
use vstd::utf8::*;

use crate::dbus_wire::decode::{
    read_number, read_signature, read_string, read_text, skip_padding, unmarshal, unmarshal_aligned,
    unmarshal_array, unmarshal_elements, unmarshal_entries, unmarshal_fields, unmarshal_items,
    unmarshal_value,
};
use crate::dbus_wire::encode::{
    marshal, marshal_aligned, marshal_array, marshal_elements, marshal_entries, marshal_fields,
    marshal_items, marshal_signature, marshal_text, marshal_value, value_signature,
};
use crate::dbus_wire::number::{
    capacity, le, lemma_capacities, lemma_le_round_trip, padding, unsigned, zeros,
};
use crate::dbus_wire::signature::{
    char_at, lemma_read_type, lemma_read_types, read_fields, read_type, read_types, signature_types,
    sound_type, sound_types,
};
use crate::dbus_wire::value::{
    alignment_of, basic_type, TypeView, ValueView, WireErrorView, MAX_ARRAY, MAX_DEPTH,
    MAX_SIGNATURE,
};
use crate::text::utf8;

verus! {

/// Whether the block holds `bytes` at `at`.
pub open spec fn carries(buf: Seq<u8>, at: nat, bytes: Seq<u8>) -> bool {
    &&& at + bytes.len() <= buf.len()
    &&& buf.subrange(at as int, (at + bytes.len()) as int) == bytes
}

proof fn lemma_carries_parts(buf: Seq<u8>, at: nat, a: Seq<u8>, b: Seq<u8>)
    requires
        carries(buf, at, a + b),
    ensures
        carries(buf, at, a),
        carries(buf, at + a.len(), b),
{
    let both = buf.subrange(at as int, (at + a.len() + b.len()) as int);
    assert(both.subrange(0, a.len() as int) =~= a);
    assert(both.subrange(a.len() as int, (a.len() + b.len()) as int) =~= b);
    assert(buf.subrange(at as int, (at + a.len()) as int) =~= both.subrange(0, a.len() as int));
    assert(buf.subrange((at + a.len()) as int, (at + a.len() + b.len()) as int) =~= both.subrange(
        a.len() as int,
        (a.len() + b.len()) as int,
    ));
}

proof fn lemma_skip_zeros(buf: Seq<u8>, at: nat, align: nat)
    requires
        align > 0,
        carries(buf, at, zeros(padding(at, align))),
    ensures
        skip_padding(buf, at, align) == Ok::<nat, WireErrorView>(at + padding(at, align)),
{
    let gap = padding(at, align);
    let sub = buf.subrange(at as int, (at + gap) as int);
    assert forall|i: int| at <= i < at + gap implies #[trigger] buf[i] == 0 by {
        assert(sub[i - at] == zeros(gap)[i - at]);
    }
}

proof fn lemma_read_number_back(buf: Seq<u8>, at: nat, n: nat, width: nat)
    requires
        n < capacity(width),
        carries(buf, at, le(n, width)),
    ensures
        read_number(buf, at, width) == Ok::<(nat, nat), WireErrorView>((n, at + width)),
        le(n, width).len() == width,
{
    lemma_le_round_trip(n, width);
}

proof fn lemma_read_text_back(buf: Seq<u8>, at: nat, text: Seq<char>)
    requires
        !utf8(text).contains(0),
        carries(buf, at, utf8(text) + seq![0u8]),
    ensures
        read_text(buf, at, utf8(text).len()) == Ok::<(Seq<char>, nat), WireErrorView>(
            (text, at + utf8(text).len() + 1),
        ),
{
    lemma_carries_parts(buf, at, utf8(text), seq![0u8]);
    let next = at + utf8(text).len();
    assert(buf.subrange(next as int, (next + 1) as int)[0] == 0);
    encode_utf8_valid_utf8(text);
    encode_utf8_decode_utf8(text);
}

proof fn lemma_read_string_back(buf: Seq<u8>, at: nat, text: Seq<char>)
    requires
        marshal_text(text) is Ok,
        carries(buf, at, marshal_text(text)->Ok_0),
    ensures
        read_string(buf, at) == Ok::<(Seq<char>, nat), WireErrorView>(
            (text, at + marshal_text(text)->Ok_0.len()),
        ),
        marshal_text(text)->Ok_0.len() > 0,
{
    let bytes = utf8(text);
    lemma_capacities();
    assert(marshal_text(text)->Ok_0 =~= le(bytes.len(), 4) + (bytes + seq![0u8]));
    lemma_carries_parts(buf, at, le(bytes.len(), 4), bytes + seq![0u8]);
    lemma_read_number_back(buf, at, bytes.len(), 4);
    lemma_read_text_back(buf, at + 4, text);
}

/// Whether `c` is an ASCII character other than nul.
pub open spec fn plain_ascii(c: char) -> bool {
    '\0' < c && c <= '\u{7f}'
}

proof fn lemma_type_ascii(s: Seq<char>, at: int, arrays: nat, structs: nat, i: int)
    requires
        read_type(s, at, arrays, structs) is Some,
        at <= i < (read_type(s, at, arrays, structs)->Some_0).1,
    ensures
        plain_ascii(s[i]),
    decreases s.len() - at, 0nat,
{
    lemma_read_type(s, at, arrays, structs);
    if s[at] == 'a' {
        if char_at(s, at + 1, '{') {
            let (key, mid) = read_type(s, at + 2, arrays + 1, structs + 1)->0;
            let (value, end) = read_type(s, mid, arrays + 1, structs + 1)->0;
            lemma_read_type(s, at + 2, arrays + 1, structs + 1);
            lemma_read_type(s, mid, arrays + 1, structs + 1);
            if at + 2 <= i < mid {
                lemma_type_ascii(s, at + 2, arrays + 1, structs + 1, i);
            } else if mid <= i < end {
                lemma_type_ascii(s, mid, arrays + 1, structs + 1, i);
            }
        } else if i > at {
            lemma_type_ascii(s, at + 1, arrays + 1, structs, i);
        }
    } else if s[at] == '(' {
        if i > at {
            lemma_fields_ascii(s, at + 1, arrays, structs + 1, i);
        }
    }
}

proof fn lemma_fields_ascii(s: Seq<char>, at: int, arrays: nat, structs: nat, i: int)
    requires
        read_fields(s, at, arrays, structs) is Some,
        at <= i < (read_fields(s, at, arrays, structs)->Some_0).1,
    ensures
        plain_ascii(s[i]),
    decreases s.len() - at, 1nat,
{
    if s[at] != ')' {
        let (first, mid) = read_type(s, at, arrays, structs)->0;
        lemma_read_type(s, at, arrays, structs);
        if i < mid {
            lemma_type_ascii(s, at, arrays, structs, i);
        } else {
            lemma_fields_ascii(s, mid, arrays, structs, i);
        }
    }
}

proof fn lemma_types_ascii(s: Seq<char>, at: int, i: int)
    requires
        0 <= at <= i < s.len(),
        read_types(s, at) is Some,
    ensures
        plain_ascii(s[i]),
    decreases s.len() - at,
{
    let (first, mid) = read_type(s, at, 0, 0)->0;
    lemma_read_type(s, at, 0, 0);
    if i < mid {
        lemma_type_ascii(s, at, 0, 0, i);
    } else {
        lemma_types_ascii(s, mid, i);
    }
}

/// The bytes of a valid signature hold no nul.
proof fn lemma_signature_bytes(sig: Seq<char>)
    requires
        signature_types(sig) is Some,
    ensures
        !utf8(sig).contains(0),
        utf8(sig).len() <= MAX_SIGNATURE,
{
    assert forall|i: int| 0 <= i < sig.len() implies plain_ascii(#[trigger] sig[i]) by {
        lemma_types_ascii(sig, 0, i);
    }
    is_ascii_chars_encode_utf8(sig);
    assert forall|i: int| 0 <= i < utf8(sig).len() implies #[trigger] utf8(sig)[i] != 0 by {
        assert(plain_ascii(sig[i]));
    }
}

proof fn lemma_read_signature_back(buf: Seq<u8>, at: nat, sig: Seq<char>)
    requires
        signature_types(sig) is Some,
        carries(buf, at, marshal_signature(sig)),
    ensures
        read_signature(buf, at) == Ok::<(Seq<char>, nat), WireErrorView>(
            (sig, at + marshal_signature(sig).len()),
        ),
{
    lemma_signature_bytes(sig);
    lemma_capacities();
    let bytes = utf8(sig);
    reveal_with_fuel(le, 2);
    assert(marshal_signature(sig) =~= le(bytes.len(), 1) + (bytes + seq![0u8]));
    lemma_carries_parts(buf, at, le(bytes.len(), 1), bytes + seq![0u8]);
    lemma_read_number_back(buf, at, bytes.len(), 1);
    lemma_read_text_back(buf, at + 1, sig);
}

/// A marshalled value that a block holds is read back, and is not empty.
pub proof fn lemma_value_round_trip(ty: TypeView, v: ValueView, buf: Seq<u8>, at: nat, depth: nat)
    requires
        sound_type(ty),
        marshal_value(ty, v, at, depth) is Ok,
        carries(buf, at, marshal_value(ty, v, at, depth)->Ok_0),
    ensures
        unmarshal_value(ty, buf, at, depth) == Ok::<(ValueView, nat), WireErrorView>(
            (v, at + marshal_value(ty, v, at, depth)->Ok_0.len()),
        ),
        marshal_value(ty, v, at, depth)->Ok_0.len() > 0,
    decreases v, 2nat,
{
    let gap = padding(at, alignment_of(ty));
    let body = marshal_aligned(ty, v, at + gap, depth)->Ok_0;
    lemma_carries_parts(buf, at, zeros(gap), body);
    lemma_skip_zeros(buf, at, alignment_of(ty));
    lemma_aligned_round_trip(ty, v, buf, at + gap, depth);
}

proof fn lemma_scalar_round_trip(ty: TypeView, v: ValueView, buf: Seq<u8>, at: nat, depth: nat)
    requires
        depth <= MAX_DEPTH,
        basic_type(ty),
        marshal_aligned(ty, v, at, depth) is Ok,
        carries(buf, at, marshal_aligned(ty, v, at, depth)->Ok_0),
    ensures
        unmarshal_aligned(ty, buf, at, depth) == Ok::<(ValueView, nat), WireErrorView>(
            (v, at + marshal_aligned(ty, v, at, depth)->Ok_0.len()),
        ),
        marshal_aligned(ty, v, at, depth)->Ok_0.len() > 0,
{
    lemma_capacities();
    match (ty, v) {
        (TypeView::Byte, ValueView::Byte(n)) => {
            reveal_with_fuel(le, 2);
            assert(le(n as nat, 1) =~= seq![n]);
            lemma_read_number_back(buf, at, n as nat, 1);
        },
        (TypeView::Bool, ValueView::Bool(n)) => {
            let k: nat = if n {
                1
            } else {
                0
            };
            lemma_read_number_back(buf, at, k, 4);
        },
        (TypeView::Int16, ValueView::Int16(n)) => {
            lemma_read_number_back(buf, at, unsigned(n as int, 0x10000), 2);
        },
        (TypeView::Uint16, ValueView::Uint16(n)) => {
            lemma_read_number_back(buf, at, n as nat, 2);
        },
        (TypeView::Int32, ValueView::Int32(n)) => {
            lemma_read_number_back(buf, at, unsigned(n as int, 0x1_0000_0000), 4);
        },
        (TypeView::Uint32, ValueView::Uint32(n)) => {
            lemma_read_number_back(buf, at, n as nat, 4);
        },
        (TypeView::Int64, ValueView::Int64(n)) => {
            lemma_read_number_back(buf, at, unsigned(n as int, 0x1_0000_0000_0000_0000), 8);
        },
        (TypeView::Uint64, ValueView::Uint64(n)) => {
            lemma_read_number_back(buf, at, n as nat, 8);
        },
        (TypeView::Double, ValueView::Double(n)) => {
            lemma_read_number_back(buf, at, n as nat, 8);
        },
        (TypeView::Fd, ValueView::Fd(n)) => {
            lemma_read_number_back(buf, at, n as nat, 4);
        },
        (TypeView::Str, ValueView::Str(text)) => {
            lemma_read_string_back(buf, at, text);
        },
        (TypeView::ObjectPath, ValueView::ObjectPath(text)) => {
            lemma_read_string_back(buf, at, text);
        },
        (TypeView::Signature, ValueView::Signature(sig)) => {
            lemma_read_signature_back(buf, at, sig);
        },
        _ => {},
    }
}

proof fn lemma_aligned_round_trip(ty: TypeView, v: ValueView, buf: Seq<u8>, at: nat, depth: nat)
    requires
        depth <= MAX_DEPTH,
        sound_type(ty),
        marshal_aligned(ty, v, at, depth) is Ok,
        carries(buf, at, marshal_aligned(ty, v, at, depth)->Ok_0),
    ensures
        unmarshal_aligned(ty, buf, at, depth) == Ok::<(ValueView, nat), WireErrorView>(
            (v, at + marshal_aligned(ty, v, at, depth)->Ok_0.len()),
        ),
        marshal_aligned(ty, v, at, depth)->Ok_0.len() > 0,
    decreases v, 1nat,
{
    match (ty, v) {
        (TypeView::Array(element), _) => {
            lemma_array_round_trip(*element, v, buf, at, depth);
        },
        (TypeView::Struct(fields), ValueView::Struct(given)) => {
            lemma_fields_round_trip(fields, given, 0, buf, at, depth + 1);
            assert(given.skip(0) =~= given);
        },
        (TypeView::Variant, ValueView::Variant(inner)) => {
            let sig = value_signature(*inner, 0)->Ok_0;
            let types = signature_types(sig)->0;
            let head = marshal_signature(sig);
            let tail = marshal_value(types[0], *inner, at + head.len(), depth + 1)->Ok_0;
            lemma_carries_parts(buf, at, head, tail);
            lemma_read_signature_back(buf, at, sig);
            lemma_read_types(sig, 0);
            lemma_value_round_trip(types[0], *inner, buf, at + head.len(), depth + 1);
        },
        _ => {
            lemma_scalar_round_trip(ty, v, buf, at, depth);
        },
    }
}

proof fn lemma_array_round_trip(
    element: TypeView,
    v: ValueView,
    buf: Seq<u8>,
    at: nat,
    depth: nat,
)
    requires
        sound_type(element),
        marshal_array(element, v, at, depth) is Ok,
        carries(buf, at, marshal_array(element, v, at, depth)->Ok_0),
    ensures
        unmarshal_array(element, buf, at, depth) == Ok::<(ValueView, nat), WireErrorView>(
            (v, at + marshal_array(element, v, at, depth)->Ok_0.len()),
        ),
        marshal_array(element, v, at, depth)->Ok_0.len() > 0,
    decreases v, 0nat, 1nat,
{
    let gap = padding(at + 4, alignment_of(element));
    let start = at + 4 + gap;
    let elements = marshal_elements(element, v, start, depth)->Ok_0;
    lemma_array_frame(buf, at, alignment_of(element), elements);
    lemma_elements_round_trip(element, v, buf, start, depth);
}

/// The length, the padding and the place of the elements of an array.
proof fn lemma_array_frame(buf: Seq<u8>, at: nat, align: nat, elements: Seq<u8>)
    requires
        align > 0,
        elements.len() <= MAX_ARRAY,
        carries(buf, at, le(elements.len(), 4) + zeros(padding(at + 4, align)) + elements),
    ensures
        read_number(buf, at, 4) == Ok::<(nat, nat), WireErrorView>((elements.len(), at + 4)),
        skip_padding(buf, at + 4, align) == Ok::<nat, WireErrorView>(
            at + 4 + padding(at + 4, align),
        ),
        carries(buf, at + 4 + padding(at + 4, align), elements),
        le(elements.len(), 4).len() == 4,
{
    lemma_capacities();
    let gap = padding(at + 4, align);
    lemma_carries_parts(buf, at, le(elements.len(), 4) + zeros(gap), elements);
    lemma_carries_parts(buf, at, le(elements.len(), 4), zeros(gap));
    lemma_read_number_back(buf, at, elements.len(), 4);
    lemma_skip_zeros(buf, at + 4, align);
}

proof fn lemma_elements_round_trip(
    element: TypeView,
    v: ValueView,
    buf: Seq<u8>,
    start: nat,
    depth: nat,
)
    requires
        depth < MAX_DEPTH,
        sound_type(element),
        marshal_elements(element, v, start, depth) is Ok,
        carries(buf, start, marshal_elements(element, v, start, depth)->Ok_0),
    ensures
        unmarshal_elements(
            element,
            buf,
            start,
            start + marshal_elements(element, v, start, depth)->Ok_0.len(),
            depth,
        ) == Ok::<(ValueView, nat), WireErrorView>(
            (v, start + marshal_elements(element, v, start, depth)->Ok_0.len()),
        ),
    decreases v, 0nat, 0nat,
{
    match (element, v) {
        (TypeView::Byte, ValueView::ByteArray(bytes)) => {},
        (TypeView::DictEntry(key, entry), ValueView::Dict(entries)) => {
            lemma_entries_round_trip(*entry, entries, 0, buf, start, depth + 1);
            assert(entries.skip(0) =~= entries);
        },
        (_, ValueView::Array(items)) => {
            lemma_items_round_trip(element, items, 0, buf, start, depth + 1);
            assert(items.skip(0) =~= items);
        },
        _ => {},
    }
}

proof fn lemma_items_round_trip(
    element: TypeView,
    items: Seq<ValueView>,
    i: int,
    buf: Seq<u8>,
    at: nat,
    depth: nat,
)
    requires
        0 <= i <= items.len(),
        sound_type(element),
        marshal_items(element, items, i, at, depth) is Ok,
        carries(buf, at, marshal_items(element, items, i, at, depth)->Ok_0),
    ensures
        unmarshal_items(
            element,
            buf,
            at,
            at + marshal_items(element, items, i, at, depth)->Ok_0.len(),
            depth,
        ) == Ok::<(Seq<ValueView>, nat), WireErrorView>(
            (items.skip(i), at + marshal_items(element, items, i, at, depth)->Ok_0.len()),
        ),
    decreases items, items.len() - i,
{
    let all = marshal_items(element, items, i, at, depth)->Ok_0;
    if i < items.len() {
        let first = marshal_value(element, items[i], at, depth)->Ok_0;
        let rest = marshal_items(element, items, i + 1, at + first.len(), depth)->Ok_0;
        lemma_carries_parts(buf, at, first, rest);
        lemma_value_round_trip(element, items[i], buf, at, depth);
        lemma_items_round_trip(element, items, i + 1, buf, at + first.len(), depth);
        assert(items.skip(i) =~= seq![items[i]] + items.skip(i + 1));
    } else {
        assert(items.skip(i) =~= Seq::empty());
    }
}

proof fn lemma_fields_round_trip(
    types: Seq<TypeView>,
    fields: Seq<ValueView>,
    i: int,
    buf: Seq<u8>,
    at: nat,
    depth: nat,
)
    requires
        0 <= i <= fields.len(),
        types.len() == fields.len(),
        sound_types(types),
        marshal_fields(types, fields, i, at, depth) is Ok,
        carries(buf, at, marshal_fields(types, fields, i, at, depth)->Ok_0),
    ensures
        unmarshal_fields(types, i, buf, at, depth) == Ok::<(Seq<ValueView>, nat), WireErrorView>(
            (fields.skip(i), at + marshal_fields(types, fields, i, at, depth)->Ok_0.len()),
        ),
        i < fields.len() ==> marshal_fields(types, fields, i, at, depth)->Ok_0.len() > 0,
    decreases fields, fields.len() - i,
{
    if i < fields.len() {
        let first = marshal_value(types[i], fields[i], at, depth)->Ok_0;
        let rest = marshal_fields(types, fields, i + 1, at + first.len(), depth)->Ok_0;
        lemma_carries_parts(buf, at, first, rest);
        lemma_value_round_trip(types[i], fields[i], buf, at, depth);
        lemma_fields_round_trip(types, fields, i + 1, buf, at + first.len(), depth);
        assert(fields.skip(i) =~= seq![fields[i]] + fields.skip(i + 1));
    } else {
        assert(fields.skip(i) =~= Seq::empty());
    }
}

proof fn lemma_entries_round_trip(
    entry: TypeView,
    entries: Seq<(Seq<char>, ValueView)>,
    i: int,
    buf: Seq<u8>,
    at: nat,
    depth: nat,
)
    requires
        0 <= i <= entries.len(),
        sound_type(entry),
        marshal_entries(entry, entries, i, at, depth) is Ok,
        carries(buf, at, marshal_entries(entry, entries, i, at, depth)->Ok_0),
    ensures
        unmarshal_entries(
            entry,
            buf,
            at,
            at + marshal_entries(entry, entries, i, at, depth)->Ok_0.len(),
            depth,
        ) == Ok::<(Seq<(Seq<char>, ValueView)>, nat), WireErrorView>(
            (entries.skip(i), at + marshal_entries(entry, entries, i, at, depth)->Ok_0.len()),
        ),
    decreases entries, entries.len() - i,
{
    if i < entries.len() {
        let gap = padding(at, 8);
        let key = marshal_text(entries[i].0)->Ok_0;
        let mid = at + gap + key.len();
        let bytes = marshal_value(entry, entries[i].1, mid, depth)->Ok_0;
        let rest = marshal_entries(entry, entries, i + 1, mid + bytes.len(), depth)->Ok_0;
        lemma_carries_parts(buf, at, zeros(gap) + key + bytes, rest);
        lemma_carries_parts(buf, at, zeros(gap) + key, bytes);
        lemma_carries_parts(buf, at, zeros(gap), key);
        lemma_skip_zeros(buf, at, 8);
        lemma_read_string_back(buf, at + gap, entries[i].0);
        lemma_value_round_trip(entry, entries[i].1, buf, mid, depth);
        lemma_entries_round_trip(entry, entries, i + 1, buf, mid + bytes.len(), depth);
        assert(entries.skip(i) =~= seq![(entries[i].0, entries[i].1)] + entries.skip(i + 1));
    } else {
        assert(entries.skip(i) =~= Seq::empty());
    }
}

/// Every type round-trips: what was marshalled against a signature is
/// unmarshalled against it to the values it was made from.
pub proof fn unmarshal_gives_back_what_marshal_wrote(sig: Seq<char>, values: Seq<ValueView>)
    requires
        marshal(sig, values) is Ok,
    ensures
        unmarshal(sig, marshal(sig, values)->Ok_0) == Ok::<Seq<ValueView>, WireErrorView>(values),
{
    let types = signature_types(sig)->0;
    let bytes = marshal(sig, values)->Ok_0;
    lemma_read_types(sig, 0);
    assert(bytes.subrange(0, bytes.len() as int) =~= bytes);
    lemma_fields_round_trip(types, values, 0, bytes, 0, 0);
    assert(values.skip(0) =~= values);
}

} // verus!
