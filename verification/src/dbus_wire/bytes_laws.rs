//! Every byte of a block that is accepted is determined by the values it
//! stands for.

use vstd::prelude::*;
use vstd::utf8::*;

use crate::dbus_wire::decode::{
    read_bytes, read_number, read_signature, read_string, read_text, skip_padding, unmarshal,
    unmarshal_aligned, unmarshal_array, unmarshal_elements, unmarshal_entries, unmarshal_fields,
    unmarshal_items, unmarshal_value,
};
use crate::dbus_wire::encode::{
    fields_signature, marshal, marshal_aligned, marshal_array, marshal_elements, marshal_entries,
    marshal_fields, marshal_items, marshal_signature, marshal_text, marshal_value, value_signature,
};
use crate::dbus_wire::number::{
    capacity, le, lemma_capacities, lemma_le_value, padding, signed, unsigned, zeros,
};
use crate::dbus_wire::signature::{
    char_at, lemma_read_fields, lemma_read_type, read_fields, read_type, read_types,
    signature_types,
};
use crate::dbus_wire::value::{
    alignment_of, basic_type, code_of, TypeView, ValueView, WireErrorView, MAX_DEPTH,
};
use crate::text::utf8;

verus! {

/// The text a type is written as.
pub open spec fn type_text(t: TypeView) -> Seq<char>
    decreases t, 0nat,
{
    match t {
        TypeView::Array(element) => seq!['a'] + type_text(*element),
        TypeView::Struct(fields) => seq!['('] + texts_from(fields, 0) + seq![')'],
        TypeView::DictEntry(key, value) => seq!['{'] + type_text(*key) + type_text(*value)
            + seq!['}'],
        _ => seq![code_of(t)],
    }
}

/// The texts of the types from `i` on, one after the other.
pub open spec fn texts_from(types: Seq<TypeView>, i: int) -> Seq<char>
    decreases types, types.len() - i,
{
    if i < 0 || i >= types.len() {
        Seq::empty()
    } else {
        type_text(types[i]) + texts_from(types, i + 1)
    }
}

/// A type is read of the text it is written as, and of no other.
proof fn lemma_type_text(s: Seq<char>, at: int, arrays: nat, structs: nat)
    ensures
        read_type(s, at, arrays, structs) matches Some((t, end)) ==> s.subrange(at, end)
            == type_text(t),
    decreases s.len() - at, 0nat,
{
    lemma_read_type(s, at, arrays, structs);
    if let Some((t, end)) = read_type(s, at, arrays, structs) {
        if s[at] == 'a' {
            if char_at(s, at + 1, '{') {
                lemma_type_text(s, at + 2, arrays + 1, structs + 1);
                lemma_read_type(s, at + 2, arrays + 1, structs + 1);
                let (key, mid) = read_type(s, at + 2, arrays + 1, structs + 1)->0;
                lemma_type_text(s, mid, arrays + 1, structs + 1);
                lemma_read_type(s, mid, arrays + 1, structs + 1);
                let (value, stop) = read_type(s, mid, arrays + 1, structs + 1)->0;
                let entry = TypeView::DictEntry(Box::new(key), Box::new(value));
                assert(type_text(entry) == seq!['{'] + type_text(key) + type_text(value)
                    + seq!['}']);
                assert(s.subrange(at, end) =~= seq!['a'] + (seq!['{'] + s.subrange(at + 2, mid)
                    + s.subrange(mid, stop) + seq!['}']));
            } else {
                lemma_type_text(s, at + 1, arrays + 1, structs);
                lemma_read_type(s, at + 1, arrays + 1, structs);
                assert(s.subrange(at, end) =~= seq!['a'] + s.subrange(at + 1, end));
            }
        } else if s[at] == '(' {
            let (fields, stop) = read_fields(s, at + 1, arrays, structs + 1)->0;
            assert(fields.skip(0) =~= fields);
            lemma_fields_text(s, at + 1, arrays, structs + 1, fields, 0);
            lemma_read_fields(s, at + 1, arrays, structs + 1);
            assert(s.subrange(at, end) =~= seq!['('] + s.subrange(at + 1, end));
            assert(seq!['('] + (texts_from(fields, 0) + seq![')']) =~= seq!['('] + texts_from(
                fields,
                0,
            ) + seq![')']);
        } else {
            assert(s.subrange(at, end) =~= seq![s[at]]);
        }
    }
}

proof fn lemma_fields_text(
    s: Seq<char>,
    at: int,
    arrays: nat,
    structs: nat,
    fields: Seq<TypeView>,
    i: int,
)
    requires
        0 <= i <= fields.len(),
    ensures
        read_fields(s, at, arrays, structs) matches Some((ts, end)) ==> ts == fields.skip(i)
            ==> s.subrange(at, end) == texts_from(fields, i) + seq![')'],
    decreases s.len() - at, 1nat,
{
    lemma_read_fields(s, at, arrays, structs);
    if let Some((ts, end)) = read_fields(s, at, arrays, structs) {
        if ts == fields.skip(i) {
            if s[at] == ')' {
                assert(fields.skip(i).len() == 0);
                assert(s.subrange(at, end) =~= texts_from(fields, i) + seq![')']);
            } else {
                lemma_read_type(s, at, arrays, structs);
                lemma_type_text(s, at, arrays, structs);
                let (first, mid) = read_type(s, at, arrays, structs)->0;
                let (rest, stop) = read_fields(s, mid, arrays, structs)->0;
                assert(fields.skip(i)[0] == first);
                assert(rest =~= fields.skip(i + 1)) by {
                    assert(ts.skip(1) =~= rest);
                    assert(fields.skip(i).skip(1) =~= fields.skip(i + 1));
                }
                lemma_fields_text(s, mid, arrays, structs, fields, i + 1);
                lemma_read_fields(s, mid, arrays, structs);
                assert(s.subrange(at, end) =~= s.subrange(at, mid) + s.subrange(mid, end));
                assert(type_text(first) + (texts_from(fields, i + 1) + seq![')']) =~= (type_text(
                    first,
                ) + texts_from(fields, i + 1)) + seq![')']);
            }
        }
    }
}

/// A signature of one type is the text of that type.
proof fn lemma_signature_text(sig: Seq<char>)
    requires
        signature_types(sig) is Some,
        signature_types(sig)->0.len() == 1,
    ensures
        sig == type_text(signature_types(sig)->0[0]),
{
    lemma_read_type(sig, 0, 0, 0);
    lemma_type_text(sig, 0, 0, 0);
    let (first, mid) = read_type(sig, 0, 0, 0)->0;
    let rest = read_types(sig, mid)->0;
    assert((seq![first] + rest).len() == 1);
    if mid < sig.len() {
        assert(rest.len() > 0);
    }
    assert(sig.subrange(0, mid) =~= sig);
}

/// The signature of a value that was read against a type is the text of that
/// type, where the value has one.
proof fn lemma_value_text(ty: TypeView, buf: Seq<u8>, at: nat, depth: nat, k: nat)
    ensures
        unmarshal_value(ty, buf, at, depth) matches Ok((v, _)) ==> (value_signature(v, k)
            matches Ok(sig) ==> sig == type_text(ty)),
    decreases MAX_DEPTH + 1 - depth, 4nat, 0int,
{
    if let Ok((v, _)) = unmarshal_value(ty, buf, at, depth) {
        if value_signature(v, k) is Ok {
            let start = skip_padding(buf, at, alignment_of(ty))->Ok_0;
            match ty {
                TypeView::Array(element) => {
                    lemma_array_text(*element, buf, start, depth, k);
                },
                TypeView::Struct(types) => {
                    let (values, _) = unmarshal_fields(types, 0, buf, start, depth + 1)->Ok_0;
                    assert(values.skip(0) =~= values);
                    lemma_value_fields_text(types, 0, buf, start, depth + 1, values, k + 1);
                },
                _ => {},
            }
        }
    }
}

proof fn lemma_array_text(element: TypeView, buf: Seq<u8>, at: nat, depth: nat, k: nat)
    ensures
        unmarshal_array(element, buf, at, depth) matches Ok((v, _)) ==> (value_signature(v, k)
            matches Ok(sig) ==> sig == seq!['a'] + type_text(element)),
    decreases MAX_DEPTH + 1 - depth, 2nat, 0int,
{
    if let Ok((v, _)) = unmarshal_array(element, buf, at, depth) {
        let (length, padded) = read_number(buf, at, 4)->Ok_0;
        let start = skip_padding(buf, padded, alignment_of(element))->Ok_0;
        lemma_elements_text(element, buf, start, start + length, depth, k);
    }
}

proof fn lemma_elements_text(
    element: TypeView,
    buf: Seq<u8>,
    start: nat,
    end: nat,
    depth: nat,
    k: nat,
)
    ensures
        unmarshal_elements(element, buf, start, end, depth) matches Ok((v, _)) ==> (
        value_signature(v, k) matches Ok(sig) ==> sig == seq!['a'] + type_text(element)),
    decreases MAX_DEPTH + 1 - depth, 1nat, 0int,
{
    if depth < MAX_DEPTH {
        match element {
            TypeView::Byte => {
                assert(seq!['a', 'y'] =~= seq!['a'] + type_text(element));
            },
            TypeView::DictEntry(key, entry) => {
                if *key == TypeView::Str {
                    lemma_entries_text(*entry, buf, start, end, depth + 1, k + 1);
                    lemma_dict_text(*key, *entry);
                    if let Ok((entries, _)) = unmarshal_entries(*entry, buf, start, end, depth + 1) {
                        lemma_dict_signature(entries, k);
                    }
                }
            },
            _ => {
                lemma_items_text(element, buf, start, end, depth + 1, k + 1);
                if let Ok((items, _)) = unmarshal_items(element, buf, start, end, depth + 1) {
                    lemma_items_signature(items, k);
                }
            },
        }
    }
}

proof fn lemma_dict_text(key: TypeView, entry: TypeView)
    requires
        key == TypeView::Str,
    ensures
        seq!['a', '{', 's'] + type_text(entry) + seq!['}'] == seq!['a'] + type_text(
            TypeView::DictEntry(Box::new(key), Box::new(entry)),
        ),
{
    let inner = type_text(entry);
    assert(type_text(key) == seq!['s']);
    assert(seq!['a', '{', 's'] + inner + seq!['}'] =~= seq!['a'] + (seq!['{'] + seq!['s'] + inner
        + seq!['}']));
}

proof fn lemma_dict_signature(entries: Seq<(Seq<char>, ValueView)>, k: nat)
    ensures
        value_signature(ValueView::Dict(entries), k) matches Ok(sig) ==> entries.len() > 0 && (
        value_signature(entries[0].1, k + 1) matches Ok(inner) && sig == seq!['a', '{', 's'] + inner
            + seq!['}']),
{
}

proof fn lemma_items_signature(items: Seq<ValueView>, k: nat)
    ensures
        value_signature(ValueView::Array(items), k) matches Ok(sig) ==> items.len() > 0 && (
        value_signature(items[0], k + 1) matches Ok(inner) && sig == seq!['a'] + inner),
{
}

proof fn lemma_entries_text(
    entry: TypeView,
    buf: Seq<u8>,
    start: nat,
    end: nat,
    depth: nat,
    k: nat,
)
    ensures
        unmarshal_entries(entry, buf, start, end, depth) matches Ok((entries, _)) ==> entries.len()
            > 0 ==> (value_signature(entries[0].1, k) matches Ok(sig) ==> sig == type_text(entry)),
    decreases MAX_DEPTH + 1 - depth, 5nat, 0int,
{
    if let Ok((entries, _)) = unmarshal_entries(entry, buf, start, end, depth) {
        if start < end {
            let from = skip_padding(buf, start, 8)->Ok_0;
            let (key, mid) = read_string(buf, from)->Ok_0;
            let (first, next) = unmarshal_value(entry, buf, mid, depth)->Ok_0;
            assert(entries[0] == (key, first));
            lemma_value_text(entry, buf, mid, depth, k);
        }
    }
}

proof fn lemma_items_text(
    element: TypeView,
    buf: Seq<u8>,
    start: nat,
    end: nat,
    depth: nat,
    k: nat,
)
    ensures
        unmarshal_items(element, buf, start, end, depth) matches Ok((items, _)) ==> items.len() > 0
            ==> (value_signature(items[0], k) matches Ok(sig) ==> sig == type_text(element)),
    decreases MAX_DEPTH + 1 - depth, 5nat, 0int,
{
    if let Ok((items, _)) = unmarshal_items(element, buf, start, end, depth) {
        if start < end {
            let (first, next) = unmarshal_value(element, buf, start, depth)->Ok_0;
            assert(items[0] == first);
            lemma_value_text(element, buf, start, depth, k);
        }
    }
}

proof fn lemma_value_fields_text(
    types: Seq<TypeView>,
    i: int,
    buf: Seq<u8>,
    at: nat,
    depth: nat,
    values: Seq<ValueView>,
    k: nat,
)
    requires
        0 <= i <= types.len(),
        0 <= i <= values.len(),
        unmarshal_fields(types, i, buf, at, depth) matches Ok((vs, _)) && vs == values.skip(i),
    ensures
        fields_signature(values, i, k) matches Ok(sig) ==> sig == texts_from(types, i),
    decreases MAX_DEPTH + 1 - depth, 5nat, types.len() - i,
{
    let (vs, _) = unmarshal_fields(types, i, buf, at, depth)->Ok_0;
    if i < types.len() {
        let (first, next) = unmarshal_value(types[i], buf, at, depth)->Ok_0;
        let (rest, _) = unmarshal_fields(types, i + 1, buf, next, depth)->Ok_0;
        lemma_first_of(values, i, first, rest);
        lemma_value_text(types[i], buf, at, depth, k);
        lemma_value_fields_text(types, i + 1, buf, next, depth, values, k);
    } else {
        assert(values.skip(i).len() == 0);
    }
}

/// The first of some items from `i` on, and the others.
proof fn lemma_first_of<T>(all: Seq<T>, i: int, first: T, rest: Seq<T>)
    requires
        0 <= i <= all.len(),
        all.skip(i) == seq![first] + rest,
    ensures
        i < all.len(),
        all[i] == first,
        rest == all.skip(i + 1),
{
    let these = all.skip(i);
    assert(these.len() == 1 + rest.len());
    assert(these[0] == first);
    assert(rest =~= all.skip(i + 1)) by {
        assert forall|j: int| 0 <= j < rest.len() implies rest[j] == all.skip(i + 1)[j] by {
            assert(these[j + 1] == rest[j]);
        }
    }
}

/// The bytes from one place to another.
pub open spec fn between(buf: Seq<u8>, at: nat, end: nat) -> Seq<u8> {
    buf.subrange(at as int, end as int)
}

proof fn lemma_between(buf: Seq<u8>, at: nat, mid: nat, end: nat)
    requires
        at <= mid <= end <= buf.len(),
    ensures
        between(buf, at, mid) + between(buf, mid, end) == between(buf, at, end),
{
    assert(between(buf, at, mid) + between(buf, mid, end) =~= between(buf, at, end));
}

/// Padding that is stepped over is nul.
proof fn lemma_padding_bytes(buf: Seq<u8>, at: nat, align: nat)
    ensures
        skip_padding(buf, at, align) matches Ok(end) ==> end == at + padding(at, align) && end
            <= buf.len() && zeros(padding(at, align)) == between(buf, at, end),
{
    if let Ok(end) = skip_padding(buf, at, align) {
        assert(zeros(padding(at, align)) =~= between(buf, at, end));
    }
}

/// The bytes of a number that was read.
proof fn lemma_number_bytes(buf: Seq<u8>, at: nat, width: nat)
    ensures
        read_number(buf, at, width) matches Ok((n, next)) ==> next == at + width && next
            <= buf.len() && n < capacity(width) && le(n, width) == between(buf, at, next),
{
    if let Ok((bytes, next)) = read_bytes(buf, at, width) {
        lemma_le_value(bytes);
    }
}

proof fn lemma_text_bytes(buf: Seq<u8>, at: nat, len: nat)
    ensures
        read_text(buf, at, len) matches Ok((text, next)) ==> next == at + len + 1 && next
            <= buf.len() && utf8(text).len() == len && utf8(text) + seq![0u8] == between(
            buf,
            at,
            next,
        ) && !utf8(text).contains(0),
{
    if let Ok((text, next)) = read_text(buf, at, len) {
        let bytes = between(buf, at, at + len);
        decode_utf8_encode_utf8(bytes);
        assert(utf8(text) == bytes);
        assert(bytes + seq![0u8] =~= between(buf, at, next));
    }
}

proof fn lemma_string_bytes(buf: Seq<u8>, at: nat)
    ensures
        read_string(buf, at) matches Ok((text, next)) ==> at < next <= buf.len() && marshal_text(
            text,
        ) == Ok::<Seq<u8>, WireErrorView>(between(buf, at, next)),
{
    if let Ok((text, next)) = read_string(buf, at) {
        lemma_capacities();
        lemma_number_bytes(buf, at, 4);
        let (len, mid) = read_number(buf, at, 4)->Ok_0;
        lemma_text_bytes(buf, mid, len);
        assert(le(len, 4) + utf8(text) + seq![0u8] =~= le(len, 4) + (utf8(text) + seq![0u8]));
        lemma_between(buf, at, mid, next);
    }
}

proof fn lemma_signature_bytes(buf: Seq<u8>, at: nat)
    ensures
        read_signature(buf, at) matches Ok((sig, next)) ==> at < next <= buf.len()
            && marshal_signature(sig) == between(buf, at, next),
{
    if let Ok((sig, next)) = read_signature(buf, at) {
        lemma_capacities();
        lemma_number_bytes(buf, at, 1);
        let (len, mid) = read_number(buf, at, 1)->Ok_0;
        lemma_text_bytes(buf, mid, len);
        reveal_with_fuel(le, 2);
        assert(le(len, 1) =~= seq![len as u8]);
        assert(marshal_signature(sig) =~= le(len, 1) + (utf8(sig) + seq![0u8]));
        lemma_between(buf, at, mid, next);
    }
}

/// The bytes of a value of a basic type.
proof fn lemma_scalar_bytes(ty: TypeView, buf: Seq<u8>, at: nat, depth: nat)
    requires
        basic_type(ty),
    ensures
        unmarshal_aligned(ty, buf, at, depth) matches Ok((v, end)) ==> at <= end <= buf.len()
            && marshal_aligned(ty, v, at, depth) == Ok::<Seq<u8>, WireErrorView>(
            between(buf, at, end),
        ),
{
    lemma_capacities();
    lemma_number_bytes(buf, at, 1);
    lemma_number_bytes(buf, at, 2);
    lemma_number_bytes(buf, at, 4);
    lemma_number_bytes(buf, at, 8);
    lemma_string_bytes(buf, at);
    lemma_signature_bytes(buf, at);
    if let Ok((v, end)) = unmarshal_aligned(ty, buf, at, depth) {
        match ty {
            TypeView::Byte => {
                reveal_with_fuel(le, 2);
                let n = read_number(buf, at, 1)->Ok_0.0;
                assert(le(n, 1) =~= seq![n as u8]);
            },
            TypeView::Int16 => {
                let n = read_number(buf, at, 2)->Ok_0.0;
                assert(unsigned((signed(n, 0x10000) as i16) as int, 0x10000) == n);
            },
            TypeView::Int32 => {
                let n = read_number(buf, at, 4)->Ok_0.0;
                assert(unsigned((signed(n, 0x1_0000_0000) as i32) as int, 0x1_0000_0000) == n);
            },
            TypeView::Int64 => {
                let n = read_number(buf, at, 8)->Ok_0.0;
                assert(unsigned(
                    (signed(n, 0x1_0000_0000_0000_0000) as i64) as int,
                    0x1_0000_0000_0000_0000,
                ) == n);
            },
            _ => {},
        }
    }
}

/// What is written of a value is what it was read from.
proof fn lemma_value_bytes(ty: TypeView, buf: Seq<u8>, at: nat, depth: nat)
    ensures
        unmarshal_value(ty, buf, at, depth) matches Ok((v, end)) ==> at <= end <= buf.len() && (
        marshal_value(ty, v, at, depth) matches Ok(bytes) ==> bytes == between(buf, at, end)),
    decreases MAX_DEPTH + 1 - depth, 4nat, 0int,
{
    if let Ok((v, end)) = unmarshal_value(ty, buf, at, depth) {
        lemma_padding_bytes(buf, at, alignment_of(ty));
        let start = skip_padding(buf, at, alignment_of(ty))->Ok_0;
        lemma_aligned_bytes(ty, buf, start, depth);
        lemma_between(buf, at, start, end);
    }
}

proof fn lemma_aligned_bytes(ty: TypeView, buf: Seq<u8>, at: nat, depth: nat)
    requires
        depth <= MAX_DEPTH,
        at <= buf.len(),
    ensures
        unmarshal_aligned(ty, buf, at, depth) matches Ok((v, end)) ==> at <= end <= buf.len() && (
        marshal_aligned(ty, v, at, depth) matches Ok(bytes) ==> bytes == between(buf, at, end)),
    decreases MAX_DEPTH + 1 - depth, 3nat, 0int,
{
    if let Ok((v, end)) = unmarshal_aligned(ty, buf, at, depth) {
        match ty {
            TypeView::Array(element) => {
                lemma_array_bytes(*element, buf, at, depth);
            },
            TypeView::Struct(types) => {
                let (values, _) = unmarshal_fields(types, 0, buf, at, depth + 1)->Ok_0;
                assert(values.skip(0) =~= values);
                lemma_fields_bytes(types, 0, buf, at, depth + 1, values);
            },
            TypeView::Variant => {
                lemma_variant_bytes(buf, at, depth);
            },
            TypeView::DictEntry(_, _) => {},
            _ => {
                lemma_scalar_bytes(ty, buf, at, depth);
            },
        }
    }
}

proof fn lemma_variant_bytes(buf: Seq<u8>, at: nat, depth: nat)
    requires
        depth <= MAX_DEPTH,
        at <= buf.len(),
    ensures
        unmarshal_aligned(TypeView::Variant, buf, at, depth) matches Ok((v, end)) ==> at <= end
            <= buf.len() && (marshal_aligned(TypeView::Variant, v, at, depth) matches Ok(bytes)
            ==> bytes == between(buf, at, end)),
    decreases MAX_DEPTH + 1 - depth, 2nat, 0int,
{
    if let Ok((v, end)) = unmarshal_aligned(TypeView::Variant, buf, at, depth) {
        lemma_signature_bytes(buf, at);
        let (sig, next) = read_signature(buf, at)->Ok_0;
        let ty = signature_types(sig)->0[0];
        let (inner, _) = unmarshal_value(ty, buf, next, depth + 1)->Ok_0;
        assert(v == ValueView::Variant(Box::new(inner)));
        lemma_value_bytes(ty, buf, next, depth + 1);
        if marshal_aligned(TypeView::Variant, v, at, depth) is Ok {
            lemma_signature_text(sig);
            lemma_value_text(ty, buf, next, depth + 1, 0);
            assert(value_signature(inner, 0) == Ok::<Seq<char>, WireErrorView>(sig));
            lemma_between(buf, at, next, end);
        }
    }
}

proof fn lemma_array_bytes(element: TypeView, buf: Seq<u8>, at: nat, depth: nat)
    ensures
        unmarshal_array(element, buf, at, depth) matches Ok((v, end)) ==> at <= end <= buf.len()
            && (marshal_array(element, v, at, depth) matches Ok(bytes) ==> bytes == between(
            buf,
            at,
            end,
        )),
    decreases MAX_DEPTH + 1 - depth, 2nat, 0int,
{
    if let Ok((v, stop)) = unmarshal_array(element, buf, at, depth) {
        lemma_number_bytes(buf, at, 4);
        let (length, padded) = read_number(buf, at, 4)->Ok_0;
        lemma_padding_bytes(buf, padded, alignment_of(element));
        let start = skip_padding(buf, padded, alignment_of(element))->Ok_0;
        let end = start + length;
        lemma_elements_bytes(element, buf, start, end, depth);
        if marshal_array(element, v, at, depth) is Ok {
            let bytes = marshal_elements(element, v, start, depth)->Ok_0;
            assert(bytes == between(buf, start, end));
            assert(bytes.len() == length);
            lemma_between(buf, at, padded, start);
            lemma_between(buf, at, start, end);
        }
    }
}

proof fn lemma_elements_bytes(element: TypeView, buf: Seq<u8>, start: nat, end: nat, depth: nat)
    requires
        start <= end <= buf.len(),
    ensures
        unmarshal_elements(element, buf, start, end, depth) matches Ok((v, stop)) ==> stop == end
            && (marshal_elements(element, v, start, depth) matches Ok(bytes) ==> bytes == between(
            buf,
            start,
            end,
        )),
    decreases MAX_DEPTH + 1 - depth, 1nat, 0int,
{
    if let Ok((v, stop)) = unmarshal_elements(element, buf, start, end, depth) {
        match element {
            TypeView::Byte => {},
            TypeView::DictEntry(key, entry) => {
                let (entries, _) = unmarshal_entries(*entry, buf, start, end, depth + 1)->Ok_0;
                assert(entries.skip(0) =~= entries);
                lemma_entries_bytes(*entry, buf, start, end, depth + 1, entries, 0);
            },
            _ => {
                let (items, _) = unmarshal_items(element, buf, start, end, depth + 1)->Ok_0;
                assert(items.skip(0) =~= items);
                lemma_items_bytes(element, buf, start, end, depth + 1, items, 0);
            },
        }
    }
}

proof fn lemma_items_bytes(
    element: TypeView,
    buf: Seq<u8>,
    at: nat,
    end: nat,
    depth: nat,
    items: Seq<ValueView>,
    i: int,
)
    requires
        at <= end <= buf.len(),
        0 <= i <= items.len(),
        unmarshal_items(element, buf, at, end, depth) matches Ok((vs, _)) && vs == items.skip(i),
    ensures
        unmarshal_items(element, buf, at, end, depth)->Ok_0.1 == end,
        marshal_items(element, items, i, at, depth) matches Ok(bytes) ==> bytes == between(
            buf,
            at,
            end,
        ),
    decreases MAX_DEPTH + 1 - depth, 5nat, end - at,
{
    let (vs, stop) = unmarshal_items(element, buf, at, end, depth)->Ok_0;
    if at < end {
        let (first, next) = unmarshal_value(element, buf, at, depth)->Ok_0;
        let (rest, _) = unmarshal_items(element, buf, next, end, depth)->Ok_0;
        lemma_first_of(items, i, first, rest);
        lemma_value_bytes(element, buf, at, depth);
        lemma_items_bytes(element, buf, next, end, depth, items, i + 1);
        lemma_between(buf, at, next, end);
    } else {
        assert(items.skip(i).len() == 0);
        assert(between(buf, at, end) =~= Seq::empty());
    }
}

/// The bytes of one dict entry.
proof fn lemma_entry_bytes(
    entry: TypeView,
    buf: Seq<u8>,
    at: nat,
    depth: nat,
    start: nat,
    key: Seq<char>,
    mid: nat,
    value: ValueView,
    next: nat,
)
    requires
        skip_padding(buf, at, 8) == Ok::<nat, WireErrorView>(start),
        read_string(buf, start) == Ok::<(Seq<char>, nat), WireErrorView>((key, mid)),
        mid <= next <= buf.len(),
        marshal_value(entry, value, mid, depth) matches Ok(bytes) ==> bytes == between(
            buf,
            mid,
            next,
        ),
    ensures
        marshal_text(key) is Ok,
        at + padding(at, 8) + marshal_text(key)->Ok_0.len() == mid,
        at < mid,
        marshal_value(entry, value, mid, depth) matches Ok(bytes) ==> zeros(padding(at, 8))
            + marshal_text(key)->Ok_0 + bytes == between(buf, at, next),
{
    lemma_padding_bytes(buf, at, 8);
    lemma_string_bytes(buf, start);
    lemma_between(buf, at, start, mid);
    lemma_between(buf, at, mid, next);
}

proof fn lemma_entries_bytes(
    entry: TypeView,
    buf: Seq<u8>,
    at: nat,
    end: nat,
    depth: nat,
    entries: Seq<(Seq<char>, ValueView)>,
    i: int,
)
    requires
        at <= end <= buf.len(),
        0 <= i <= entries.len(),
        unmarshal_entries(entry, buf, at, end, depth) matches Ok((vs, _)) && vs == entries.skip(i),
    ensures
        unmarshal_entries(entry, buf, at, end, depth)->Ok_0.1 == end,
        marshal_entries(entry, entries, i, at, depth) matches Ok(bytes) ==> bytes == between(
            buf,
            at,
            end,
        ),
    decreases MAX_DEPTH + 1 - depth, 5nat, end - at,
{
    let (vs, stop) = unmarshal_entries(entry, buf, at, end, depth)->Ok_0;
    if at < end {
        let start = skip_padding(buf, at, 8)->Ok_0;
        let (key, mid) = read_string(buf, start)->Ok_0;
        let (value, next) = unmarshal_value(entry, buf, mid, depth)->Ok_0;
        let (rest, _) = unmarshal_entries(entry, buf, next, end, depth)->Ok_0;
        lemma_first_of(entries, i, (key, value), rest);
        lemma_value_bytes(entry, buf, mid, depth);
        lemma_entry_bytes(entry, buf, at, depth, start, key, mid, value, next);
        lemma_entries_bytes(entry, buf, next, end, depth, entries, i + 1);
        lemma_between(buf, at, next, end);
    } else {
        assert(entries.skip(i).len() == 0);
        assert(between(buf, at, end) =~= Seq::empty());
    }
}

proof fn lemma_fields_bytes(
    types: Seq<TypeView>,
    i: int,
    buf: Seq<u8>,
    at: nat,
    depth: nat,
    values: Seq<ValueView>,
)
    requires
        at <= buf.len(),
        0 <= i <= types.len(),
        0 <= i <= values.len(),
        unmarshal_fields(types, i, buf, at, depth) matches Ok((vs, _)) && vs == values.skip(i),
    ensures
        at <= unmarshal_fields(types, i, buf, at, depth)->Ok_0.1 <= buf.len(),
        marshal_fields(types, values, i, at, depth) matches Ok(bytes) ==> bytes == between(
            buf,
            at,
            unmarshal_fields(types, i, buf, at, depth)->Ok_0.1,
        ),
    decreases MAX_DEPTH + 1 - depth, 5nat, types.len() - i,
{
    let (vs, end) = unmarshal_fields(types, i, buf, at, depth)->Ok_0;
    if i < types.len() {
        let (first, next) = unmarshal_value(types[i], buf, at, depth)->Ok_0;
        let (rest, _) = unmarshal_fields(types, i + 1, buf, next, depth)->Ok_0;
        lemma_first_of(values, i, first, rest);
        lemma_value_bytes(types[i], buf, at, depth);
        lemma_fields_bytes(types, i + 1, buf, next, depth, values);
        lemma_between(buf, at, next, end);
    } else {
        assert(values.skip(i).len() == 0);
        assert(between(buf, at, end) =~= Seq::empty());
    }
}

/// Every byte of an accepted body, padding among them, is determined by the
/// values it stands for: what is marshalled of them is the body again. Left
/// out are values that cannot be marshalled, as with an empty array inside a
/// variant, whose type no value tells.
pub proof fn marshal_gives_back_what_unmarshal_read(sig: Seq<char>, body: Seq<u8>)
    requires
        unmarshal(sig, body) is Ok,
        marshal(sig, unmarshal(sig, body)->Ok_0) is Ok,
    ensures
        marshal(sig, unmarshal(sig, body)->Ok_0)->Ok_0 == body,
{
    let types = signature_types(sig)->0;
    let values = unmarshal(sig, body)->Ok_0;
    assert(values.skip(0) =~= values);
    lemma_fields_bytes(types, 0, body, 0, 0, values);
    assert(between(body, 0, body.len()) =~= body);
}

} // verus!
