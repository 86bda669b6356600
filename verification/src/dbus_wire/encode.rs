//! Marshalling: the bytes of a list of values.

use vstd::prelude::*;

use crate::dbus_wire::number::{
    lemma_le_len, le, pad, padding, patch_le4, push_le, unsigned, zeros,
};
use crate::dbus_wire::signature::{parse_signature, signature_types};
use crate::dbus_wire::value::{
    alignment_of, code_of, entry_views, kind_name, lemma_type_view_containers,
    lemma_value_view_containers, type_views, value_views, Type, TypeView, Value, ValueView,
    WireError, WireErrorView, MAX_ARRAY, MAX_DEPTH, MAX_SIGNATURE,
};
use crate::text::{push_bytes, utf8};

verus! {

/// Bytes, or the reason there are none.
pub type Marshalled = Result<Seq<u8>, WireErrorView>;

/// What is written before `r`, and `r`.
pub open spec fn after(head: Seq<u8>, r: Marshalled) -> Marshalled {
    match r {
        Ok(tail) => Ok(head + tail),
        Err(e) => Err(e),
    }
}

/// Whether `c` is an ASCII letter, an ASCII digit or an underscore.
pub open spec fn word_char(c: char) -> bool {
    ('A' <= c && c <= 'Z') || ('a' <= c && c <= 'z') || ('0' <= c && c <= '9') || c == '_'
}

/// "Valid Object Paths": the path begins with `/`, its elements hold only
/// `[A-Za-z0-9_]`, none is empty, and only the root path ends in `/`.
pub open spec fn object_path(path: Seq<char>) -> bool {
    path == seq!['/'] || {
        &&& path.len() > 1
        &&& path[0] == '/'
        &&& path.last() != '/'
        &&& forall|i: int|
            0 <= i < path.len() ==> #[trigger] path[i] == '/' || word_char(path[i])
        &&& forall|i: int|
            0 <= i && i + 1 < path.len() ==> !(#[trigger] path[i] == '/' && path[i + 1] == '/')
    }
}

/// A `s` or `o` string: a UINT32 length, the text, a trailing nul.
pub open spec fn marshal_text(text: Seq<char>) -> Marshalled {
    let bytes = utf8(text);
    if bytes.contains(0) {
        Err(WireErrorView::BadString)
    } else if bytes.len() > u32::MAX {
        Err(WireErrorView::ArrayTooLong(bytes.len()))
    } else {
        Ok(le(bytes.len(), 4) + bytes + seq![0u8])
    }
}

/// A `g` signature: a single-byte length, the text, a trailing nul.
pub open spec fn marshal_signature(sig: Seq<char>) -> Seq<u8> {
    seq![utf8(sig).len() as u8] + utf8(sig) + seq![0u8]
}

/// The signature of a value, for the variant that has to carry one. An empty
/// array or dict has no element type to read off its contents, so one cannot
/// go in a variant.
pub open spec fn value_signature(v: ValueView, depth: nat) -> Result<Seq<char>, WireErrorView>
    decreases v, 0nat,
{
    if depth > MAX_DEPTH {
        Err(WireErrorView::Depth)
    } else {
        match v {
            ValueView::Byte(_) => Ok(seq!['y']),
            ValueView::Bool(_) => Ok(seq!['b']),
            ValueView::Int16(_) => Ok(seq!['n']),
            ValueView::Uint16(_) => Ok(seq!['q']),
            ValueView::Int32(_) => Ok(seq!['i']),
            ValueView::Uint32(_) => Ok(seq!['u']),
            ValueView::Int64(_) => Ok(seq!['x']),
            ValueView::Uint64(_) => Ok(seq!['t']),
            ValueView::Double(_) => Ok(seq!['d']),
            ValueView::Str(_) => Ok(seq!['s']),
            ValueView::ObjectPath(_) => Ok(seq!['o']),
            ValueView::Signature(_) => Ok(seq!['g']),
            ValueView::Fd(_) => Ok(seq!['h']),
            ValueView::ByteArray(_) => Ok(seq!['a', 'y']),
            ValueView::Variant(_) => Ok(seq!['v']),
            ValueView::Array(items) => if items.len() == 0 {
                Err(WireErrorView::Unsupported("an empty array inside a variant"@))
            } else {
                match value_signature(items[0], depth + 1) {
                    Ok(sig) => Ok(seq!['a'] + sig),
                    Err(e) => Err(e),
                }
            },
            ValueView::Dict(entries) => if entries.len() == 0 {
                Err(WireErrorView::Unsupported("an empty dict inside a variant"@))
            } else {
                match value_signature(entries[0].1, depth + 1) {
                    Ok(sig) => Ok(seq!['a', '{', 's'] + sig + seq!['}']),
                    Err(e) => Err(e),
                }
            },
            ValueView::Struct(fields) => match fields_signature(fields, 0, depth + 1) {
                Ok(sig) => Ok(seq!['('] + sig + seq![')']),
                Err(e) => Err(e),
            },
        }
    }
}

/// The signatures of the values from `i` on, one after the other.
pub open spec fn fields_signature(fields: Seq<ValueView>, i: int, depth: nat) -> Result<
    Seq<char>,
    WireErrorView,
>
    decreases fields, fields.len() - i,
{
    if i < 0 || i >= fields.len() {
        Ok(Seq::empty())
    } else {
        match value_signature(fields[i], depth) {
            Err(e) => Err(e),
            Ok(sig) => match fields_signature(fields, i + 1, depth) {
                Err(e) => Err(e),
                Ok(rest) => Ok(sig + rest),
            },
        }
    }
}

/// One value of type `ty` at position `at` of the message, `depth` containers
/// deep: padding to its alignment, then its bytes.
pub open spec fn marshal_value(ty: TypeView, v: ValueView, at: nat, depth: nat) -> Marshalled
    decreases v, 2nat,
{
    if depth > MAX_DEPTH {
        Err(WireErrorView::Depth)
    } else {
        let gap = padding(at, alignment_of(ty));
        after(zeros(gap), marshal_aligned(ty, v, at + gap, depth))
    }
}

/// The bytes of one value whose padding is written already.
pub open spec fn marshal_aligned(ty: TypeView, v: ValueView, at: nat, depth: nat) -> Marshalled
    decreases v, 1nat,
{
    match (ty, v) {
        (TypeView::Byte, ValueView::Byte(n)) => Ok(seq![n]),
        (TypeView::Bool, ValueView::Bool(n)) => Ok(
            le(
                if n {
                    1
                } else {
                    0
                },
                4,
            ),
        ),
        (TypeView::Int16, ValueView::Int16(n)) => Ok(le(unsigned(n as int, 0x10000), 2)),
        (TypeView::Uint16, ValueView::Uint16(n)) => Ok(le(n as nat, 2)),
        (TypeView::Int32, ValueView::Int32(n)) => Ok(le(unsigned(n as int, 0x1_0000_0000), 4)),
        (TypeView::Uint32, ValueView::Uint32(n)) => Ok(le(n as nat, 4)),
        (TypeView::Int64, ValueView::Int64(n)) => Ok(
            le(unsigned(n as int, 0x1_0000_0000_0000_0000), 8),
        ),
        (TypeView::Uint64, ValueView::Uint64(n)) => Ok(le(n as nat, 8)),
        (TypeView::Double, ValueView::Double(n)) => Ok(le(n as nat, 8)),
        (TypeView::Fd, ValueView::Fd(n)) => Ok(le(n as nat, 4)),
        (TypeView::Str, ValueView::Str(text)) => marshal_text(text),
        (TypeView::ObjectPath, ValueView::ObjectPath(text)) => if object_path(text) {
            marshal_text(text)
        } else {
            Err(WireErrorView::BadObjectPath(text))
        },
        (TypeView::Signature, ValueView::Signature(sig)) => if signature_types(sig) is Some {
            Ok(marshal_signature(sig))
        } else {
            Err(WireErrorView::BadSignature(sig))
        },
        (TypeView::Array(element), _) => marshal_array(*element, v, at, depth),
        (TypeView::Struct(fields), ValueView::Struct(given)) => if fields.len() != given.len() {
            Err(WireErrorView::Arity { expected: fields.len(), got: given.len() })
        } else {
            marshal_fields(fields, given, 0, at, depth + 1)
        },
        (TypeView::Variant, ValueView::Variant(inner)) => match value_signature(*inner, 0) {
            Err(e) => Err(e),
            Ok(sig) => match signature_types(sig) {
                None => Err(WireErrorView::BadSignature(sig)),
                Some(types) => if types.len() != 1 {
                    Err(WireErrorView::BadSignature(sig))
                } else {
                    after(
                        marshal_signature(sig),
                        marshal_value(
                            types[0],
                            *inner,
                            at + marshal_signature(sig).len(),
                            depth + 1,
                        ),
                    )
                },
            },
        },
        _ => Err(WireErrorView::TypeMismatch { expected: code_of(ty), got: kind_name(v) }),
    }
}

/// An array: a UINT32 of the element bytes, padding to the element's
/// alignment which the length does not count, then the elements. "The
/// alignment padding for the first element is required even if there is no
/// first element".
pub open spec fn marshal_array(element: TypeView, v: ValueView, at: nat, depth: nat) -> Marshalled
    decreases v, 0nat, 1nat,
{
    if depth >= MAX_DEPTH {
        Err(WireErrorView::Depth)
    } else {
        let gap = padding(at + 4, alignment_of(element));
        let start = at + 4 + gap;
        match marshal_elements(element, v, start, depth) {
            Err(e) => Err(e),
            Ok(bytes) => if bytes.len() > MAX_ARRAY {
                Err(WireErrorView::ArrayTooLong(bytes.len()))
            } else {
                Ok(le(bytes.len(), 4) + zeros(gap) + bytes)
            },
        }
    }
}

/// The elements of an array, which begin at `start`.
pub open spec fn marshal_elements(
    element: TypeView,
    v: ValueView,
    start: nat,
    depth: nat,
) -> Marshalled
    decreases v, 0nat, 0nat,
{
    let mismatch = WireErrorView::TypeMismatch { expected: 'a', got: kind_name(v) };
    match (element, v) {
        (TypeView::Byte, ValueView::ByteArray(bytes)) => Ok(bytes),
        (TypeView::Byte, _) => Err(mismatch),
        (TypeView::DictEntry(key, entry), ValueView::Dict(entries)) => if *key != TypeView::Str {
            Err(WireErrorView::Unsupported("dict keys that are not strings"@))
        } else {
            marshal_entries(*entry, entries, 0, start, depth + 1)
        },
        (TypeView::DictEntry(_, _), _) => Err(mismatch),
        (_, ValueView::Array(items)) => marshal_items(element, items, 0, start, depth + 1),
        _ => Err(mismatch),
    }
}

/// The items from `i` on, all of one type.
pub open spec fn marshal_items(
    element: TypeView,
    items: Seq<ValueView>,
    i: int,
    at: nat,
    depth: nat,
) -> Marshalled
    decreases items, items.len() - i,
{
    if i < 0 || i >= items.len() {
        Ok(Seq::empty())
    } else {
        match marshal_value(element, items[i], at, depth) {
            Err(e) => Err(e),
            Ok(bytes) => after(
                bytes,
                marshal_items(element, items, i + 1, at + bytes.len(), depth),
            ),
        }
    }
}

/// The fields from `i` on, each of its own type.
pub open spec fn marshal_fields(
    types: Seq<TypeView>,
    fields: Seq<ValueView>,
    i: int,
    at: nat,
    depth: nat,
) -> Marshalled
    decreases fields, fields.len() - i,
{
    if i < 0 || i >= fields.len() {
        Ok(Seq::empty())
    } else {
        match marshal_value(types[i], fields[i], at, depth) {
            Err(e) => Err(e),
            Ok(bytes) => after(bytes, marshal_fields(types, fields, i + 1, at + bytes.len(), depth)),
        }
    }
}

/// The dict entries from `i` on, each on an 8-byte boundary.
pub open spec fn marshal_entries(
    entry: TypeView,
    entries: Seq<(Seq<char>, ValueView)>,
    i: int,
    at: nat,
    depth: nat,
) -> Marshalled
    decreases entries, entries.len() - i,
{
    if i < 0 || i >= entries.len() {
        Ok(Seq::empty())
    } else {
        let gap = padding(at, 8);
        match marshal_text(entries[i].0) {
            Err(e) => Err(e),
            Ok(key) => match marshal_value(entry, entries[i].1, at + gap + key.len(), depth) {
                Err(e) => Err(e),
                Ok(bytes) => after(
                    zeros(gap) + key + bytes,
                    marshal_entries(
                        entry,
                        entries,
                        i + 1,
                        at + gap + key.len() + bytes.len(),
                        depth,
                    ),
                ),
            },
        }
    }
}

/// The bytes of a list of values against a signature. Offset 0 is taken to
/// be a multiple of 8 from the start of the message, which is what both
/// blocks a message has are.
pub open spec fn marshal(sig: Seq<char>, values: Seq<ValueView>) -> Marshalled {
    match signature_types(sig) {
        None => Err(WireErrorView::BadSignature(sig)),
        Some(types) => if types.len() != values.len() {
            Err(WireErrorView::Arity { expected: types.len(), got: values.len() })
        } else {
            marshal_fields(types, values, 0, 0, 0)
        },
    }
}

/// What a writer leaves behind: `bytes` after what was there, or the error.
pub open spec fn wrote(
    before: Seq<u8>,
    r: Result<(), WireError>,
    after_it: Seq<u8>,
    bytes: Marshalled,
) -> bool {
    match r {
        Ok(()) => bytes is Ok && after_it == before + bytes->Ok_0,
        Err(e) => bytes == Err::<Seq<u8>, WireErrorView>(e@),
    }
}

fn is_word_char(c: char) -> (r: bool)
    ensures
        r == word_char(c),
{
    (c >= 'A' && c <= 'Z') || (c >= 'a' && c <= 'z') || (c >= '0' && c <= '9') || c == '_'
}

/// Whether `path` meets "Valid Object Paths": it begins with `/`, its
/// elements hold only `[A-Za-z0-9_]`, none is empty, and only the root path
/// ends in `/`.
pub fn valid_object_path(path: &str) -> (r: bool)
    ensures
        r == object_path(path@),
{
    let chars = crate::text::chars_of(path);
    if chars.len() == 0 || chars[0] != '/' {
        return false;
    }
    if chars.len() == 1 {
        proof {
            assert(path@ =~= seq!['/']);
        }
        return true;
    }
    let mut i: usize = 1;
    while i < chars.len()
        invariant
            chars@ == path@,
            1 <= i <= chars@.len(),
            chars@.len() > 1,
            chars@[0] == '/',
            forall|j: int| 0 <= j < i ==> #[trigger] path@[j] == '/' || word_char(path@[j]),
            forall|j: int|
                0 <= j && j + 1 < i ==> !(#[trigger] path@[j] == '/' && path@[j + 1] == '/'),
        decreases chars@.len() - i,
    {
        let c = chars[i];
        if c == '/' {
            if chars[i - 1] == '/' {
                proof {
                    assert(path@[i - 1] == '/' && path@[(i - 1) + 1] == '/');
                }
                return false;
            }
        } else if !is_word_char(c) {
            proof {
                assert(path@[i as int] != '/');
            }
            return false;
        }
        i = i + 1;
    }
    chars[chars.len() - 1] != '/'
}

/// A `s`/`o` string: a UINT32 length, the text, a trailing nul. The caller
/// has padded to 4 already.
pub fn encode_str(out: &mut Vec<u8>, text: &str) -> (r: Result<(), WireError>)
    ensures
        wrote(old(out)@, r, final(out)@, marshal_text(text@)),
{
    let bytes = text.as_bytes();
    let mut i: usize = 0;
    while i < bytes.len()
        invariant
            bytes@ == utf8(text@),
            i <= bytes@.len(),
            forall|j: int| 0 <= j < i ==> bytes@[j] != 0,
            out@ == old(out)@,
        decreases bytes@.len() - i,
    {
        if bytes[i] == 0 {
            proof {
                assert(bytes@.contains(bytes@[i as int]));
            }
            return Err(WireError::BadString);
        }
        i = i + 1;
    }
    assert(!bytes@.contains(0));
    if bytes.len() > u32::MAX as usize {
        return Err(WireError::ArrayTooLong(bytes.len()));
    }
    push_le(out, bytes.len() as u64, 4);
    push_bytes(out, bytes);
    out.push(0);
    proof {
        assert(out@ =~= old(out)@ + marshal_text(text@)->Ok_0);
    }
    Ok(())
}

/// A `g` signature: a single-byte length, the text, a trailing nul. Its
/// alignment is 1, so no padding is ever needed before it.
pub fn encode_signature(out: &mut Vec<u8>, sig: &str)
    requires
        utf8(sig@).len() <= MAX_SIGNATURE,
    ensures
        final(out)@ == old(out)@ + marshal_signature(sig@),
{
    let bytes = sig.as_bytes();
    out.push(bytes.len() as u8);
    push_bytes(out, bytes);
    out.push(0);
    proof {
        assert(out@ =~= old(out)@ + marshal_signature(sig@));
    }
}

/// The signature of a value, for the variant that has to carry one.
///
/// `depth` bounds the walk: this runs before the encoder has recursed at
/// all, so without it a deep enough value would overflow the stack here
/// rather than come back as an error.
pub fn signature_of(value: &Value, depth: usize) -> (r: Result<String, WireError>)
    requires
        depth <= MAX_DEPTH + 1,
    ensures
        match r {
            Ok(sig) => value_signature(value@, depth as nat) == Ok::<Seq<char>, WireErrorView>(
                sig@,
            ),
            Err(e) => value_signature(value@, depth as nat) == Err::<Seq<char>, WireErrorView>(e@),
        },
    decreases value,
{
    broadcast use lemma_value_view_containers;

    if depth > MAX_DEPTH {
        return Err(WireError::Depth);
    }
    let mut out = String::new();
    match value {
        Value::Byte(_) => out.push('y'),
        Value::Bool(_) => out.push('b'),
        Value::Int16(_) => out.push('n'),
        Value::Uint16(_) => out.push('q'),
        Value::Int32(_) => out.push('i'),
        Value::Uint32(_) => out.push('u'),
        Value::Int64(_) => out.push('x'),
        Value::Uint64(_) => out.push('t'),
        Value::Double(_) => out.push('d'),
        Value::Str(_) => out.push('s'),
        Value::ObjectPath(_) => out.push('o'),
        Value::Signature(_) => out.push('g'),
        Value::Fd(_) => out.push('h'),
        Value::ByteArray(_) => {
            out.push('a');
            out.push('y');
        },
        Value::Variant(_) => out.push('v'),
        Value::Array(items) => {
            if items.len() == 0 {
                return Err(WireError::Unsupported("an empty array inside a variant"));
            }
            proof {
                assert(decreases_to!(*value => (*value)->Array_0));
                assert(decreases_to!(*items => items[0]));
            }
            let inner = match signature_of(&items[0], depth + 1) {
                Ok(s) => s,
                Err(e) => {
                    return Err(e);
                },
            };
            out.push('a');
            crate::text::push_text(&mut out, &inner);
        },
        Value::Dict(entries) => {
            if entries.len() == 0 {
                return Err(WireError::Unsupported("an empty dict inside a variant"));
            }
            proof {
                assert(decreases_to!(*value => (*value)->Dict_0));
                assert(decreases_to!(*entries => entries[0]));
            }
            let inner = match signature_of(&entries[0].1, depth + 1) {
                Ok(s) => s,
                Err(e) => {
                    return Err(e);
                },
            };
            out.push('a');
            out.push('{');
            out.push('s');
            crate::text::push_text(&mut out, &inner);
            out.push('}');
        },
        Value::Struct(fields) => {
            out.push('(');
            let ghost all = value_views(fields@);
            let mut i: usize = 0;
            proof {
                if let Ok(rest) = fields_signature(all, 0, (depth + 1) as nat) {
                    assert(seq!['('] + rest =~= out@ + rest);
                }
            }
            while i < fields.len()
                invariant
                    depth <= MAX_DEPTH,
                    *value == Value::Struct(*fields),
                    all == value_views(fields@),
                    i <= fields@.len(),
                    (match fields_signature(all, 0, (depth + 1) as nat) {
                        Ok(sig) => Ok::<Seq<char>, WireErrorView>(seq!['('] + sig),
                        Err(e) => Err(e),
                    }) == (match fields_signature(all, i as int, (depth + 1) as nat) {
                        Ok(rest) => Ok::<Seq<char>, WireErrorView>(out@ + rest),
                        Err(e) => Err(e),
                    }),
                    value_signature(value@, depth as nat) == (match fields_signature(
                        all,
                        0,
                        (depth + 1) as nat,
                    ) {
                        Ok(sig) => Ok::<Seq<char>, WireErrorView>(seq!['('] + sig + seq![')']),
                        Err(e) => Err(e),
                    }),
                decreases fields@.len() - i,
            {
                proof {
                    assert(decreases_to!(*value => (*value)->Struct_0));
                    assert(decreases_to!(*fields => fields[i as int]));
                    assert(all[i as int] == fields@[i as int]@);
                }
                let inner = match signature_of(&fields[i], depth + 1) {
                    Ok(s) => s,
                    Err(e) => {
                        return Err(e);
                    },
                };
                let ghost before = out@;
                crate::text::push_text(&mut out, &inner);
                i = i + 1;
                proof {
                    if let Ok(rest) = fields_signature(all, i as int, (depth + 1) as nat) {
                        assert(before + (inner@ + rest) =~= out@ + rest);
                    }
                }
            }
            proof {
                assert(out@ + Seq::<char>::empty() =~= out@);
            }
            out.push(')');
        },
    }
    proof {
        assert(out@ =~= value_signature(value@, depth as nat)->Ok_0);
    }
    Ok(out)
}

/// Marshal one value of type `ty`, padding to its alignment first.
pub fn encode_value(out: &mut Vec<u8>, ty: &Type, value: &Value, depth: usize) -> (r: Result<
    (),
    WireError,
>)
    requires
        depth <= MAX_DEPTH + 1,
    ensures
        wrote(
            old(out)@,
            r,
            final(out)@,
            marshal_value(ty@, value@, old(out)@.len(), depth as nat),
        ),
    decreases value, 1nat,
{
    broadcast use {lemma_value_view_containers, lemma_type_view_containers};

    if depth > MAX_DEPTH {
        return Err(WireError::Depth);
    }
    let ghost start = out@;
    pad(out, ty.alignment());
    let ghost padded = out@;
    let ghost gap = padding(start.len(), alignment_of(ty@));
    assert(padded.len() == start.len() + gap);
    match (ty, value) {
        (Type::Byte, Value::Byte(n)) => out.push(*n),
        (Type::Bool, Value::Bool(n)) => push_le(
            out,
            if *n {
                1
            } else {
                0
            },
            4,
        ),
        (Type::Int16, Value::Int16(n)) => push_le(
            out,
            if *n < 0 {
                (*n as i64 + 0x10000) as u64
            } else {
                *n as u64
            },
            2,
        ),
        (Type::Uint16, Value::Uint16(n)) => push_le(out, *n as u64, 2),
        (Type::Int32, Value::Int32(n)) => push_le(
            out,
            if *n < 0 {
                (*n as i64 + 0x1_0000_0000) as u64
            } else {
                *n as u64
            },
            4,
        ),
        (Type::Uint32, Value::Uint32(n)) => push_le(out, *n as u64, 4),
        (Type::Int64, Value::Int64(n)) => push_le(
            out,
            if *n < 0 {
                (*n as i128 + 0x1_0000_0000_0000_0000) as u64
            } else {
                *n as u64
            },
            8,
        ),
        (Type::Uint64, Value::Uint64(n)) => push_le(out, *n, 8),
        (Type::Double, Value::Double(n)) => push_le(out, *n, 8),
        (Type::Fd, Value::Fd(n)) => push_le(out, *n as u64, 4),
        (Type::Str, Value::Str(text)) => {
            match encode_str(out, text) {
                Ok(()) => {},
                Err(e) => {
                    return Err(e);
                },
            }
        },
        (Type::ObjectPath, Value::ObjectPath(text)) => {
            if !valid_object_path(text) {
                return Err(WireError::BadObjectPath(text.clone()));
            }
            match encode_str(out, text) {
                Ok(()) => {},
                Err(e) => {
                    return Err(e);
                },
            }
        },
        (Type::Signature, Value::Signature(sig)) => {
            match parse_signature(sig) {
                Ok(_) => {},
                Err(e) => {
                    return Err(e);
                },
            }
            encode_signature(out, sig);
        },
        (Type::Array(element), _) => {
            match encode_array(out, element, value, depth) {
                Ok(()) => {},
                Err(e) => {
                    return Err(e);
                },
            }
        },
        (Type::Struct(fields), Value::Struct(given)) => {
            if fields.len() != given.len() {
                return Err(WireError::Arity { expected: fields.len(), got: given.len() });
            }
            proof {
                assert(decreases_to!(*value => (*value)->Struct_0));
            }
            match encode_fields(out, fields, given, depth + 1) {
                Ok(()) => {},
                Err(e) => {
                    return Err(e);
                },
            }
        },
        (Type::Variant, Value::Variant(inner)) => {
            // "Variants are marshalled as the SIGNATURE of the contents
            // (which must be a single complete type), followed by a
            // marshalled value with the type given by that signature."
            let sig = match signature_of(inner, 0) {
                Ok(s) => s,
                Err(e) => {
                    return Err(e);
                },
            };
            let types = match parse_signature(&sig) {
                Ok(t) => t,
                Err(e) => {
                    return Err(e);
                },
            };
            if types.len() != 1 {
                return Err(WireError::BadSignature(sig));
            }
            encode_signature(out, &sig);
            let ghost before = out@;
            proof {
                assert(decreases_to!(*value => (*value)->Variant_0));
                assert(type_views(types@)[0] == types@[0]@);
            }
            match encode_value(out, &types[0], inner, depth + 1) {
                Ok(()) => {},
                Err(e) => {
                    return Err(e);
                },
            }
            proof {
                let tail = marshal_value(
                    types@[0]@,
                    inner@,
                    before.len(),
                    (depth + 1) as nat,
                )->Ok_0;
                assert(start + (zeros(gap) + (marshal_signature(sig@) + tail)) =~= out@);
            }
            return Ok(());
        },
        // A dict entry is reached through its array and never directly.
        _ => {
            return Err(WireError::TypeMismatch { expected: ty.code(), got: value.kind() });
        },
    }
    proof {
        let tail = marshal_aligned(ty@, value@, padded.len(), depth as nat)->Ok_0;
        assert(out@ =~= padded + tail);
        assert(start + (zeros(gap) + tail) =~= padded + tail);
    }
    Ok(())
}

/// An array: a UINT32 of the element bytes, padding to the element's
/// alignment which the length does not count, then the elements.
pub fn encode_array(out: &mut Vec<u8>, element: &Type, value: &Value, depth: usize) -> (r: Result<
    (),
    WireError,
>)
    requires
        depth <= MAX_DEPTH,
    ensures
        wrote(
            old(out)@,
            r,
            final(out)@,
            marshal_array(element@, value@, old(out)@.len(), depth as nat),
        ),
    decreases value, 0nat,
{
    broadcast use {lemma_value_view_containers, lemma_type_view_containers};

    if depth >= MAX_DEPTH {
        return Err(WireError::Depth);
    }
    let ghost first = out@;
    let length_at = out.len();
    push_le(out, 0, 4);
    proof {
        lemma_le_len(0, 4);
    }
    // "the alignment padding for the first element is required even if
    // there is no first element".
    pad(out, element.alignment());
    let start = out.len();
    let ghost gap = padding(first.len() + 4, alignment_of(element@));
    let ghost begun = out@;
    let ghost inner_depth = (depth + 1) as nat;
    assert(begun =~= first + le(0, 4) + zeros(gap));
    let ghost elements: Seq<u8>;
    match (element, value) {
        (Type::Byte, Value::ByteArray(bytes)) => {
            push_bytes(out, bytes);
            proof {
                elements = bytes@;
            }
        },
        (Type::Byte, _) => {
            return Err(WireError::TypeMismatch { expected: 'a', got: value.kind() });
        },
        (Type::DictEntry(key, entry), Value::Dict(entries)) => {
            if !is_str(key) {
                return Err(WireError::Unsupported("dict keys that are not strings"));
            }
            proof {
                assert(decreases_to!(*value => (*value)->Dict_0));
            }
            match encode_entries(out, entry, entries, depth + 1) {
                Ok(()) => {},
                Err(e) => {
                    return Err(e);
                },
            }
            proof {
                elements = marshal_entries(
                    entry@,
                    entry_views(entries@),
                    0,
                    begun.len(),
                    inner_depth,
                )->Ok_0;
            }
        },
        (Type::DictEntry(_, _), _) => {
            return Err(WireError::TypeMismatch { expected: 'a', got: value.kind() });
        },
        (_, Value::Array(items)) => {
            proof {
                assert(decreases_to!(*value => (*value)->Array_0));
            }
            match encode_items(out, element, items, depth + 1) {
                Ok(()) => {},
                Err(e) => {
                    return Err(e);
                },
            }
            proof {
                elements = marshal_items(
                    element@,
                    value_views(items@),
                    0,
                    begun.len(),
                    inner_depth,
                )->Ok_0;
            }
        },
        _ => {
            return Err(WireError::TypeMismatch { expected: 'a', got: value.kind() });
        },
    }
    assert(out@ == begun + elements);
    let length = out.len() - start;
    assert(length == elements.len());
    if length > MAX_ARRAY {
        return Err(WireError::ArrayTooLong(length));
    }
    let ghost filled = out@;
    patch_le4(out, length_at, length as u32);
    proof {
        lemma_le_len(length as nat, 4);
        assert(filled.take(length_at as int) =~= first);
        assert(filled.skip(length_at + 4) =~= zeros(gap) + elements);
        assert(out@ =~= first + (le(elements.len(), 4) + zeros(gap) + elements));
    }
    Ok(())
}

/// The fields of a struct, each of its own type.
fn encode_fields(out: &mut Vec<u8>, types: &Vec<Type>, fields: &Vec<Value>, depth: usize) -> (r:
    Result<(), WireError>)
    requires
        depth <= MAX_DEPTH + 1,
        types@.len() == fields@.len(),
    ensures
        wrote(
            old(out)@,
            r,
            final(out)@,
            marshal_fields(
                type_views(types@),
                value_views(fields@),
                0,
                old(out)@.len(),
                depth as nat,
            ),
        ),
    decreases fields, 0nat,
{
    let ghost ts = type_views(types@);
    let ghost all = value_views(fields@);
    let ghost begun = out@;
    let ghost total = marshal_fields(ts, all, 0, begun.len(), depth as nat);
    let mut i: usize = 0;
    while i < fields.len()
        invariant
            depth <= MAX_DEPTH + 1,
            types@.len() == fields@.len(),
            ts == type_views(types@),
            all == value_views(fields@),
            i <= fields@.len(),
            begun == old(out)@,
            total == marshal_fields(ts, all, 0, begun.len(), depth as nat),
            after(begun, total) == after(
                out@,
                marshal_fields(ts, all, i as int, out@.len(), depth as nat),
            ),
        decreases fields@.len() - i,
    {
        proof {
            assert(decreases_to!(*fields => fields[i as int]));
            assert(all[i as int] == fields@[i as int]@);
            assert(ts[i as int] == types@[i as int]@);
        }
        let ghost before = out@;
        match encode_value(out, &types[i], &fields[i], depth) {
            Ok(()) => {},
            Err(e) => {
                return Err(e);
            },
        }
        let ghost bytes = marshal_value(
            ts[i as int],
            all[i as int],
            before.len(),
            depth as nat,
        )->Ok_0;
        i = i + 1;
        proof {
            if let Ok(rest) = marshal_fields(ts, all, i as int, out@.len(), depth as nat) {
                assert(before + (bytes + rest) =~= out@ + rest);
            }
        }
    }
    proof {
        assert(out@ + Seq::<u8>::empty() =~= out@);
    }
    Ok(())
}

/// The items of an array, all of one type.
fn encode_items(out: &mut Vec<u8>, element: &Type, items: &Vec<Value>, depth: usize) -> (r: Result<
    (),
    WireError,
>)
    requires
        depth <= MAX_DEPTH + 1,
    ensures
        wrote(
            old(out)@,
            r,
            final(out)@,
            marshal_items(element@, value_views(items@), 0, old(out)@.len(), depth as nat),
        ),
    decreases items, 0nat,
{
    let ghost all = value_views(items@);
    let ghost begun = out@;
    let ghost total = marshal_items(element@, all, 0, begun.len(), depth as nat);
    let mut i: usize = 0;
    while i < items.len()
        invariant
            depth <= MAX_DEPTH + 1,
            all == value_views(items@),
            i <= items@.len(),
            begun == old(out)@,
            total == marshal_items(element@, all, 0, begun.len(), depth as nat),
            after(begun, total) == after(
                out@,
                marshal_items(element@, all, i as int, out@.len(), depth as nat),
            ),
        decreases items@.len() - i,
    {
        proof {
            assert(decreases_to!(*items => items[i as int]));
            assert(all[i as int] == items@[i as int]@);
        }
        let ghost before = out@;
        match encode_value(out, element, &items[i], depth) {
            Ok(()) => {},
            Err(e) => {
                return Err(e);
            },
        }
        let ghost bytes = marshal_value(
            element@,
            all[i as int],
            before.len(),
            depth as nat,
        )->Ok_0;
        i = i + 1;
        proof {
            if let Ok(rest) = marshal_items(element@, all, i as int, out@.len(), depth as nat) {
                assert(before + (bytes + rest) =~= out@ + rest);
            }
        }
    }
    proof {
        assert(out@ + Seq::<u8>::empty() =~= out@);
    }
    Ok(())
}

/// The entries of a dict, each on an 8-byte boundary.
fn encode_entries(
    out: &mut Vec<u8>,
    entry: &Type,
    entries: &Vec<(String, Value)>,
    depth: usize,
) -> (r: Result<(), WireError>)
    requires
        depth <= MAX_DEPTH + 1,
    ensures
        wrote(
            old(out)@,
            r,
            final(out)@,
            marshal_entries(entry@, entry_views(entries@), 0, old(out)@.len(), depth as nat),
        ),
    decreases entries, 0nat,
{
    let ghost all = entry_views(entries@);
    let ghost begun = out@;
    let ghost total = marshal_entries(entry@, all, 0, begun.len(), depth as nat);
    let mut i: usize = 0;
    while i < entries.len()
        invariant
            depth <= MAX_DEPTH + 1,
            all == entry_views(entries@),
            i <= entries@.len(),
            begun == old(out)@,
            total == marshal_entries(entry@, all, 0, begun.len(), depth as nat),
            after(begun, total) == after(
                out@,
                marshal_entries(entry@, all, i as int, out@.len(), depth as nat),
            ),
        decreases entries@.len() - i,
    {
        proof {
            assert(decreases_to!(*entries => entries[i as int]));
            assert(all[i as int] == (entries@[i as int].0@, entries@[i as int].1@));
        }
        let ghost before = out@;
        pad(out, 8);
        let ghost gap = padding(before.len(), 8);
        match encode_str(out, &entries[i].0) {
            Ok(()) => {},
            Err(e) => {
                return Err(e);
            },
        }
        let ghost key = marshal_text(entries@[i as int].0@)->Ok_0;
        let ghost keyed = out@;
        assert(keyed.len() == before.len() + gap + key.len());
        match encode_value(out, entry, &entries[i].1, depth) {
            Ok(()) => {},
            Err(e) => {
                return Err(e);
            },
        }
        let ghost bytes = marshal_value(
            entry@,
            all[i as int].1,
            keyed.len(),
            depth as nat,
        )->Ok_0;
        i = i + 1;
        proof {
            if let Ok(rest) = marshal_entries(entry@, all, i as int, out@.len(), depth as nat) {
                assert(before + ((zeros(gap) + key + bytes) + rest) =~= out@ + rest);
            }
        }
    }
    proof {
        assert(out@ + Seq::<u8>::empty() =~= out@);
    }
    Ok(())
}

pub(crate) fn is_str(t: &Type) -> (r: bool)
    ensures
        r == (t@ == TypeView::Str),
{
    match t {
        Type::Str => true,
        _ => false,
    }
}

/// Marshal `values` against `sig`, little-endian.
///
/// Offset 0 of the result is taken to be a multiple of 8 from the start of
/// the message, which is what both blocks a message has are: alignment is
/// "calculated globally, with respect to the first byte in the message", and
/// a body begins on an 8-byte boundary.
pub fn encode(sig: &str, values: &[Value]) -> (r: Result<Vec<u8>, WireError>)
    ensures
        match r {
            Ok(bytes) => marshal(sig@, value_views(values@)) == Ok::<Seq<u8>, WireErrorView>(
                bytes@,
            ),
            Err(e) => marshal(sig@, value_views(values@)) == Err::<Seq<u8>, WireErrorView>(e@),
        },
{
    let types = match parse_signature(sig) {
        Ok(t) => t,
        Err(e) => {
            return Err(e);
        },
    };
    if types.len() != values.len() {
        return Err(WireError::Arity { expected: types.len(), got: values.len() });
    }
    let ghost ts = type_views(types@);
    let ghost all = value_views(values@);
    let mut out: Vec<u8> = Vec::new();
    let mut i: usize = 0;
    proof {
        if let Ok(rest) = marshal_fields(ts, all, 0, 0, 0) {
            assert(out@ + rest =~= rest);
        }
    }
    while i < values.len()
        invariant
            ts == type_views(types@),
            all == value_views(values@),
            types@.len() == values@.len(),
            i <= values@.len(),
            marshal_fields(ts, all, 0, 0, 0) == after(
                out@,
                marshal_fields(ts, all, i as int, out@.len(), 0),
            ),
            marshal(sig@, all) == marshal_fields(ts, all, 0, 0, 0),
        decreases values@.len() - i,
    {
        let ghost before = out@;
        proof {
            assert(all[i as int] == values@[i as int]@);
            assert(ts[i as int] == types@[i as int]@);
        }
        match encode_value(&mut out, &types[i], &values[i], 0) {
            Ok(()) => {},
            Err(e) => {
                return Err(e);
            },
        }
        let ghost bytes = marshal_value(ts[i as int], all[i as int], before.len(), 0)->Ok_0;
        i = i + 1;
        proof {
            if let Ok(rest) = marshal_fields(ts, all, i as int, out@.len(), 0) {
                assert(before + (bytes + rest) =~= out@ + rest);
            }
        }
    }
    proof {
        assert(out@ + Seq::<u8>::empty() =~= out@);
    }
    Ok(out)
}

} // verus!
