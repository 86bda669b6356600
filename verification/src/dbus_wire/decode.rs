//! Unmarshalling: the values a block of bytes stands for.

use vstd::prelude::*;
use vstd::utf8::*;

use crate::dbus_wire::encode::{is_str, object_path, valid_object_path};
use crate::dbus_wire::number::{
    capacity, le_value, lemma_capacities, lemma_le_value, padding, read_le, signed,
};
use crate::dbus_wire::signature::{parse_signature, signature_types, sound_type, sound_types};
use crate::dbus_wire::value::{
    alignment_of, entry_views, lemma_type_view_containers, lemma_value_view_containers,
    type_views, value_views, Type, TypeView, Value, ValueView, WireError, WireErrorView,
    MAX_ARRAY, MAX_DEPTH,
};
use crate::text::{copy_bytes, text_of_bytes};

verus! {

/// What was read and where reading stopped, or the reason nothing was.
pub type Unmarshalled<T> = Result<(T, nat), WireErrorView>;

/// Step over the padding before a value of alignment `align`, refusing
/// padding that is not nul.
pub open spec fn skip_padding(buf: Seq<u8>, at: nat, align: nat) -> Result<nat, WireErrorView> {
    let end = at + padding(at, align);
    if end > buf.len() {
        Err(WireErrorView::Truncated)
    } else if exists|i: int| at <= i < end && #[trigger] buf[i] != 0 {
        Err(WireErrorView::Padding)
    } else {
        Ok(end)
    }
}

/// The next `n` bytes.
pub open spec fn read_bytes(buf: Seq<u8>, at: nat, n: nat) -> Unmarshalled<Seq<u8>> {
    if at + n > buf.len() {
        Err(WireErrorView::Truncated)
    } else {
        Ok((buf.subrange(at as int, (at + n) as int), at + n))
    }
}

/// The next `width` bytes, as a number.
pub open spec fn read_number(buf: Seq<u8>, at: nat, width: nat) -> Unmarshalled<nat> {
    match read_bytes(buf, at, width) {
        Err(e) => Err(e),
        Ok((bytes, next)) => Ok((le_value(bytes), next)),
    }
}

/// `len` bytes of text and the nul after them. "The value of any string-like
/// type is conceptually 0 or more Unicode codepoints encoded in UTF-8, none
/// of which may be U+0000."
pub open spec fn read_text(buf: Seq<u8>, at: nat, len: nat) -> Unmarshalled<Seq<char>> {
    match read_bytes(buf, at, len) {
        Err(e) => Err(e),
        Ok((bytes, next)) => if bytes.contains(0) {
            Err(WireErrorView::BadString)
        } else if next >= buf.len() {
            Err(WireErrorView::Truncated)
        } else if buf[next as int] != 0 || !valid_utf8(bytes) {
            Err(WireErrorView::BadString)
        } else {
            Ok((decode_utf8(bytes), next + 1))
        },
    }
}

/// A `s` or `o` string: a UINT32 length, the text, a trailing nul.
pub open spec fn read_string(buf: Seq<u8>, at: nat) -> Unmarshalled<Seq<char>> {
    match read_number(buf, at, 4) {
        Err(e) => Err(e),
        Ok((len, next)) => read_text(buf, next, len),
    }
}

/// A `g` signature: a single-byte length, the text, a trailing nul.
pub open spec fn read_signature(buf: Seq<u8>, at: nat) -> Unmarshalled<Seq<char>> {
    match read_number(buf, at, 1) {
        Err(e) => Err(e),
        Ok((len, next)) => read_text(buf, next, len),
    }
}

/// One value of type `ty` at position `at`, `depth` containers deep.
pub open spec fn unmarshal_value(ty: TypeView, buf: Seq<u8>, at: nat, depth: nat) -> Unmarshalled<
    ValueView,
>
    decreases MAX_DEPTH + 1 - depth, 4nat, 0int,
{
    if depth > MAX_DEPTH {
        Err(WireErrorView::Depth)
    } else {
        match skip_padding(buf, at, alignment_of(ty)) {
            Err(e) => Err(e),
            Ok(start) => unmarshal_aligned(ty, buf, start, depth),
        }
    }
}

/// A number of `width` bytes, made a value by `f`.
pub open spec fn number_value(
    buf: Seq<u8>,
    at: nat,
    width: nat,
    f: spec_fn(nat) -> ValueView,
) -> Unmarshalled<ValueView> {
    match read_number(buf, at, width) {
        Err(e) => Err(e),
        Ok((n, next)) => Ok((f(n), next)),
    }
}

/// One value whose padding was stepped over already.
pub open spec fn unmarshal_aligned(ty: TypeView, buf: Seq<u8>, at: nat, depth: nat) -> Unmarshalled<
    ValueView,
>
    decreases MAX_DEPTH + 1 - depth, 3nat, 0int,
{
    match ty {
        TypeView::Byte => number_value(buf, at, 1, |n: nat| ValueView::Byte(n as u8)),
        TypeView::Bool => match read_number(buf, at, 4) {
            Err(e) => Err(e),
            Ok((n, next)) => if n > 1 {
                Err(WireErrorView::BadBool(n as u32))
            } else {
                Ok((ValueView::Bool(n == 1), next))
            },
        },
        TypeView::Int16 => number_value(
            buf,
            at,
            2,
            |n: nat| ValueView::Int16(signed(n, 0x10000) as i16),
        ),
        TypeView::Uint16 => number_value(buf, at, 2, |n: nat| ValueView::Uint16(n as u16)),
        TypeView::Int32 => number_value(
            buf,
            at,
            4,
            |n: nat| ValueView::Int32(signed(n, 0x1_0000_0000) as i32),
        ),
        TypeView::Uint32 => number_value(buf, at, 4, |n: nat| ValueView::Uint32(n as u32)),
        TypeView::Int64 => number_value(
            buf,
            at,
            8,
            |n: nat| ValueView::Int64(signed(n, 0x1_0000_0000_0000_0000) as i64),
        ),
        TypeView::Uint64 => number_value(buf, at, 8, |n: nat| ValueView::Uint64(n as u64)),
        TypeView::Double => number_value(buf, at, 8, |n: nat| ValueView::Double(n as u64)),
        TypeView::Fd => number_value(buf, at, 4, |n: nat| ValueView::Fd(n as u32)),
        TypeView::Str => match read_string(buf, at) {
            Err(e) => Err(e),
            Ok((text, next)) => Ok((ValueView::Str(text), next)),
        },
        TypeView::ObjectPath => match read_string(buf, at) {
            Err(e) => Err(e),
            Ok((text, next)) => if object_path(text) {
                Ok((ValueView::ObjectPath(text), next))
            } else {
                Err(WireErrorView::BadObjectPath(text))
            },
        },
        TypeView::Signature => match read_signature(buf, at) {
            Err(e) => Err(e),
            Ok((sig, next)) => if signature_types(sig) is Some {
                Ok((ValueView::Signature(sig), next))
            } else {
                Err(WireErrorView::BadSignature(sig))
            },
        },
        TypeView::Variant => match read_signature(buf, at) {
            Err(e) => Err(e),
            Ok((sig, next)) => match signature_types(sig) {
                None => Err(WireErrorView::BadSignature(sig)),
                Some(types) => if types.len() != 1 {
                    Err(WireErrorView::BadSignature(sig))
                } else if depth > MAX_DEPTH {
                    Err(WireErrorView::Depth)
                } else {
                    match unmarshal_value(types[0], buf, next, depth + 1) {
                        Err(e) => Err(e),
                        Ok((inner, end)) => Ok((ValueView::Variant(Box::new(inner)), end)),
                    }
                },
            },
        },
        TypeView::Array(element) => unmarshal_array(*element, buf, at, depth),
        TypeView::Struct(fields) => if depth > MAX_DEPTH {
            Err(WireErrorView::Depth)
        } else {
            match unmarshal_fields(fields, 0, buf, at, depth + 1) {
                Err(e) => Err(e),
                Ok((values, end)) => Ok((ValueView::Struct(values), end)),
            }
        },
        TypeView::DictEntry(_, _) => Err(
            WireErrorView::Unsupported("a dict entry outside an array"@),
        ),
    }
}

/// An array: the byte count, the element padding the count does not include,
/// then elements until exactly that many bytes are read.
pub open spec fn unmarshal_array(
    element: TypeView,
    buf: Seq<u8>,
    at: nat,
    depth: nat,
) -> Unmarshalled<ValueView>
    decreases MAX_DEPTH + 1 - depth, 2nat, 0int,
{
    if depth >= MAX_DEPTH {
        Err(WireErrorView::Depth)
    } else {
        match read_number(buf, at, 4) {
            Err(e) => Err(e),
            Ok((length, padded)) => if length > MAX_ARRAY {
                Err(WireErrorView::ArrayTooLong(length))
            } else {
                match skip_padding(buf, padded, alignment_of(element)) {
                    Err(e) => Err(e),
                    Ok(start) => {
                        let end = start + length;
                        if end > buf.len() {
                            Err(WireErrorView::Truncated)
                        } else {
                            unmarshal_elements(element, buf, start, end, depth)
                        }
                    },
                }
            },
        }
    }
}

/// The elements of an array, which take the bytes from `start` to `end`.
pub open spec fn unmarshal_elements(
    element: TypeView,
    buf: Seq<u8>,
    start: nat,
    end: nat,
    depth: nat,
) -> Unmarshalled<ValueView>
    decreases MAX_DEPTH + 1 - depth, 1nat, 0int,
{
    if depth >= MAX_DEPTH {
        Err(WireErrorView::Depth)
    } else {
        match element {
            TypeView::Byte => Ok(
                (ValueView::ByteArray(buf.subrange(start as int, end as int)), end),
            ),
            TypeView::DictEntry(key, entry) => if *key != TypeView::Str {
                Err(WireErrorView::Unsupported("dict keys that are not strings"@))
            } else {
                match unmarshal_entries(*entry, buf, start, end, depth + 1) {
                    Err(e) => Err(e),
                    Ok((entries, stop)) => Ok((ValueView::Dict(entries), stop)),
                }
            },
            _ => match unmarshal_items(element, buf, start, end, depth + 1) {
                Err(e) => Err(e),
                Ok((items, stop)) => Ok((ValueView::Array(items), stop)),
            },
        }
    }
}

/// Items of one type up to `end`. An item that ends past it is a
/// disagreement about the layout, not something to read on from; an item is
/// never empty.
pub open spec fn unmarshal_items(
    element: TypeView,
    buf: Seq<u8>,
    at: nat,
    end: nat,
    depth: nat,
) -> Unmarshalled<Seq<ValueView>>
    decreases MAX_DEPTH + 1 - depth, 5nat, end - at,
{
    if at >= end {
        Ok((Seq::empty(), at))
    } else {
        match unmarshal_value(element, buf, at, depth) {
            Err(e) => Err(e),
            Ok((first, next)) => if !(at < next <= end) {
                Err(WireErrorView::Truncated)
            } else {
                match unmarshal_items(element, buf, next, end, depth) {
                    Err(e) => Err(e),
                    Ok((rest, stop)) => Ok((seq![first] + rest, stop)),
                }
            },
        }
    }
}

/// Dict entries up to `end`, each on an 8-byte boundary.
pub open spec fn unmarshal_entries(
    entry: TypeView,
    buf: Seq<u8>,
    at: nat,
    end: nat,
    depth: nat,
) -> Unmarshalled<Seq<(Seq<char>, ValueView)>>
    decreases MAX_DEPTH + 1 - depth, 5nat, end - at,
{
    if at >= end {
        Ok((Seq::empty(), at))
    } else {
        match skip_padding(buf, at, 8) {
            Err(e) => Err(e),
            Ok(start) => match read_string(buf, start) {
                Err(e) => Err(e),
                Ok((key, mid)) => match unmarshal_value(entry, buf, mid, depth) {
                    Err(e) => Err(e),
                    Ok((value, next)) => if !(at < next <= end) {
                        Err(WireErrorView::Truncated)
                    } else {
                        match unmarshal_entries(entry, buf, next, end, depth) {
                            Err(e) => Err(e),
                            Ok((rest, stop)) => Ok((seq![(key, value)] + rest, stop)),
                        }
                    },
                },
            },
        }
    }
}

/// The fields from `i` on, each of its own type.
pub open spec fn unmarshal_fields(
    types: Seq<TypeView>,
    i: int,
    buf: Seq<u8>,
    at: nat,
    depth: nat,
) -> Unmarshalled<Seq<ValueView>>
    decreases MAX_DEPTH + 1 - depth, 5nat, types.len() - i,
{
    if i < 0 || i >= types.len() {
        Ok((Seq::empty(), at))
    } else {
        match unmarshal_value(types[i], buf, at, depth) {
            Err(e) => Err(e),
            Ok((first, next)) => match unmarshal_fields(types, i + 1, buf, next, depth) {
                Err(e) => Err(e),
                Ok((rest, end)) => Ok((seq![first] + rest, end)),
            },
        }
    }
}

/// The values a block of bytes stands for against a signature, with nothing
/// left over.
pub open spec fn unmarshal(sig: Seq<char>, body: Seq<u8>) -> Result<Seq<ValueView>, WireErrorView> {
    match signature_types(sig) {
        None => Err(WireErrorView::BadSignature(sig)),
        Some(types) => match unmarshal_fields(types, 0, body, 0, 0) {
            Err(e) => Err(e),
            Ok((values, end)) => if end != body.len() {
                Err(WireErrorView::Trailing((body.len() - end) as nat))
            } else {
                Ok(values)
            },
        },
    }
}

/// What was read before `r`, and what `r` is.
pub open spec fn following<T>(head: Seq<T>, r: Unmarshalled<Seq<T>>) -> Unmarshalled<Seq<T>> {
    match r {
        Ok((tail, end)) => Ok((head + tail, end)),
        Err(e) => Err(e),
    }
}

/// A cursor over a marshalled block, refusing everything the specification
/// does not allow rather than reading on.
pub struct Reader<'a> {
    pub buf: &'a [u8],
    pub at: usize,
}

impl<'a> Reader<'a> {
    /// The cursor is inside the block or at its end.
    pub open spec fn wf(&self) -> bool {
        self.at <= self.buf@.len()
    }

    pub fn new(buf: &'a [u8]) -> (r: Self)
        ensures
            r.buf == buf,
            r.at == 0,
    {
        Reader { buf, at: 0 }
    }

    /// Step over the padding before a value of alignment `align`, refusing
    /// padding that is not nul.
    pub fn align(&mut self, align: usize) -> (r: Result<(), WireError>)
        requires
            old(self).wf(),
            align > 0,
        ensures
            final(self).buf == old(self).buf,
            final(self).wf(),
            match r {
                Ok(()) => skip_padding(old(self).buf@, old(self).at as nat, align as nat) == Ok::<
                    nat,
                    WireErrorView,
                >(final(self).at as nat),
                Err(e) => skip_padding(old(self).buf@, old(self).at as nat, align as nat) == Err::<
                    nat,
                    WireErrorView,
                >(e@),
            },
    {
        proof {
            reveal(padding);
        }
        let over = self.at % align;
        let missing: usize = if over == 0 {
            0
        } else {
            align - over
        };
        if missing > self.buf.len() - self.at {
            return Err(WireError::Truncated);
        }
        let end = self.at + missing;
        let mut i: usize = self.at;
        while i < end
            invariant
                self.at <= i <= end <= self.buf@.len(),
                self.buf == old(self).buf,
                self.at == old(self).at,
                end == old(self).at + padding(old(self).at as nat, align as nat),
                forall|j: int| self.at <= j < i ==> #[trigger] self.buf@[j] == 0,
            decreases end - i,
        {
            if self.buf[i] != 0 {
                proof {
                    assert(self.buf@[i as int] != 0);
                }
                return Err(WireError::Padding);
            }
            i = i + 1;
        }
        self.at = end;
        Ok(())
    }

    /// The next `n` bytes.
    pub fn take(&mut self, n: usize) -> (r: Result<&'a [u8], WireError>)
        requires
            old(self).wf(),
        ensures
            final(self).buf == old(self).buf,
            final(self).wf(),
            match r {
                Ok(bytes) => read_bytes(old(self).buf@, old(self).at as nat, n as nat) == Ok::<
                    (Seq<u8>, nat),
                    WireErrorView,
                >((bytes@, final(self).at as nat)),
                Err(e) => read_bytes(old(self).buf@, old(self).at as nat, n as nat) == Err::<
                    (Seq<u8>, nat),
                    WireErrorView,
                >(e@),
            },
    {
        let buf = self.buf;
        if n > buf.len() - self.at {
            return Err(WireError::Truncated);
        }
        let end = self.at + n;
        let bytes = vstd::slice::slice_subrange(buf, self.at, end);
        self.at = end;
        Ok(bytes)
    }

    /// The next `width` bytes, as a number.
    fn number(&mut self, width: usize) -> (r: Result<u64, WireError>)
        requires
            old(self).wf(),
            width <= 8,
        ensures
            final(self).buf == old(self).buf,
            final(self).wf(),
            match r {
                Ok(n) => read_number(old(self).buf@, old(self).at as nat, width as nat) == Ok::<
                    (nat, nat),
                    WireErrorView,
                >((n as nat, final(self).at as nat)) && n < capacity(width as nat)
                    && final(self).at == old(self).at + width,
                Err(e) => read_number(old(self).buf@, old(self).at as nat, width as nat) == Err::<
                    (nat, nat),
                    WireErrorView,
                >(e@),
            },
    {
        match self.take(width) {
            Ok(bytes) => {
                proof {
                    lemma_le_value(bytes@);
                }
                Ok(read_le(bytes))
            },
            Err(e) => Err(e),
        }
    }

    /// The next byte.
    pub fn byte(&mut self) -> (r: Result<u8, WireError>)
        requires
            old(self).wf(),
        ensures
            final(self).buf == old(self).buf,
            final(self).wf(),
            match r {
                Ok(n) => read_number(old(self).buf@, old(self).at as nat, 1) == Ok::<
                    (nat, nat),
                    WireErrorView,
                >((n as nat, final(self).at as nat)) && final(self).at == old(self).at + 1,
                Err(e) => read_number(old(self).buf@, old(self).at as nat, 1) == Err::<
                    (nat, nat),
                    WireErrorView,
                >(e@),
            },
    {
        proof {
            lemma_capacities();
        }
        match self.number(1) {
            Ok(n) => Ok(n as u8),
            Err(e) => Err(e),
        }
    }

    /// The next UINT32.
    pub fn uint32(&mut self) -> (r: Result<u32, WireError>)
        requires
            old(self).wf(),
        ensures
            final(self).buf == old(self).buf,
            final(self).wf(),
            match r {
                Ok(n) => read_number(old(self).buf@, old(self).at as nat, 4) == Ok::<
                    (nat, nat),
                    WireErrorView,
                >((n as nat, final(self).at as nat)) && final(self).at == old(self).at + 4,
                Err(e) => read_number(old(self).buf@, old(self).at as nat, 4) == Err::<
                    (nat, nat),
                    WireErrorView,
                >(e@),
            },
    {
        proof {
            lemma_capacities();
        }
        match self.number(4) {
            Ok(n) => Ok(n as u32),
            Err(e) => Err(e),
        }
    }

    /// `len` bytes of text and the nul after them.
    pub fn text(&mut self, len: usize) -> (r: Result<String, WireError>)
        requires
            old(self).wf(),
        ensures
            final(self).buf == old(self).buf,
            final(self).wf(),
            match r {
                Ok(s) => read_text(old(self).buf@, old(self).at as nat, len as nat) == Ok::<
                    (Seq<char>, nat),
                    WireErrorView,
                >((s@, final(self).at as nat)) && final(self).at > old(self).at,
                Err(e) => read_text(old(self).buf@, old(self).at as nat, len as nat) == Err::<
                    (Seq<char>, nat),
                    WireErrorView,
                >(e@),
            },
    {
        let bytes = match self.take(len) {
            Ok(b) => b,
            Err(e) => {
                return Err(e);
            },
        };
        let mut i: usize = 0;
        while i < bytes.len()
            invariant
                i <= bytes@.len(),
                forall|j: int| 0 <= j < i ==> bytes@[j] != 0,
                self.buf == old(self).buf,
                self.wf(),
                read_bytes(old(self).buf@, old(self).at as nat, len as nat) == Ok::<
                    (Seq<u8>, nat),
                    WireErrorView,
                >((bytes@, self.at as nat)),
            decreases bytes@.len() - i,
        {
            if bytes[i] == 0 {
                proof {
                    assert(bytes@.contains(bytes@[i as int]));
                }
                return Err(WireError::BadString);
            }
            i = i + 1;
        }
        assert(!bytes@.contains(0));
        if self.at >= self.buf.len() {
            return Err(WireError::Truncated);
        }
        let last = self.buf[self.at];
        self.at = self.at + 1;
        if last != 0 {
            return Err(WireError::BadString);
        }
        match text_of_bytes(bytes) {
            Some(s) => {
                proof {
                    encode_utf8_decode_utf8(s@);
                }
                Ok(s)
            },
            None => Err(WireError::BadString),
        }
    }

    /// A UINT32 length, that many bytes of text, a trailing nul.
    fn string(&mut self) -> (r: Result<String, WireError>)
        requires
            old(self).wf(),
        ensures
            final(self).buf == old(self).buf,
            final(self).wf(),
            match r {
                Ok(s) => read_string(old(self).buf@, old(self).at as nat) == Ok::<
                    (Seq<char>, nat),
                    WireErrorView,
                >((s@, final(self).at as nat)) && final(self).at > old(self).at,
                Err(e) => read_string(old(self).buf@, old(self).at as nat) == Err::<
                    (Seq<char>, nat),
                    WireErrorView,
                >(e@),
            },
    {
        match self.uint32() {
            Ok(len) => self.text(len as usize),
            Err(e) => Err(e),
        }
    }

    /// A single-byte length, that many bytes of text, a trailing nul.
    fn signature(&mut self) -> (r: Result<String, WireError>)
        requires
            old(self).wf(),
        ensures
            final(self).buf == old(self).buf,
            final(self).wf(),
            match r {
                Ok(s) => read_signature(old(self).buf@, old(self).at as nat) == Ok::<
                    (Seq<char>, nat),
                    WireErrorView,
                >((s@, final(self).at as nat)) && final(self).at > old(self).at,
                Err(e) => read_signature(old(self).buf@, old(self).at as nat) == Err::<
                    (Seq<char>, nat),
                    WireErrorView,
                >(e@),
            },
    {
        match self.byte() {
            Ok(len) => self.text(len as usize),
            Err(e) => Err(e),
        }
    }
}

/// What a reader leaves behind: the value and a cursor past it, or the error.
pub open spec fn did_read<'a, T: View>(
    before: Reader<'a>,
    r: Result<T, WireError>,
    after_it: Reader<'a>,
    model: Unmarshalled<T::V>,
) -> bool {
    &&& after_it.buf == before.buf
    &&& after_it.wf()
    &&& match r {
        Ok(v) => model == Ok::<(T::V, nat), WireErrorView>((v@, after_it.at as nat)),
        Err(e) => model == Err::<(T::V, nat), WireErrorView>(e@),
    }
}

/// Unmarshal one value of type `ty`, stepping over its padding first.
pub fn decode_value<'a>(reader: &mut Reader<'a>, ty: &Type, depth: usize) -> (r: Result<
    Value,
    WireError,
>)
    requires
        old(reader).wf(),
        depth <= MAX_DEPTH + 1,
        sound_type(ty@),
    ensures
        did_read(
            *old(reader),
            r,
            *final(reader),
            unmarshal_value(ty@, old(reader).buf@, old(reader).at as nat, depth as nat),
        ),
        r is Ok ==> old(reader).at < final(reader).at,
    decreases MAX_DEPTH + 1 - depth, 4nat,
{
    broadcast use {lemma_value_view_containers, lemma_type_view_containers};

    if depth > MAX_DEPTH {
        return Err(WireError::Depth);
    }
    match reader.align(ty.alignment()) {
        Ok(()) => {},
        Err(e) => {
            return Err(e);
        },
    }
    proof {
        lemma_capacities();
    }
    match ty {
        Type::Byte => match reader.byte() {
            Ok(n) => Ok(Value::Byte(n)),
            Err(e) => Err(e),
        },
        Type::Bool => match reader.uint32() {
            Ok(n) => if n == 0 {
                Ok(Value::Bool(false))
            } else if n == 1 {
                Ok(Value::Bool(true))
            } else {
                Err(WireError::BadBool(n))
            },
            Err(e) => Err(e),
        },
        Type::Int16 => match reader.number(2) {
            Ok(n) => Ok(
                Value::Int16(
                    if n >= 0x8000 {
                        (n as i64 - 0x10000) as i16
                    } else {
                        n as i16
                    },
                ),
            ),
            Err(e) => Err(e),
        },
        Type::Uint16 => match reader.number(2) {
            Ok(n) => Ok(Value::Uint16(n as u16)),
            Err(e) => Err(e),
        },
        Type::Int32 => match reader.number(4) {
            Ok(n) => Ok(
                Value::Int32(
                    if n >= 0x8000_0000 {
                        (n as i64 - 0x1_0000_0000) as i32
                    } else {
                        n as i32
                    },
                ),
            ),
            Err(e) => Err(e),
        },
        Type::Uint32 => match reader.uint32() {
            Ok(n) => Ok(Value::Uint32(n)),
            Err(e) => Err(e),
        },
        Type::Int64 => match reader.number(8) {
            Ok(n) => Ok(
                Value::Int64(
                    if n >= 0x8000_0000_0000_0000 {
                        (n as i128 - 0x1_0000_0000_0000_0000) as i64
                    } else {
                        n as i64
                    },
                ),
            ),
            Err(e) => Err(e),
        },
        Type::Uint64 => match reader.number(8) {
            Ok(n) => Ok(Value::Uint64(n)),
            Err(e) => Err(e),
        },
        Type::Double => match reader.number(8) {
            Ok(n) => Ok(Value::Double(n)),
            Err(e) => Err(e),
        },
        Type::Fd => match reader.uint32() {
            Ok(n) => Ok(Value::Fd(n)),
            Err(e) => Err(e),
        },
        Type::Str => match reader.string() {
            Ok(s) => Ok(Value::Str(s)),
            Err(e) => Err(e),
        },
        Type::ObjectPath => match reader.string() {
            Ok(s) => if valid_object_path(&s) {
                Ok(Value::ObjectPath(s))
            } else {
                Err(WireError::BadObjectPath(s))
            },
            Err(e) => Err(e),
        },
        Type::Signature => match reader.signature() {
            Ok(s) => match parse_signature(&s) {
                Ok(_) => Ok(Value::Signature(s)),
                Err(e) => Err(e),
            },
            Err(e) => Err(e),
        },
        Type::Variant => {
            let sig = match reader.signature() {
                Ok(s) => s,
                Err(e) => {
                    return Err(e);
                },
            };
            let types = match parse_signature(&sig) {
                Ok(t) => t,
                Err(e) => {
                    return Err(e);
                },
            };
            if types.len() != 1 {
                return Err(WireError::BadSignature(sig));
            }
            proof {
                assert(type_views(types@)[0] == types@[0]@);
            }
            match decode_value(reader, &types[0], depth + 1) {
                Ok(v) => Ok(Value::Variant(Box::new(v))),
                Err(e) => Err(e),
            }
        },
        Type::Array(element) => decode_array(reader, element, depth),
        Type::Struct(fields) => {
            proof {
                assert(sound_types(type_views(fields@))) by {
                    assert(sound_type(TypeView::Struct(type_views(fields@))));
                }
            }
            match decode_fields(reader, fields, depth + 1) {
                Ok(values) => Ok(Value::Struct(values)),
                Err(e) => Err(e),
            }
        },
        // A dict entry is reached through its array and never directly.
        Type::DictEntry(_, _) => Err(WireError::Unsupported("a dict entry outside an array")),
    }
}

/// The fields of a struct, each of its own type.
fn decode_fields<'a>(reader: &mut Reader<'a>, types: &Vec<Type>, depth: usize) -> (r: Result<
    Vec<Value>,
    WireError,
>)
    requires
        old(reader).wf(),
        depth <= MAX_DEPTH + 1,
        sound_types(type_views(types@)),
    ensures
        final(reader).buf == old(reader).buf,
        final(reader).wf(),
        match r {
            Ok(values) => unmarshal_fields(
                type_views(types@),
                0,
                old(reader).buf@,
                old(reader).at as nat,
                depth as nat,
            ) == Ok::<(Seq<ValueView>, nat), WireErrorView>(
                (value_views(values@), final(reader).at as nat),
            ) && (types@.len() > 0 ==> old(reader).at < final(reader).at),
            Err(e) => unmarshal_fields(
                type_views(types@),
                0,
                old(reader).buf@,
                old(reader).at as nat,
                depth as nat,
            ) == Err::<(Seq<ValueView>, nat), WireErrorView>(e@),
        },
    decreases MAX_DEPTH + 1 - depth, 5nat,
{
    let ghost ts = type_views(types@);
    let ghost buf = reader.buf@;
    let ghost total = unmarshal_fields(ts, 0, buf, reader.at as nat, depth as nat);
    let mut out: Vec<Value> = Vec::new();
    let mut i: usize = 0;
    proof {
        if let Ok((rest, end)) = total {
            assert(value_views(out@) + rest =~= rest);
        }
    }
    while i < types.len()
        invariant
            reader.wf(),
            reader.buf == old(reader).buf,
            buf == reader.buf@,
            depth <= MAX_DEPTH + 1,
            ts == type_views(types@),
            sound_types(ts),
            i <= types@.len(),
            i > 0 ==> old(reader).at < reader.at,
            old(reader).at <= reader.at,
            total == unmarshal_fields(ts, 0, buf, old(reader).at as nat, depth as nat),
            total == following(
                value_views(out@),
                unmarshal_fields(ts, i as int, buf, reader.at as nat, depth as nat),
            ),
        decreases types@.len() - i,
    {
        proof {
            assert(ts[i as int] == types@[i as int]@);
        }
        let ghost before = value_views(out@);
        let value = match decode_value(reader, &types[i], depth) {
            Ok(v) => v,
            Err(e) => {
                return Err(e);
            },
        };
        out.push(value);
        i = i + 1;
        proof {
            assert(value_views(out@) =~= before.push(value@));
            if let Ok((rest, end)) = unmarshal_fields(
                ts,
                i as int,
                buf,
                reader.at as nat,
                depth as nat,
            ) {
                assert(before + (seq![value@] + rest) =~= value_views(out@) + rest);
            }
        }
    }
    proof {
        assert(value_views(out@) + Seq::<ValueView>::empty() =~= value_views(out@));
    }
    Ok(out)
}

/// Unmarshal an array: the byte count, the element padding the count does
/// not include, then elements until exactly that many bytes are read. An
/// element that ends anywhere else is a disagreement about the layout, not
/// something to read on from.
pub fn decode_array<'a>(reader: &mut Reader<'a>, element: &Type, depth: usize) -> (r: Result<
    Value,
    WireError,
>)
    requires
        old(reader).wf(),
        depth <= MAX_DEPTH,
        sound_type(element@),
    ensures
        did_read(
            *old(reader),
            r,
            *final(reader),
            unmarshal_array(element@, old(reader).buf@, old(reader).at as nat, depth as nat),
        ),
        r is Ok ==> old(reader).at < final(reader).at,
    decreases MAX_DEPTH + 1 - depth, 2nat,
{
    if depth >= MAX_DEPTH {
        return Err(WireError::Depth);
    }
    let length = match reader.uint32() {
        Ok(n) => n as usize,
        Err(e) => {
            return Err(e);
        },
    };
    if length > MAX_ARRAY {
        return Err(WireError::ArrayTooLong(length));
    }
    match reader.align(element.alignment()) {
        Ok(()) => {},
        Err(e) => {
            return Err(e);
        },
    }
    if length > reader.buf.len() - reader.at {
        return Err(WireError::Truncated);
    }
    let end = reader.at + length;
    decode_elements(reader, element, end, depth)
}

/// The elements of an array, which take the bytes up to `end`.
fn decode_elements<'a>(reader: &mut Reader<'a>, element: &Type, end: usize, depth: usize) -> (r:
    Result<Value, WireError>)
    requires
        old(reader).wf(),
        old(reader).at <= end <= old(reader).buf@.len(),
        depth < MAX_DEPTH,
        sound_type(element@),
    ensures
        did_read(
            *old(reader),
            r,
            *final(reader),
            unmarshal_elements(
                element@,
                old(reader).buf@,
                old(reader).at as nat,
                end as nat,
                depth as nat,
            ),
        ),
        r is Ok ==> final(reader).at == end,
    decreases MAX_DEPTH + 1 - depth, 1nat,
{
    match element {
        Type::Byte => match reader.take(end - reader.at) {
            Ok(bytes) => Ok(Value::ByteArray(copy_bytes(bytes))),
            Err(e) => Err(e),
        },
        Type::DictEntry(key, entry) => {
            if !is_str(key) {
                return Err(WireError::Unsupported("dict keys that are not strings"));
            }
            match decode_entries(reader, entry, end, depth + 1) {
                Ok(entries) => {
                    let value = Value::Dict(entries);
                    proof {
                        lemma_value_view_containers(value);
                    }
                    Ok(value)
                },
                Err(e) => Err(e),
            }
        },
        _ => match decode_items(reader, element, end, depth + 1) {
            Ok(items) => {
                let value = Value::Array(items);
                proof {
                    lemma_value_view_containers(value);
                }
                Ok(value)
            },
            Err(e) => Err(e),
        },
    }
}

/// The items of an array up to `end`.
fn decode_items<'a>(reader: &mut Reader<'a>, element: &Type, end: usize, depth: usize) -> (r:
    Result<Vec<Value>, WireError>)
    requires
        old(reader).wf(),
        old(reader).at <= end <= old(reader).buf@.len(),
        depth <= MAX_DEPTH + 1,
        sound_type(element@),
    ensures
        final(reader).buf == old(reader).buf,
        final(reader).wf(),
        match r {
            Ok(items) => unmarshal_items(
                element@,
                old(reader).buf@,
                old(reader).at as nat,
                end as nat,
                depth as nat,
            ) == Ok::<(Seq<ValueView>, nat), WireErrorView>(
                (value_views(items@), final(reader).at as nat),
            ) && final(reader).at == end,
            Err(e) => unmarshal_items(
                element@,
                old(reader).buf@,
                old(reader).at as nat,
                end as nat,
                depth as nat,
            ) == Err::<(Seq<ValueView>, nat), WireErrorView>(e@),
        },
    decreases MAX_DEPTH + 1 - depth, 5nat,
{
    let ghost buf = reader.buf@;
    let ghost total = unmarshal_items(
        element@,
        buf,
        reader.at as nat,
        end as nat,
        depth as nat,
    );
    let mut out: Vec<Value> = Vec::new();
    proof {
        if let Ok((rest, stop)) = total {
            assert(value_views(out@) + rest =~= rest);
        }
    }
    while reader.at < end
        invariant
            reader.wf(),
            reader.buf == old(reader).buf,
            buf == reader.buf@,
            reader.at <= end <= buf.len(),
            depth <= MAX_DEPTH + 1,
            sound_type(element@),
            total == unmarshal_items(
                element@,
                buf,
                old(reader).at as nat,
                end as nat,
                depth as nat,
            ),
            total == following(
                value_views(out@),
                unmarshal_items(element@, buf, reader.at as nat, end as nat, depth as nat),
            ),
        decreases end - reader.at,
    {
        let ghost before = value_views(out@);
        let value = match decode_value(reader, element, depth) {
            Ok(v) => v,
            Err(e) => {
                return Err(e);
            },
        };
        if reader.at > end {
            return Err(WireError::Truncated);
        }
        out.push(value);
        proof {
            assert(value_views(out@) =~= before.push(value@));
            if let Ok((rest, stop)) = unmarshal_items(
                element@,
                buf,
                reader.at as nat,
                end as nat,
                depth as nat,
            ) {
                assert(before + (seq![value@] + rest) =~= value_views(out@) + rest);
            }
        }
    }
    proof {
        assert(value_views(out@) + Seq::<ValueView>::empty() =~= value_views(out@));
    }
    Ok(out)
}

/// The entries of a dict up to `end`, each on an 8-byte boundary.
fn decode_entries<'a>(reader: &mut Reader<'a>, entry: &Type, end: usize, depth: usize) -> (r:
    Result<Vec<(String, Value)>, WireError>)
    requires
        old(reader).wf(),
        old(reader).at <= end <= old(reader).buf@.len(),
        depth <= MAX_DEPTH + 1,
        sound_type(entry@),
    ensures
        final(reader).buf == old(reader).buf,
        final(reader).wf(),
        match r {
            Ok(entries) => unmarshal_entries(
                entry@,
                old(reader).buf@,
                old(reader).at as nat,
                end as nat,
                depth as nat,
            ) == Ok::<(Seq<(Seq<char>, ValueView)>, nat), WireErrorView>(
                (entry_views(entries@), final(reader).at as nat),
            ) && final(reader).at == end,
            Err(e) => unmarshal_entries(
                entry@,
                old(reader).buf@,
                old(reader).at as nat,
                end as nat,
                depth as nat,
            ) == Err::<(Seq<(Seq<char>, ValueView)>, nat), WireErrorView>(e@),
        },
    decreases MAX_DEPTH + 1 - depth, 5nat,
{
    let ghost buf = reader.buf@;
    let ghost total = unmarshal_entries(
        entry@,
        buf,
        reader.at as nat,
        end as nat,
        depth as nat,
    );
    let mut out: Vec<(String, Value)> = Vec::new();
    proof {
        if let Ok((rest, stop)) = total {
            assert(entry_views(out@) + rest =~= rest);
        }
    }
    while reader.at < end
        invariant
            reader.wf(),
            reader.buf == old(reader).buf,
            buf == reader.buf@,
            reader.at <= end <= buf.len(),
            depth <= MAX_DEPTH + 1,
            sound_type(entry@),
            total == unmarshal_entries(
                entry@,
                buf,
                old(reader).at as nat,
                end as nat,
                depth as nat,
            ),
            total == following(
                entry_views(out@),
                unmarshal_entries(entry@, buf, reader.at as nat, end as nat, depth as nat),
            ),
        decreases end - reader.at,
    {
        let ghost before = entry_views(out@);
        match reader.align(8) {
            Ok(()) => {},
            Err(e) => {
                return Err(e);
            },
        }
        let key = match reader.string() {
            Ok(s) => s,
            Err(e) => {
                return Err(e);
            },
        };
        let value = match decode_value(reader, entry, depth) {
            Ok(v) => v,
            Err(e) => {
                return Err(e);
            },
        };
        if reader.at > end {
            return Err(WireError::Truncated);
        }
        let ghost pair = (key@, value@);
        out.push((key, value));
        proof {
            assert(entry_views(out@) =~= before.push(pair));
            if let Ok((rest, stop)) = unmarshal_entries(
                entry@,
                buf,
                reader.at as nat,
                end as nat,
                depth as nat,
            ) {
                assert(before + (seq![pair] + rest) =~= entry_views(out@) + rest);
            }
        }
    }
    proof {
        assert(entry_views(out@) + Seq::<(Seq<char>, ValueView)>::empty() =~= entry_views(out@));
    }
    Ok(out)
}

/// Unmarshal `body` against `sig`, little-endian, with offset 0 taken to be
/// a multiple of 8 from the start of the message.
///
/// Strict: a value that runs past the end, padding that is not nul, an array
/// over the length limit, a string that is not nul-terminated UTF-8, a
/// boolean that is not 0 or 1, an object path the rules forbid and bytes left
/// over at the end are all errors.
pub fn decode(sig: &str, body: &[u8]) -> (r: Result<Vec<Value>, WireError>)
    ensures
        match r {
            Ok(values) => unmarshal(sig@, body@) == Ok::<Seq<ValueView>, WireErrorView>(
                value_views(values@),
            ),
            Err(e) => unmarshal(sig@, body@) == Err::<Seq<ValueView>, WireErrorView>(e@),
        },
{
    let types = match parse_signature(sig) {
        Ok(t) => t,
        Err(e) => {
            return Err(e);
        },
    };
    let mut reader = Reader::new(body);
    let out = match decode_fields(&mut reader, &types, 0) {
        Ok(v) => v,
        Err(e) => {
            return Err(e);
        },
    };
    if reader.at != body.len() {
        return Err(WireError::Trailing(body.len() - reader.at));
    }
    Ok(out)
}

} // verus!
