//! The values and types of the wire format, their errors, and the
//! mathematical models the contracts speak of.

use vstd::prelude::*;

verus! {

/// "Arrays have a maximum length defined to be 2 to the 26th power or
/// 67108864 (64 MiB). Implementations must not send or accept arrays
/// exceeding this length."
pub const MAX_ARRAY: usize = 67108864;

/// "The maximum length of a message, including header, header alignment
/// padding, and body is 2 to the 27th power or 134217728 (128 MiB)."
pub const MAX_MESSAGE: usize = 134217728;

/// "The maximum length of a signature is 255."
pub const MAX_SIGNATURE: usize = 255;

/// "The maximum depth of container type nesting is 32 array type codes and 32
/// open parentheses", so 64 in total. Counted across variants too: a
/// variant's signature is read from the message, and without a running total
/// a reply could nest them until the decoder's recursion ran out of stack.
pub const MAX_DEPTH: usize = 64;

/// Nesting of one kind (arrays, or structs and dict entries) the
/// specification allows.
pub const MAX_CONTAINER_DEPTH: usize = 32;

/// What went wrong on the bus or on the wire. Everything but
/// [`WireError::Remote`] leaves the connection in a state that cannot be
/// reasoned about, so the session is to be dropped rather than reused.
#[allow(inconsistent_fields)]
#[derive(Debug, PartialEq, Eq)]
pub enum WireError {
    /// The bus socket could not be opened or connected to.
    Connect {
        /// Socket the connection was attempted on.
        path: Vec<u8>,
        /// What the kernel said.
        reason: String,
    },
    /// Reading from or writing to a connected bus failed.
    Io(String),
    /// The bus closed the connection.
    Closed,
    /// The bus did not answer in time.
    Timeout,
    /// The bus answered the authentication handshake with something the
    /// protocol does not allow there.
    Auth(String),
    /// The bus refused `EXTERNAL` authentication; the payload is the
    /// mechanism list it offered instead, which may be empty.
    AuthRejected(String),
    /// The bus did not agree to descriptor passing, so a call carrying
    /// descriptors cannot be made on this connection.
    NoFdPassing,
    /// More descriptors than one message may carry.
    TooManyFds(usize),
    /// The method call reached the far side and failed there.
    Remote {
        /// D-Bus error name, e.g. `org.freedesktop.DBus.Error.AccessDenied`.
        name: String,
        /// Human-readable text the far side attached, empty if it sent none.
        message: String,
    },
    /// A type signature is not a list of single complete types.
    BadSignature(String),
    /// A signature and a list of values disagree on how many values there are.
    Arity {
        /// Values the signature describes.
        expected: usize,
        /// Values that were given.
        got: usize,
    },
    /// A value does not have the type its signature gives it.
    TypeMismatch {
        /// Type code the signature asks for.
        expected: char,
        /// What was given instead.
        got: &'static str,
    },
    /// A shape the specification allows that this client does not model.
    Unsupported(&'static str),
    /// A value runs past the end of the block it is in.
    Truncated,
    /// Alignment padding that is not nul.
    Padding,
    /// The signature left bytes unread.
    Trailing(usize),
    /// An array declares more bytes than the specification allows.
    ArrayTooLong(usize),
    /// A message is longer than the specification allows.
    MessageTooLong(usize),
    /// A string is not nul-terminated, hides a nul where a C reader would
    /// stop early, or is not UTF-8.
    BadString,
    /// An object path does not meet the rules in "Valid Object Paths".
    BadObjectPath(String),
    /// A boolean other than 0 or 1: "everything else is invalid".
    BadBool(u32),
    /// Containers nested deeper than the specification allows.
    Depth,
    /// A message in an endianness this client does not read.
    Endianness(u8),
    /// A message that is malformed in a way of its own.
    BadMessage(&'static str),
    /// A `Fd` value names a descriptor that was not handed to the call.
    FdIndex(u32),
    /// A call with no destination.
    NoDestination,
}

/// Model of a [`WireError`].
#[allow(inconsistent_fields)]
pub enum WireErrorView {
    Connect { path: Seq<u8>, reason: Seq<char> },
    Io(Seq<char>),
    Closed,
    Timeout,
    Auth(Seq<char>),
    AuthRejected(Seq<char>),
    NoFdPassing,
    TooManyFds(nat),
    Remote { name: Seq<char>, message: Seq<char> },
    BadSignature(Seq<char>),
    Arity { expected: nat, got: nat },
    TypeMismatch { expected: char, got: Seq<char> },
    Unsupported(Seq<char>),
    Truncated,
    Padding,
    Trailing(nat),
    ArrayTooLong(nat),
    MessageTooLong(nat),
    BadString,
    BadObjectPath(Seq<char>),
    BadBool(u32),
    Depth,
    Endianness(u8),
    BadMessage(Seq<char>),
    FdIndex(u32),
    NoDestination,
}

impl View for WireError {
    type V = WireErrorView;

    open spec fn view(&self) -> WireErrorView {
        match self {
            WireError::Connect { path, reason } => WireErrorView::Connect {
                path: path@,
                reason: reason@,
            },
            WireError::Io(s) => WireErrorView::Io(s@),
            WireError::Closed => WireErrorView::Closed,
            WireError::Timeout => WireErrorView::Timeout,
            WireError::Auth(s) => WireErrorView::Auth(s@),
            WireError::AuthRejected(s) => WireErrorView::AuthRejected(s@),
            WireError::NoFdPassing => WireErrorView::NoFdPassing,
            WireError::TooManyFds(n) => WireErrorView::TooManyFds(*n as nat),
            WireError::Remote { name, message } => WireErrorView::Remote {
                name: name@,
                message: message@,
            },
            WireError::BadSignature(s) => WireErrorView::BadSignature(s@),
            WireError::Arity { expected, got } => WireErrorView::Arity {
                expected: *expected as nat,
                got: *got as nat,
            },
            WireError::TypeMismatch { expected, got } => WireErrorView::TypeMismatch {
                expected: *expected,
                got: got@,
            },
            WireError::Unsupported(s) => WireErrorView::Unsupported(s@),
            WireError::Truncated => WireErrorView::Truncated,
            WireError::Padding => WireErrorView::Padding,
            WireError::Trailing(n) => WireErrorView::Trailing(*n as nat),
            WireError::ArrayTooLong(n) => WireErrorView::ArrayTooLong(*n as nat),
            WireError::MessageTooLong(n) => WireErrorView::MessageTooLong(*n as nat),
            WireError::BadString => WireErrorView::BadString,
            WireError::BadObjectPath(s) => WireErrorView::BadObjectPath(s@),
            WireError::BadBool(n) => WireErrorView::BadBool(*n),
            WireError::Depth => WireErrorView::Depth,
            WireError::Endianness(b) => WireErrorView::Endianness(*b),
            WireError::BadMessage(s) => WireErrorView::BadMessage(s@),
            WireError::FdIndex(n) => WireErrorView::FdIndex(*n),
            WireError::NoDestination => WireErrorView::NoDestination,
        }
    }
}

/// One value on the wire. The model covers the whole D-Bus type system
/// except dict keys that are not strings, which nothing this client talks to
/// uses; see [`WireError::Unsupported`].
///
/// `Fd` carries no descriptor: on the wire a `h` is only an index into the
/// descriptors that travel beside the message.
#[derive(Debug, PartialEq, Eq)]
pub enum Value {
    /// `y`: unsigned 8-bit integer.
    Byte(u8),
    /// `b`: boolean, marshalled as 32 bits holding 0 or 1.
    Bool(bool),
    /// `n`: signed 16-bit integer.
    Int16(i16),
    /// `q`: unsigned 16-bit integer.
    Uint16(u16),
    /// `i`: signed 32-bit integer.
    Int32(i32),
    /// `u`: unsigned 32-bit integer.
    Uint32(u32),
    /// `x`: signed 64-bit integer.
    Int64(i64),
    /// `t`: unsigned 64-bit integer.
    Uint64(u64),
    /// `d`: IEEE 754 double, as its 64 bits.
    Double(u64),
    /// `s`: UTF-8 string with no nul in it.
    Str(String),
    /// `o`: object path, e.g. `/org/freedesktop/portal/documents`.
    ObjectPath(String),
    /// `g`: a type signature carried as a value.
    Signature(String),
    /// `h`: index into the descriptors sent with the message.
    Fd(u32),
    /// `ay`: array of bytes, kept as bytes rather than as a value each.
    ByteArray(Vec<u8>),
    /// `a<type>`: array of values that all have the element type.
    Array(Vec<Value>),
    /// `(...)`: struct, one value per field.
    Struct(Vec<Value>),
    /// `a{s<type>}`: array of dict entries with string keys.
    Dict(Vec<(String, Value)>),
    /// `v`: a value that carries its own type.
    Variant(Box<Value>),
}

/// Model of a [`Value`].
pub enum ValueView {
    Byte(u8),
    Bool(bool),
    Int16(i16),
    Uint16(u16),
    Int32(i32),
    Uint32(u32),
    Int64(i64),
    Uint64(u64),
    Double(u64),
    Str(Seq<char>),
    ObjectPath(Seq<char>),
    Signature(Seq<char>),
    Fd(u32),
    ByteArray(Seq<u8>),
    Array(Seq<ValueView>),
    Struct(Seq<ValueView>),
    Dict(Seq<(Seq<char>, ValueView)>),
    Variant(Box<ValueView>),
}

/// The model of a value.
pub open spec fn value_view(v: Value) -> ValueView
    decreases v,
{
    match v {
        Value::Byte(n) => ValueView::Byte(n),
        Value::Bool(n) => ValueView::Bool(n),
        Value::Int16(n) => ValueView::Int16(n),
        Value::Uint16(n) => ValueView::Uint16(n),
        Value::Int32(n) => ValueView::Int32(n),
        Value::Uint32(n) => ValueView::Uint32(n),
        Value::Int64(n) => ValueView::Int64(n),
        Value::Uint64(n) => ValueView::Uint64(n),
        Value::Double(n) => ValueView::Double(n),
        Value::Str(s) => ValueView::Str(s@),
        Value::ObjectPath(s) => ValueView::ObjectPath(s@),
        Value::Signature(s) => ValueView::Signature(s@),
        Value::Fd(n) => ValueView::Fd(n),
        Value::ByteArray(b) => ValueView::ByteArray(b@),
        Value::Array(items) => ValueView::Array(
            Seq::new(
                items@.len(),
                |i: int|
                    if 0 <= i < items@.len() {
                        value_view(items[i])
                    } else {
                        arbitrary()
                    },
            ),
        ),
        Value::Struct(items) => ValueView::Struct(
            Seq::new(
                items@.len(),
                |i: int|
                    if 0 <= i < items@.len() {
                        value_view(items[i])
                    } else {
                        arbitrary()
                    },
            ),
        ),
        Value::Dict(entries) => ValueView::Dict(
            Seq::new(
                entries@.len(),
                |i: int|
                    if 0 <= i < entries@.len() {
                        (entries[i].0@, value_view(entries[i].1))
                    } else {
                        arbitrary()
                    },
            ),
        ),
        Value::Variant(inner) => ValueView::Variant(Box::new(value_view(*inner))),
    }
}

impl View for Value {
    type V = ValueView;

    open spec fn view(&self) -> ValueView {
        value_view(*self)
    }
}

/// The models of a list of values.
pub open spec fn value_views(values: Seq<Value>) -> Seq<ValueView> {
    Seq::new(values.len(), |i: int| value_view(values[i]))
}

/// The models of a list of dict entries.
pub open spec fn entry_views(entries: Seq<(String, Value)>) -> Seq<(Seq<char>, ValueView)> {
    Seq::new(entries.len(), |i: int| (entries[i].0@, value_view(entries[i].1)))
}

/// What a container's model holds, over the lists its parts are stored in.
pub broadcast proof fn lemma_value_view_containers(v: Value)
    ensures
        #[trigger] value_view(v) == match v {
            Value::Array(items) => ValueView::Array(value_views(items@)),
            Value::Struct(items) => ValueView::Struct(value_views(items@)),
            Value::Dict(entries) => ValueView::Dict(entry_views(entries@)),
            _ => value_view(v),
        },
{
    match v {
        Value::Array(items) => {
            assert(value_view(v)->Array_0 =~= value_views(items@));
        },
        Value::Struct(items) => {
            assert(value_view(v)->Struct_0 =~= value_views(items@));
        },
        Value::Dict(entries) => {
            assert(value_view(v)->Dict_0 =~= entry_views(entries@));
        },
        _ => {},
    }
}

/// What a value is, for an error that has to name it.
pub open spec fn kind_name(v: ValueView) -> Seq<char> {
    match v {
        ValueView::Byte(_) => "a byte"@,
        ValueView::Bool(_) => "a boolean"@,
        ValueView::Int16(_) => "an int16"@,
        ValueView::Uint16(_) => "a uint16"@,
        ValueView::Int32(_) => "an int32"@,
        ValueView::Uint32(_) => "a uint32"@,
        ValueView::Int64(_) => "an int64"@,
        ValueView::Uint64(_) => "a uint64"@,
        ValueView::Double(_) => "a double"@,
        ValueView::Str(_) => "a string"@,
        ValueView::ObjectPath(_) => "an object path"@,
        ValueView::Signature(_) => "a signature"@,
        ValueView::Fd(_) => "a file descriptor index"@,
        ValueView::ByteArray(_) => "a byte array"@,
        ValueView::Array(_) => "an array"@,
        ValueView::Struct(_) => "a struct"@,
        ValueView::Dict(_) => "a dict"@,
        ValueView::Variant(_) => "a variant"@,
    }
}

impl Value {
    /// What this value is, for an error that has to name it.
    pub fn kind(&self) -> (r: &'static str)
        ensures
            r@ == kind_name(self@),
    {
        match self {
            Value::Byte(_) => "a byte",
            Value::Bool(_) => "a boolean",
            Value::Int16(_) => "an int16",
            Value::Uint16(_) => "a uint16",
            Value::Int32(_) => "an int32",
            Value::Uint32(_) => "a uint32",
            Value::Int64(_) => "an int64",
            Value::Uint64(_) => "a uint64",
            Value::Double(_) => "a double",
            Value::Str(_) => "a string",
            Value::ObjectPath(_) => "an object path",
            Value::Signature(_) => "a signature",
            Value::Fd(_) => "a file descriptor index",
            Value::ByteArray(_) => "a byte array",
            Value::Array(_) => "an array",
            Value::Struct(_) => "a struct",
            Value::Dict(_) => "a dict",
            Value::Variant(_) => "a variant",
        }
    }

    /// A copy of this value.
    pub fn duplicate(&self) -> (r: Value)
        ensures
            r@ == self@,
        decreases self,
    {
        broadcast use lemma_value_view_containers;

        match self {
            Value::Byte(n) => Value::Byte(*n),
            Value::Bool(n) => Value::Bool(*n),
            Value::Int16(n) => Value::Int16(*n),
            Value::Uint16(n) => Value::Uint16(*n),
            Value::Int32(n) => Value::Int32(*n),
            Value::Uint32(n) => Value::Uint32(*n),
            Value::Int64(n) => Value::Int64(*n),
            Value::Uint64(n) => Value::Uint64(*n),
            Value::Double(n) => Value::Double(*n),
            Value::Str(s) => Value::Str(s.clone()),
            Value::ObjectPath(s) => Value::ObjectPath(s.clone()),
            Value::Signature(s) => Value::Signature(s.clone()),
            Value::Fd(n) => Value::Fd(*n),
            Value::ByteArray(b) => Value::ByteArray(crate::text::copy_bytes(b)),
            Value::Array(items) => {
                let mut out: Vec<Value> = Vec::new();
                let mut i: usize = 0;
                while i < items.len()
                    invariant
                        *self == Value::Array(*items),
                        i <= items@.len(),
                        value_views(out@) == value_views(items@).take(i as int),
                    decreases items@.len() - i,
                {
                    proof {
                        assert(decreases_to!(*self => (*self)->Array_0));
                        assert(decreases_to!(*items => items[i as int]));
                    }
                    let ghost before = value_views(out@);
                    let item = items[i].duplicate();
                    out.push(item);
                    i = i + 1;
                    proof {
                        assert(value_views(out@) =~= before.push(item@));
                        assert(value_views(items@).take(i as int) =~= before.push(value_views(items@)[i - 1]));
                    }
                }
                proof {
                    assert(value_views(out@) =~= value_views(items@));
                }
                Value::Array(out)
            },
            Value::Struct(items) => {
                let mut out: Vec<Value> = Vec::new();
                let mut i: usize = 0;
                while i < items.len()
                    invariant
                        *self == Value::Struct(*items),
                        i <= items@.len(),
                        value_views(out@) == value_views(items@).take(i as int),
                    decreases items@.len() - i,
                {
                    proof {
                        assert(decreases_to!(*self => (*self)->Struct_0));
                        assert(decreases_to!(*items => items[i as int]));
                    }
                    let ghost before = value_views(out@);
                    let item = items[i].duplicate();
                    out.push(item);
                    i = i + 1;
                    proof {
                        assert(value_views(out@) =~= before.push(item@));
                        assert(value_views(items@).take(i as int) =~= before.push(value_views(items@)[i - 1]));
                    }
                }
                proof {
                    assert(value_views(out@) =~= value_views(items@));
                }
                Value::Struct(out)
            },
            Value::Dict(entries) => {
                let mut out: Vec<(String, Value)> = Vec::new();
                let mut i: usize = 0;
                while i < entries.len()
                    invariant
                        *self == Value::Dict(*entries),
                        i <= entries@.len(),
                        entry_views(out@) == entry_views(entries@).take(i as int),
                    decreases entries@.len() - i,
                {
                    proof {
                        assert(decreases_to!(*self => (*self)->Dict_0));
                        assert(decreases_to!(*entries => entries[i as int]));
                    }
                    let ghost before = entry_views(out@);
                    let item = (entries[i].0.clone(), entries[i].1.duplicate());
                    out.push(item);
                    i = i + 1;
                    proof {
                        assert(entry_views(out@) =~= before.push((item.0@, item.1@)));
                        assert(entry_views(entries@).take(i as int) =~= before.push(entry_views(entries@)[i - 1]));
                    }
                }
                proof {
                    assert(entry_views(out@) =~= entry_views(entries@));
                }
                Value::Dict(out)
            },
            Value::Variant(inner) => Value::Variant(Box::new(inner.duplicate())),
        }
    }
}

impl Clone for Value {
    fn clone(&self) -> (r: Value)
        ensures
            r@ == self@,
    {
        self.duplicate()
    }
}

/// One single complete type, parsed out of a signature.
#[derive(Debug, PartialEq, Eq)]
pub enum Type {
    Byte,
    Bool,
    Int16,
    Uint16,
    Int32,
    Uint32,
    Int64,
    Uint64,
    Double,
    Str,
    ObjectPath,
    Signature,
    Fd,
    Array(Box<Type>),
    Struct(Vec<Type>),
    DictEntry(Box<Type>, Box<Type>),
    Variant,
}

/// Model of a [`Type`].
pub enum TypeView {
    Byte,
    Bool,
    Int16,
    Uint16,
    Int32,
    Uint32,
    Int64,
    Uint64,
    Double,
    Str,
    ObjectPath,
    Signature,
    Fd,
    Array(Box<TypeView>),
    Struct(Seq<TypeView>),
    DictEntry(Box<TypeView>, Box<TypeView>),
    Variant,
}

/// The model of a type.
pub open spec fn type_view(t: Type) -> TypeView
    decreases t,
{
    match t {
        Type::Byte => TypeView::Byte,
        Type::Bool => TypeView::Bool,
        Type::Int16 => TypeView::Int16,
        Type::Uint16 => TypeView::Uint16,
        Type::Int32 => TypeView::Int32,
        Type::Uint32 => TypeView::Uint32,
        Type::Int64 => TypeView::Int64,
        Type::Uint64 => TypeView::Uint64,
        Type::Double => TypeView::Double,
        Type::Str => TypeView::Str,
        Type::ObjectPath => TypeView::ObjectPath,
        Type::Signature => TypeView::Signature,
        Type::Fd => TypeView::Fd,
        Type::Array(element) => TypeView::Array(Box::new(type_view(*element))),
        Type::Struct(fields) => TypeView::Struct(
            Seq::new(
                fields@.len(),
                |i: int|
                    if 0 <= i < fields@.len() {
                        type_view(fields[i])
                    } else {
                        arbitrary()
                    },
            ),
        ),
        Type::DictEntry(key, value) => TypeView::DictEntry(
            Box::new(type_view(*key)),
            Box::new(type_view(*value)),
        ),
        Type::Variant => TypeView::Variant,
    }
}

impl View for Type {
    type V = TypeView;

    open spec fn view(&self) -> TypeView {
        type_view(*self)
    }
}

/// The models of a list of types.
pub open spec fn type_views(types: Seq<Type>) -> Seq<TypeView> {
    Seq::new(types.len(), |i: int| type_view(types[i]))
}

/// What a struct type's model holds, over the list its fields are stored in.
pub broadcast proof fn lemma_type_view_containers(t: Type)
    ensures
        #[trigger] type_view(t) == match t {
            Type::Struct(fields) => TypeView::Struct(type_views(fields@)),
            _ => type_view(t),
        },
{
    match t {
        Type::Struct(fields) => {
            assert(type_view(t)->Struct_0 =~= type_views(fields@));
        },
        _ => {},
    }
}

/// Alignment in bytes, from "Summary of D-Bus marshalling". Arrays align
/// like the length that starts them, structs and dict entries to 8 whatever
/// they hold, and a variant like the signature that starts it, which needs no
/// padding at all.
pub open spec fn alignment_of(t: TypeView) -> nat {
    match t {
        TypeView::Byte | TypeView::Signature | TypeView::Variant => 1,
        TypeView::Int16 | TypeView::Uint16 => 2,
        TypeView::Bool | TypeView::Int32 | TypeView::Uint32 | TypeView::Fd | TypeView::Str
        | TypeView::ObjectPath | TypeView::Array(_) => 4,
        TypeView::Int64 | TypeView::Uint64 | TypeView::Double | TypeView::Struct(_)
        | TypeView::DictEntry(_, _) => 8,
    }
}

/// The type code that opens a type.
pub open spec fn code_of(t: TypeView) -> char {
    match t {
        TypeView::Byte => 'y',
        TypeView::Bool => 'b',
        TypeView::Int16 => 'n',
        TypeView::Uint16 => 'q',
        TypeView::Int32 => 'i',
        TypeView::Uint32 => 'u',
        TypeView::Int64 => 'x',
        TypeView::Uint64 => 't',
        TypeView::Double => 'd',
        TypeView::Str => 's',
        TypeView::ObjectPath => 'o',
        TypeView::Signature => 'g',
        TypeView::Fd => 'h',
        TypeView::Array(_) => 'a',
        TypeView::Struct(_) => '(',
        TypeView::DictEntry(_, _) => '{',
        TypeView::Variant => 'v',
    }
}

/// Whether this is a basic type, which is all a dict entry's key may be.
pub open spec fn basic_type(t: TypeView) -> bool {
    match t {
        TypeView::Array(_) | TypeView::Struct(_) | TypeView::DictEntry(_, _)
        | TypeView::Variant => false,
        _ => true,
    }
}

impl Type {
    /// Alignment in bytes.
    pub fn alignment(&self) -> (r: usize)
        ensures
            r == alignment_of(self@),
    {
        match self {
            Type::Byte | Type::Signature | Type::Variant => 1,
            Type::Int16 | Type::Uint16 => 2,
            Type::Bool | Type::Int32 | Type::Uint32 | Type::Fd | Type::Str | Type::ObjectPath
            | Type::Array(_) => 4,
            Type::Int64 | Type::Uint64 | Type::Double | Type::Struct(_) | Type::DictEntry(_, _) => 8,
        }
    }

    /// The type code that opens this type, for an error that has to name it.
    pub fn code(&self) -> (r: char)
        ensures
            r == code_of(self@),
    {
        match self {
            Type::Byte => 'y',
            Type::Bool => 'b',
            Type::Int16 => 'n',
            Type::Uint16 => 'q',
            Type::Int32 => 'i',
            Type::Uint32 => 'u',
            Type::Int64 => 'x',
            Type::Uint64 => 't',
            Type::Double => 'd',
            Type::Str => 's',
            Type::ObjectPath => 'o',
            Type::Signature => 'g',
            Type::Fd => 'h',
            Type::Array(_) => 'a',
            Type::Struct(_) => '(',
            Type::DictEntry(_, _) => '{',
            Type::Variant => 'v',
        }
    }

    /// Whether this is a basic type, which is all a dict entry's key may be.
    pub fn is_basic(&self) -> (r: bool)
        ensures
            r == basic_type(self@),
    {
        match self {
            Type::Array(_) | Type::Struct(_) | Type::DictEntry(_, _) | Type::Variant => false,
            _ => true,
        }
    }
}

} // verus!
