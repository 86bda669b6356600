//! Type signatures: the text of a list of single complete types.

use vstd::prelude::*;

use crate::dbus_wire::value::{
    basic_type, lemma_type_view_containers, type_view, type_views, Type, TypeView, WireError,
    WireErrorView, MAX_CONTAINER_DEPTH, MAX_SIGNATURE,
};
use crate::text::{chars_of, lemma_utf8_joined, utf8};

verus! {

/// The type a single code stands for, for the codes that stand alone.
pub open spec fn single_type(code: char) -> Option<TypeView> {
    if code == 'y' {
        Some(TypeView::Byte)
    } else if code == 'b' {
        Some(TypeView::Bool)
    } else if code == 'n' {
        Some(TypeView::Int16)
    } else if code == 'q' {
        Some(TypeView::Uint16)
    } else if code == 'i' {
        Some(TypeView::Int32)
    } else if code == 'u' {
        Some(TypeView::Uint32)
    } else if code == 'x' {
        Some(TypeView::Int64)
    } else if code == 't' {
        Some(TypeView::Uint64)
    } else if code == 'd' {
        Some(TypeView::Double)
    } else if code == 's' {
        Some(TypeView::Str)
    } else if code == 'o' {
        Some(TypeView::ObjectPath)
    } else if code == 'g' {
        Some(TypeView::Signature)
    } else if code == 'h' {
        Some(TypeView::Fd)
    } else if code == 'v' {
        Some(TypeView::Variant)
    } else {
        None
    }
}

/// Whether the character at `at` is there and is `c`.
pub open spec fn char_at(s: Seq<char>, at: int, c: char) -> bool {
    0 <= at < s.len() && s[at] == c
}

/// The single complete type that starts at `at`, `arrays` arrays and
/// `structs` structs or dict entries deep, and where it ends. A type always
/// ends after it starts and inside the text; the tests that say so carry the
/// recursion.
pub open spec fn read_type(s: Seq<char>, at: int, arrays: nat, structs: nat) -> Option<
    (TypeView, int),
>
    decreases s.len() - at, 0nat,
{
    if at < 0 || at >= s.len() {
        None
    } else if s[at] == 'a' {
        if arrays >= MAX_CONTAINER_DEPTH {
            None
        } else if char_at(s, at + 1, '{') {
            if structs >= MAX_CONTAINER_DEPTH {
                None
            } else {
                match read_type(s, at + 2, arrays + 1, structs + 1) {
                    None => None,
                    Some((key, mid)) => if !basic_type(key) || !(at < mid <= s.len()) {
                        None
                    } else {
                        match read_type(s, mid, arrays + 1, structs + 1) {
                            None => None,
                            Some((value, end)) => if char_at(s, end, '}') {
                                Some(
                                    (
                                        TypeView::Array(
                                            Box::new(
                                                TypeView::DictEntry(Box::new(key), Box::new(value)),
                                            ),
                                        ),
                                        end + 1,
                                    ),
                                )
                            } else {
                                None
                            },
                        }
                    },
                }
            }
        } else {
            match read_type(s, at + 1, arrays + 1, structs) {
                None => None,
                Some((element, end)) => Some((TypeView::Array(Box::new(element)), end)),
            }
        }
    } else if s[at] == '(' {
        if structs >= MAX_CONTAINER_DEPTH {
            None
        } else {
            match read_fields(s, at + 1, arrays, structs + 1) {
                None => None,
                Some((fields, end)) => if fields.len() == 0 {
                    None
                } else {
                    Some((TypeView::Struct(fields), end))
                },
            }
        }
    } else {
        match single_type(s[at]) {
            None => None,
            Some(t) => Some((t, at + 1)),
        }
    }
}

/// The field types that start at `at`, up to and over the closing
/// parenthesis.
pub open spec fn read_fields(s: Seq<char>, at: int, arrays: nat, structs: nat) -> Option<
    (Seq<TypeView>, int),
>
    decreases s.len() - at, 1nat,
{
    if at < 0 || at >= s.len() {
        None
    } else if s[at] == ')' {
        Some((Seq::empty(), at + 1))
    } else {
        match read_type(s, at, arrays, structs) {
            None => None,
            Some((first, mid)) => if !(at < mid <= s.len()) {
                None
            } else {
                match read_fields(s, mid, arrays, structs) {
                    None => None,
                    Some((rest, end)) => Some((seq![first] + rest, end)),
                }
            },
        }
    }
}

/// The single complete types from `at` to the end.
pub open spec fn read_types(s: Seq<char>, at: int) -> Option<Seq<TypeView>>
    decreases s.len() - at,
{
    if at >= s.len() {
        Some(Seq::empty())
    } else {
        match read_type(s, at, 0, 0) {
            None => None,
            Some((first, mid)) => if !(at < mid <= s.len()) {
                None
            } else {
                match read_types(s, mid) {
                    None => None,
                    Some(rest) => Some(seq![first] + rest),
                }
            },
        }
    }
}

/// The single complete types a signature lists, if it is a valid one: at
/// most 255 bytes, every container complete and within the nesting limits,
/// no empty struct, and dict entries only as the element of an array, with a
/// basic key.
pub open spec fn signature_types(sig: Seq<char>) -> Option<Seq<TypeView>> {
    if utf8(sig).len() > MAX_SIGNATURE {
        None
    } else {
        read_types(sig, 0)
    }
}

/// Whether every struct of a type has a field.
pub open spec fn sound_type(t: TypeView) -> bool
    decreases t,
{
    match t {
        TypeView::Array(element) => sound_type(*element),
        TypeView::Struct(fields) => fields.len() > 0 && (forall|i: int|
            0 <= i < fields.len() ==> sound_type(#[trigger] fields[i])),
        TypeView::DictEntry(key, value) => sound_type(*key) && sound_type(*value),
        _ => true,
    }
}

/// Whether every type of a list is sound.
pub open spec fn sound_types(types: Seq<TypeView>) -> bool {
    forall|i: int| 0 <= i < types.len() ==> sound_type(#[trigger] types[i])
}

/// A type that was read ends after it starts, inside the text, and is sound.
pub proof fn lemma_read_type(s: Seq<char>, at: int, arrays: nat, structs: nat)
    ensures
        read_type(s, at, arrays, structs) matches Some((t, end)) ==> at < end <= s.len()
            && sound_type(t),
    decreases s.len() - at, 0nat,
{
    reveal_with_fuel(sound_type, 3);
    if 0 <= at < s.len() {
        if s[at] == 'a' {
            if arrays < MAX_CONTAINER_DEPTH {
                if char_at(s, at + 1, '{') {
                    if structs < MAX_CONTAINER_DEPTH {
                        lemma_read_type(s, at + 2, arrays + 1, structs + 1);
                        if let Some((_, mid)) = read_type(s, at + 2, arrays + 1, structs + 1) {
                            lemma_read_type(s, mid, arrays + 1, structs + 1);
                        }
                    }
                } else {
                    lemma_read_type(s, at + 1, arrays + 1, structs);
                }
            }
        } else if s[at] == '(' {
            if structs < MAX_CONTAINER_DEPTH {
                lemma_read_fields(s, at + 1, arrays, structs + 1);
            }
        }
    }
}

/// Field types that were read end after they start, inside the text, and
/// are sound.
pub proof fn lemma_read_fields(s: Seq<char>, at: int, arrays: nat, structs: nat)
    ensures
        read_fields(s, at, arrays, structs) matches Some((ts, end)) ==> at < end <= s.len()
            && sound_types(ts),
    decreases s.len() - at, 1nat,
{
    if 0 <= at < s.len() && s[at] != ')' {
        lemma_read_type(s, at, arrays, structs);
        if let Some((first, mid)) = read_type(s, at, arrays, structs) {
            lemma_read_fields(s, mid, arrays, structs);
        }
    }
}

/// The types a signature lists are sound.
pub proof fn lemma_read_types(s: Seq<char>, at: int)
    requires
        0 <= at,
    ensures
        read_types(s, at) matches Some(ts) ==> sound_types(ts),
    decreases s.len() - at,
{
    if at < s.len() {
        lemma_read_type(s, at, 0, 0);
        if let Some((first, mid)) = read_type(s, at, 0, 0) {
            lemma_read_types(s, mid);
        }
    }
}

fn single(code: char) -> (r: Option<Type>)
    ensures
        r is Some <==> single_type(code) is Some,
        r matches Some(t) ==> single_type(code) == Some(t@),
{
    match code {
        'y' => Some(Type::Byte),
        'b' => Some(Type::Bool),
        'n' => Some(Type::Int16),
        'q' => Some(Type::Uint16),
        'i' => Some(Type::Int32),
        'u' => Some(Type::Uint32),
        'x' => Some(Type::Int64),
        't' => Some(Type::Uint64),
        'd' => Some(Type::Double),
        's' => Some(Type::Str),
        'o' => Some(Type::ObjectPath),
        'g' => Some(Type::Signature),
        'h' => Some(Type::Fd),
        'v' => Some(Type::Variant),
        _ => None,
    }
}

/// Parse one single complete type at `at`, tracking how deep in arrays and
/// in structs it already is.
pub fn parse_type(s: &[char], at: &mut usize, arrays: usize, structs: usize) -> (r: Option<Type>)
    requires
        *old(at) <= s@.len(),
        arrays <= MAX_CONTAINER_DEPTH,
        structs <= MAX_CONTAINER_DEPTH,
    ensures
        match r {
            Some(t) => read_type(s@, *old(at) as int, arrays as nat, structs as nat) == Some(
                (t@, *final(at) as int),
            ) && *old(at) < *final(at) <= s@.len(),
            None => read_type(s@, *old(at) as int, arrays as nat, structs as nat) is None,
        },
    decreases s@.len() - *old(at),
{
    broadcast use lemma_type_view_containers;

    let ghost start = *at as int;
    proof {
        lemma_read_type(s@, start, arrays as nat, structs as nat);
        reveal_with_fuel(type_view, 3);
    }
    if *at >= s.len() {
        return None;
    }
    let code = s[*at];
    *at = *at + 1;
    if code == 'a' {
        if arrays >= MAX_CONTAINER_DEPTH {
            return None;
        }
        // A dict entry is only ever an array's element type, so it is read
        // here and nowhere else.
        if *at < s.len() && s[*at] == '{' {
            if structs >= MAX_CONTAINER_DEPTH {
                return None;
            }
            *at = *at + 1;
            let key = match parse_type(s, at, arrays + 1, structs + 1) {
                Some(t) => t,
                None => {
                    return None;
                },
            };
            if !key.is_basic() {
                return None;
            }
            let value = match parse_type(s, at, arrays + 1, structs + 1) {
                Some(t) => t,
                None => {
                    return None;
                },
            };
            if *at >= s.len() || s[*at] != '}' {
                return None;
            }
            *at = *at + 1;
            Some(Type::Array(Box::new(Type::DictEntry(Box::new(key), Box::new(value)))))
        } else {
            match parse_type(s, at, arrays + 1, structs) {
                Some(t) => Some(Type::Array(Box::new(t))),
                None => None,
            }
        }
    } else if code == '(' {
        if structs >= MAX_CONTAINER_DEPTH {
            return None;
        }
        let ghost fields_at = *at as int;
        let mut fields: Vec<Type> = Vec::new();
        while *at < s.len() && s[*at] != ')'
            invariant
                start < fields_at <= *at <= s@.len(),
                structs < MAX_CONTAINER_DEPTH,
                arrays <= MAX_CONTAINER_DEPTH,
                0 <= start < s@.len(),
                s@[start] == '(',
                fields_at == start + 1,
                *old(at) == start,
                read_fields(s@, fields_at, arrays as nat, (structs + 1) as nat) == (match read_fields(
                    s@,
                    *at as int,
                    arrays as nat,
                    (structs + 1) as nat,
                ) {
                    None => None,
                    Some((rest, end)) => Some((type_views(fields@) + rest, end)),
                }),
            decreases s@.len() - *at,
        {
            let field = match parse_type(s, at, arrays, structs + 1) {
                Some(t) => t,
                None => {
                    return None;
                },
            };
            let ghost before = type_views(fields@);
            fields.push(field);
            proof {
                assert(type_views(fields@) =~= before.push(field@));
                if let Some((rest, end)) = read_fields(
                    s@,
                    *at as int,
                    arrays as nat,
                    (structs + 1) as nat,
                ) {
                    assert(before + (seq![field@] + rest) =~= type_views(fields@) + rest);
                }
            }
        }
        if *at >= s.len() {
            return None;
        }
        *at = *at + 1;
        proof {
            assert(type_views(fields@) + Seq::<TypeView>::empty() =~= type_views(fields@));
        }
        if fields.len() == 0 {
            return None;
        }
        Some(Type::Struct(fields))
    } else {
        single(code)
    }
}

/// Parse a signature into the single complete types it lists.
///
/// Rejects everything "Valid Signatures" rejects: an array with no element
/// type, unbalanced parentheses, an empty struct, a dict entry outside an
/// array or with other than two fields or a container key, nesting past the
/// limits, and a signature over 255 bytes.
pub fn parse_signature(sig: &str) -> (r: Result<Vec<Type>, WireError>)
    ensures
        match r {
            Ok(types) => signature_types(sig@) == Some(type_views(types@)) && sound_types(
                type_views(types@),
            ),
            Err(e) => signature_types(sig@) is None && e@ == WireErrorView::BadSignature(sig@),
        },
{
    if sig.as_bytes().len() > MAX_SIGNATURE {
        return Err(WireError::BadSignature(sig.to_owned()));
    }
    let chars = chars_of(sig);
    let mut at: usize = 0;
    let mut out: Vec<Type> = Vec::new();
    proof {
        lemma_read_types(sig@, 0);
        if let Some(rest) = read_types(sig@, 0) {
            assert(type_views(out@) + rest =~= rest);
        }
    }
    while at < chars.len()
        invariant
            chars@ == sig@,
            at <= chars@.len(),
            read_types(sig@, 0) == (match read_types(sig@, at as int) {
                None => None,
                Some(rest) => Some(type_views(out@) + rest),
            }),
            utf8(sig@).len() <= MAX_SIGNATURE,
            read_types(sig@, 0) matches Some(ts) ==> sound_types(ts),
        decreases chars@.len() - at,
    {
        let t = match parse_type(&chars, &mut at, 0, 0) {
            Some(t) => t,
            None => {
                return Err(WireError::BadSignature(sig.to_owned()));
            },
        };
        let ghost before = type_views(out@);
        out.push(t);
        proof {
            assert(type_views(out@) =~= before.push(t@));
            if let Some(rest) = read_types(sig@, at as int) {
                assert(before + (seq![t@] + rest) =~= type_views(out@) + rest);
            }
        }
    }
    proof {
        assert(type_views(out@) + Seq::<TypeView>::empty() =~= type_views(out@));
    }
    Ok(out)
}

/// What was read of a text is read of any text that begins with it.
proof fn lemma_type_before(a: Seq<char>, b: Seq<char>, at: int, arrays: nat, structs: nat)
    ensures
        read_type(a, at, arrays, structs) is Some ==> read_type(a + b, at, arrays, structs)
            == read_type(a, at, arrays, structs),
    decreases a.len() - at, 0nat,
{
    let s = a + b;
    lemma_read_type(a, at, arrays, structs);
    if 0 <= at < a.len() && read_type(a, at, arrays, structs) is Some {
        assert(s[at] == a[at]);
        if a[at] == 'a' {
            lemma_read_type(a, at + 1, arrays + 1, structs);
            assert(at + 1 < a.len() ==> s[at + 1] == a[at + 1]);
            if char_at(a, at + 1, '{') {
                lemma_type_before(a, b, at + 2, arrays + 1, structs + 1);
                lemma_read_type(a, at + 2, arrays + 1, structs + 1);
                if let Some((_, mid)) = read_type(a, at + 2, arrays + 1, structs + 1) {
                    lemma_type_before(a, b, mid, arrays + 1, structs + 1);
                    lemma_read_type(a, mid, arrays + 1, structs + 1);
                    if let Some((_, end)) = read_type(a, mid, arrays + 1, structs + 1) {
                        assert(char_at(a, end, '}') ==> s[end] == a[end]);
                    }
                }
            } else {
                lemma_type_before(a, b, at + 1, arrays + 1, structs);
            }
        } else if a[at] == '(' {
            lemma_fields_before(a, b, at + 1, arrays, structs + 1);
        }
    }
}

proof fn lemma_fields_before(a: Seq<char>, b: Seq<char>, at: int, arrays: nat, structs: nat)
    ensures
        read_fields(a, at, arrays, structs) is Some ==> read_fields(a + b, at, arrays, structs)
            == read_fields(a, at, arrays, structs),
    decreases a.len() - at, 1nat,
{
    let s = a + b;
    if 0 <= at < a.len() && read_fields(a, at, arrays, structs) is Some {
        assert(s[at] == a[at]);
        if a[at] != ')' {
            lemma_type_before(a, b, at, arrays, structs);
            lemma_read_type(a, at, arrays, structs);
            if let Some((_, mid)) = read_type(a, at, arrays, structs) {
                lemma_fields_before(a, b, mid, arrays, structs);
            }
        }
    }
}

/// What is read of a text is read of it behind any other.
proof fn lemma_type_behind(a: Seq<char>, b: Seq<char>, at: int, arrays: nat, structs: nat)
    requires
        0 <= at,
    ensures
        read_type(b, at, arrays, structs) matches Some((t, end)) ==> read_type(
            a + b,
            a.len() + at,
            arrays,
            structs,
        ) == Some((t, a.len() + end)),
    decreases b.len() - at, 0nat,
{
    let s = a + b;
    let n = a.len() as int;
    lemma_read_type(b, at, arrays, structs);
    if at < b.len() && read_type(b, at, arrays, structs) is Some {
        assert(s[n + at] == b[at]);
        if b[at] == 'a' {
            assert(at + 1 < b.len() ==> s[n + at + 1] == b[at + 1]);
            if char_at(b, at + 1, '{') {
                lemma_type_behind(a, b, at + 2, arrays + 1, structs + 1);
                lemma_read_type(b, at + 2, arrays + 1, structs + 1);
                if let Some((_, mid)) = read_type(b, at + 2, arrays + 1, structs + 1) {
                    lemma_type_behind(a, b, mid, arrays + 1, structs + 1);
                    lemma_read_type(b, mid, arrays + 1, structs + 1);
                    if let Some((_, end)) = read_type(b, mid, arrays + 1, structs + 1) {
                        assert(char_at(b, end, '}') ==> s[n + end] == b[end]);
                    }
                }
            } else {
                lemma_type_behind(a, b, at + 1, arrays + 1, structs);
            }
        } else if b[at] == '(' {
            lemma_fields_behind(a, b, at + 1, arrays, structs + 1);
        }
    }
}

proof fn lemma_fields_behind(a: Seq<char>, b: Seq<char>, at: int, arrays: nat, structs: nat)
    requires
        0 <= at,
    ensures
        read_fields(b, at, arrays, structs) matches Some((ts, end)) ==> read_fields(
            a + b,
            a.len() + at,
            arrays,
            structs,
        ) == Some((ts, a.len() + end)),
    decreases b.len() - at, 1nat,
{
    let s = a + b;
    let n = a.len() as int;
    if at < b.len() && read_fields(b, at, arrays, structs) is Some {
        assert(s[n + at] == b[at]);
        if b[at] != ')' {
            lemma_type_behind(a, b, at, arrays, structs);
            lemma_read_type(b, at, arrays, structs);
            if let Some((_, mid)) = read_type(b, at, arrays, structs) {
                lemma_fields_behind(a, b, mid, arrays, structs);
            }
        }
    }
}

proof fn lemma_types_behind(a: Seq<char>, b: Seq<char>, at: int)
    requires
        0 <= at,
        read_types(b, at) is Some,
    ensures
        read_types(a + b, a.len() + at) == read_types(b, at),
    decreases b.len() - at,
{
    if at < b.len() {
        lemma_type_behind(a, b, at, 0, 0);
        lemma_read_type(b, at, 0, 0);
        if let Some((_, mid)) = read_type(b, at, 0, 0) {
            lemma_types_behind(a, b, mid);
        }
    }
}

proof fn lemma_types_joined(a: Seq<char>, b: Seq<char>, at: int)
    requires
        0 <= at <= a.len(),
        read_types(a, at) is Some,
        read_types(b, 0) is Some,
    ensures
        read_types(a + b, at) == Some(read_types(a, at)->Some_0 + read_types(b, 0)->Some_0),
    decreases a.len() - at,
{
    let y = read_types(b, 0)->Some_0;
    if at < a.len() {
        lemma_type_before(a, b, at, 0, 0);
        lemma_read_type(a, at, 0, 0);
        if let Some((first, mid)) = read_type(a, at, 0, 0) {
            lemma_types_joined(a, b, mid);
            let rest = read_types(a, mid)->Some_0;
            assert(seq![first] + (rest + y) =~= (seq![first] + rest) + y);
        }
    } else {
        lemma_types_behind(a, b, 0);
        assert(Seq::<TypeView>::empty() + y =~= y);
    }
}

/// The types of two signatures written one after the other are the types of
/// the first and then those of the second, as long as the two together are
/// not too long for a signature; where they are, they are none.
pub proof fn signatures_joined_list_the_types_of_both(a: Seq<char>, b: Seq<char>)
    requires
        signature_types(a) is Some,
        signature_types(b) is Some,
    ensures
        utf8(a + b).len() == utf8(a).len() + utf8(b).len(),
        utf8(a).len() + utf8(b).len() <= MAX_SIGNATURE ==> signature_types(a + b) == Some(
            signature_types(a)->Some_0 + signature_types(b)->Some_0,
        ),
        utf8(a).len() + utf8(b).len() > MAX_SIGNATURE ==> signature_types(a + b) is None,
{
    lemma_utf8_joined(a, b);
    lemma_types_joined(a, b, 0);
}

} // verus!
