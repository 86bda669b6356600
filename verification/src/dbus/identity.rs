//! Application ids and the identity file of a sandbox.

use vstd::prelude::*;
use vstd::utf8::*;

use crate::dbus_wire::encode::word_char;
use crate::split::{lemma_split_concat, lemma_split_plain, part_views, split_chars, split_on};
use crate::text::{bytes_of, chars_of, joined, text_of, utf8};

verus! {

/// Longest application id, in bytes.
pub const MAX_APP_ID: usize = 255;

/// Whether a character may stand in an element of an application id; `-`
/// may in the last one only.
pub open spec fn id_char(c: char, last: bool) -> bool {
    word_char(c) || (last && c == '-')
}

/// Whether an element of an application id is well formed.
pub open spec fn id_element(element: Seq<char>, last: bool) -> bool {
    element.len() > 0 && forall|i: int|
        0 <= i < element.len() ==> id_char(#[trigger] element[i], last)
}

/// Whether a text is an application id xdg-desktop-portal accepts: at least
/// two `.`-separated non-empty elements of `[A-Za-z0-9_]`, `-` allowed only
/// in the last one, at most 255 bytes.
pub open spec fn valid_app_id(id: Seq<char>) -> bool {
    let elements = split_on(id, '.');
    &&& utf8(id).len() <= MAX_APP_ID
    &&& elements.len() >= 2
    &&& forall|i: int|
        0 <= i < elements.len() ==> id_element(#[trigger] elements[i], i == elements.len() - 1)
}

fn is_id_element(element: &[char], last: bool) -> (r: bool)
    ensures
        r == id_element(element@, last),
{
    if element.len() == 0 {
        return false;
    }
    let mut i: usize = 0;
    while i < element.len()
        invariant
            i <= element@.len(),
            forall|j: int| 0 <= j < i ==> id_char(#[trigger] element@[j], last),
        decreases element@.len() - i,
    {
        let c = element[i];
        let word = (c >= 'A' && c <= 'Z') || (c >= 'a' && c <= 'z') || (c >= '0' && c <= '9') || c
            == '_';
        if !(word || (last && c == '-')) {
            assert(!id_char(element@[i as int], last));
            return false;
        }
        i = i + 1;
    }
    true
}

/// Whether `id` is an application id xdg-desktop-portal accepts: at least two
/// `.`-separated non-empty elements of `[A-Za-z0-9_]`, `-` allowed only in
/// the last one, at most 255 bytes. An id it rejects makes the portal refuse
/// every operation of the sandbox.
pub fn is_valid_app_id(id: &str) -> (r: bool)
    ensures
        r == valid_app_id(id@),
{
    if id.as_bytes().len() > MAX_APP_ID {
        return false;
    }
    let chars = chars_of(id);
    let elements = split_chars(&chars, '.');
    let ghost all = split_on(id@, '.');
    if elements.len() < 2 {
        return false;
    }
    let mut i: usize = 0;
    while i < elements.len()
        invariant
            part_views(elements@) == all,
            all == split_on(id@, '.'),
            elements@.len() >= 2,
            utf8(id@).len() <= MAX_APP_ID,
            i <= elements@.len(),
            forall|j: int|
                0 <= j < i ==> id_element(#[trigger] all[j], j == all.len() - 1),
        decreases elements@.len() - i,
    {
        assert(all[i as int] == elements@[i as int]@);
        if !is_id_element(&elements[i], i == elements.len() - 1) {
            assert(!id_element(all[i as int], i == all.len() - 1));
            return false;
        }
        i = i + 1;
    }
    true
}

/// A name with every `.` made `_`.
pub open spec fn undotted(name: Seq<char>) -> Seq<char> {
    name.map_values(
        |c: char|
            if c == '.' {
                '_'
            } else {
                c
            },
    )
}

/// The last element of an instance's application id.
pub open spec fn id_tail(instance: Seq<char>) -> Seq<char> {
    let tail = undotted(instance);
    if tail.len() > 0 && '0' <= tail[0] && tail[0] <= '9' {
        seq!['_'] + tail
    } else {
        tail
    }
}

/// Application id of an instance.
pub open spec fn instance_app_id(instance: Seq<char>) -> Seq<char> {
    "org.bubbler."@ + id_tail(instance)
}

/// Application id of an instance: `org.bubbler.` and the instance name as one
/// trailing element. Every `.` in the name becomes `_`, because only the last
/// element of an id may hold `-`, and a leading digit is prefixed, which
/// flatpak's own name check rejects even though the portal's does not.
pub fn app_id(instance: &str) -> (r: String)
    ensures
        r@ == instance_app_id(instance@),
{
    let mut chars = chars_of(instance);
    let mut i: usize = 0;
    while i < chars.len()
        invariant
            i <= chars@.len(),
            chars@.len() == instance@.len(),
            forall|j: int| 0 <= j < i ==> chars@[j] == undotted(instance@)[j],
            forall|j: int| i <= j < chars@.len() ==> chars@[j] == instance@[j],
        decreases chars@.len() - i,
    {
        if chars[i] == '.' {
            chars[i] = '_';
        }
        i = i + 1;
    }
    assert(chars@ =~= undotted(instance@));
    let mut tail = String::new();
    if chars.len() > 0 && chars[0] >= '0' && chars[0] <= '9' {
        tail.push('_');
    }
    let ghost head = tail@;
    crate::text::push_text(&mut tail, &text_of(&chars));
    assert(tail@ =~= id_tail(instance@));
    joined("org.bubbler.", &tail)
}

/// `bubbler-<instance>`: the `instance-id` portals look a sandbox up by.
/// Namespaced because the `.flatpak` directory is shared with flatpak, whose
/// own instance ids are plain numbers.
pub fn flatpak_instance_id(instance: &str) -> (r: String)
    ensures
        r@ == "bubbler-"@ + instance@,
{
    joined("bubbler-", instance)
}

/// The text of the identity file of a sandbox.
pub open spec fn identity_text(instance: Seq<char>, portals: bool) -> Seq<char> {
    "[Application]\nname="@ + instance_app_id(instance) + "\n"@ + if portals {
        "\n[Instance]\ninstance-id="@ + ("bubbler-"@ + instance) + "\n"@
    } else {
        Seq::empty()
    }
}

/// The `/.flatpak-info` a sandbox is identified by. Without `portals` the
/// proxy still gets the `[Application]` section, which is what makes
/// `xdg-dbus-proxy` treat the peer as a sandboxed app.
pub fn flatpak_info(instance: &str, portals: bool) -> (r: Vec<u8>)
    ensures
        r@ == utf8(identity_text(instance@, portals)),
{
    let mut s = joined(&joined("[Application]\nname=", &app_id(instance)), "\n");
    if portals {
        let section = joined(
            &joined("\n[Instance]\ninstance-id=", &flatpak_instance_id(instance)),
            "\n",
        );
        crate::text::push_text(&mut s, &section);
    }
    assert(s@ =~= identity_text(instance@, portals));
    bytes_of(&s)
}

/// Whether a text is made of what an instance name may hold:
/// `[A-Za-z0-9._-]`, and is not empty.
pub open spec fn instance_name(name: Seq<char>) -> bool {
    name.len() > 0 && forall|i: int|
        0 <= i < name.len() ==> word_char(#[trigger] name[i]) || name[i] == '.' || name[i] == '-'
}

/// However an instance is named, its application id is one the portal
/// accepts, as long as it is not too long.
pub proof fn an_instance_has_a_valid_app_id(instance: Seq<char>)
    requires
        instance_name(instance),
        instance_app_id(instance).len() <= MAX_APP_ID,
    ensures
        valid_app_id(instance_app_id(instance)),
{
    let id = instance_app_id(instance);
    let tail = id_tail(instance);
    reveal_strlit("org.bubbler.");
    let org = seq!['o', 'r', 'g'];
    let bubbler = seq!['b', 'u', 'b', 'b', 'l', 'e', 'r'];
    assert forall|i: int| 0 <= i < tail.len() implies #[trigger] tail[i] != '.' && id_char(
        tail[i],
        true,
    ) by {
        let plain = undotted(instance);
        let k = if tail.len() > plain.len() {
            i - 1
        } else {
            i
        };
        if k >= 0 {
            assert(plain[k] == tail[i]);
            assert(word_char(instance[k]) || instance[k] == '.' || instance[k] == '-');
        }
    }
    assert(tail.len() > 0) by {
        assert(undotted(instance).len() > 0);
    }
    assert(id =~= org.push('.') + (bubbler.push('.') + tail));
    lemma_split_concat(org, '.', bubbler.push('.') + tail);
    lemma_split_concat(bubbler, '.', tail);
    lemma_split_plain(org, '.');
    lemma_split_plain(bubbler, '.');
    lemma_split_plain(tail, '.');
    let elements = split_on(id, '.');
    assert(elements =~= seq![org, bubbler, tail]);
    assert forall|i: int| 0 <= i < id.len() implies '\0' <= #[trigger] id[i] <= '\u{7f}' by {
        if i >= 12 {
            assert(id[i] == tail[i - 12]);
        }
    }
    is_ascii_chars_encode_utf8(id);
    assert(id_element(elements[0], false));
    assert(id_element(elements[1], false));
    assert(id_element(elements[2], true));
}

} // verus!
