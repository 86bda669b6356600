//! What an error says is what it is of.

use vstd::prelude::*;

use crate::dbus_wire::describe::{debug_char, debug_text, wire_message};
use crate::dbus_wire::value::WireErrorView;
use crate::error::{
    comma_list, config_message, desktop_message, launch_message, shown_paths, ConfigErrorView,
    DesktopErrorView, LaunchErrorView,
};
use crate::text::{begins, decimal_digits, ends, lossy};

verus! {

/// Whether a text begins with one and ends in another.
pub open spec fn between(s: Seq<char>, head: Seq<char>, tail: Seq<char>) -> bool {
    head.len() + tail.len() <= s.len() && begins(s, head) && ends(s, tail)
}

proof fn lemma_between(head: Seq<char>, mid: Seq<char>, tail: Seq<char>)
    ensures
        between(head + mid + tail, head, tail),
        between(head + tail, head, tail),
        begins(head + tail, head),
        ends(head + tail, tail),
{
    let (s, t) = (head + mid + tail, head + tail);
    assert(s.take(head.len() as int) =~= head);
    assert(s.skip(s.len() - tail.len()) =~= tail);
    assert(t.take(head.len() as int) =~= head);
    assert(t.skip(t.len() - tail.len()) =~= tail);
}

/// An error of a configuration names the node it is of in quotes, and says
/// what is wrong with it in the words it was given.
pub proof fn an_error_names_its_node(
    node: Seq<char>,
    prop: Seq<char>,
    reason: Seq<char>,
    bytes: nat,
    max: nat,
    line: u32,
)
    ensures
        config_message(ConfigErrorView::UnknownNode(node)) == "unknown node `"@ + node + "`"@,
        between(
            config_message(ConfigErrorView::UnknownProperty { node, prop }),
            "node `"@ + node + "`"@,
            "`"@ + prop + "`"@,
        ),
        between(
            config_message(ConfigErrorView::BadArgument { node, reason }),
            "bad argument for `"@ + node + "`: "@,
            reason,
        ),
        begins(config_message(ConfigErrorView::Duplicate(node)), "`"@ + node + "`"@),
        between(
            config_message(ConfigErrorView::TooLarge { bytes, max }),
            "configuration is "@ + decimal_digits(bytes),
            decimal_digits(max),
        ),
        between(
            config_message(ConfigErrorView::TooDeep { line, max }),
            "`{` nested deeper than "@ + decimal_digits(max),
            " at line "@ + decimal_digits(line as nat),
        ),
        between(
            config_message(ConfigErrorView::Tangled { line }),
            "too much for the KDL parser from line "@ + decimal_digits(line as nat),
            " on"@,
        ),
{
    reveal_strlit("`");
    reveal_strlit("` does not accept property `");
    reveal_strlit("` given more than once");
    let middle = "` does not accept property `"@;
    let s = config_message(ConfigErrorView::UnknownProperty { node, prop });
    assert(s =~= ("node `"@ + node + "`"@) + middle.subrange(1, middle.len() - 1) + ("`"@ + prop
        + "`"@));
    lemma_between("node `"@ + node + "`"@, middle.subrange(1, middle.len() - 1), "`"@ + prop + "`"@);
    lemma_between("bad argument for `"@ + node + "`: "@, Seq::empty(), reason);
    let more = "` given more than once"@;
    assert(config_message(ConfigErrorView::Duplicate(node)) =~= ("`"@ + node + "`"@) + more.skip(
        1,
    ));
    lemma_between("`"@ + node + "`"@, Seq::empty(), more.skip(1));
    lemma_between(
        "configuration is "@ + decimal_digits(bytes),
        " bytes; bubbler parses at most "@,
        decimal_digits(max),
    );
    let tail = " at line "@ + decimal_digits(line as nat);
    lemma_between("`{` nested deeper than "@ + decimal_digits(max), Seq::empty(), tail);
    assert(config_message(ConfigErrorView::TooDeep { line, max }) =~= ("`{` nested deeper than "@
        + decimal_digits(max)) + tail);
    lemma_between(
        "too much for the KDL parser from line "@ + decimal_digits(line as nat),
        Seq::empty(),
        " on"@,
    );
}

/// An error of a launch names the grant it is of, and ends in the words it was
/// given.
pub proof fn an_error_ends_in_its_words(service: Seq<char>, words: Seq<char>)
    ensures
        between(
            launch_message(LaunchErrorView::BadValue { service, reason: words }),
            "service `"@ + service + "`: "@,
            words,
        ),
        ends(launch_message(LaunchErrorView::A11y(words)), words),
        ends(launch_message(LaunchErrorView::Network(words)), words),
        ends(launch_message(LaunchErrorView::Protocol(words)), words),
{
    lemma_between("service `"@ + service + "`: "@, Seq::empty(), words);
    lemma_between("finding the accessibility bus: "@, Seq::empty(), words);
    lemma_between("connecting the sandbox network namespace: "@, Seq::empty(), words);
    lemma_between("exec channel: "@, Seq::empty(), words);
}

/// A list names every item, in order, with a comma and a space between each
/// two.
pub proof fn a_list_names_every_item(list: Seq<Seq<char>>, item: Seq<char>)
    ensures
        comma_list(Seq::empty(), 0).len() == 0,
        comma_list(seq![item], 1) == item,
        list.len() > 0 ==> comma_list(list.push(item), list.len() as int + 1) == comma_list(
            list,
            list.len() as int,
        ) + ", "@ + item,
{
    lemma_list_prefix(list, item, list.len() as int);
}

proof fn lemma_list_prefix(list: Seq<Seq<char>>, item: Seq<char>, n: int)
    requires
        0 <= n <= list.len(),
    ensures
        comma_list(list.push(item), n) == comma_list(list, n),
    decreases n,
{
    if n > 0 {
        lemma_list_prefix(list, item, n - 1);
    }
}

/// An error of an entry names what it is of: the instance, the command and how
/// many run it, the path, and whose a path is.
pub proof fn an_error_of_an_entry_names_it(
    name: Seq<char>,
    path: Seq<u8>,
    list: Seq<Seq<char>>,
    dirs: Seq<Seq<u8>>,
)
    ensures
        begins(desktop_message(DesktopErrorView::NoCommand(name)), "instance `"@ + name),
        desktop_message(DesktopErrorView::HintNotFound { name, dirs }) == "no `"@ + name
            + "` in "@ + comma_list(shown_paths(dirs), dirs.len() as int),
        begins(
            desktop_message(DesktopErrorView::NotFound { command: name }),
            "no desktop entry runs `"@ + name,
        ),
        begins(
            desktop_message(DesktopErrorView::Ambiguous { command: name, candidates: list }),
            decimal_digits(list.len()) + " desktop entries run `"@ + name + "`: "@ + comma_list(
                list,
                list.len() as int,
            ),
        ),
        begins(
            desktop_message(DesktopErrorView::Generated(name)),
            "it is bubbler's own entry for instance `"@ + name,
        ),
        begins(desktop_message(DesktopErrorView::NotUtf8(path)), lossy(path)),
        begins(desktop_message(DesktopErrorView::Foreign(path)), lossy(path)),
        begins(
            desktop_message(DesktopErrorView::OtherInstance { path, instance: name }),
            lossy(path) + " is the entry of instance `"@ + name,
        ),
        between(
            desktop_message(DesktopErrorView::NotGenerated { instance: name, dir: path }),
            "no desktop entry of instance `"@ + name,
            lossy(path),
        ),
{
    let none = Seq::<char>::empty();
    lemma_between(
        "instance `"@ + name,
        none,
        "` has no `command` node, so there is no application to find an entry for; name one with `desktop \"<name>.desktop\"`"@,
    );
    lemma_between(
        "no desktop entry runs `"@ + name,
        none,
        "`; name one with `desktop \"<name>.desktop\"` in the instance's config.kdl"@,
    );
    lemma_between(
        decimal_digits(list.len()) + " desktop entries run `"@ + name + "`: "@ + comma_list(
            list,
            list.len() as int,
        ),
        none,
        "; name one with `desktop \"<name>.desktop\"` in the instance's config.kdl"@,
    );
    lemma_between(
        "it is bubbler's own entry for instance `"@ + name,
        none,
        "`, not an application's"@,
    );
    lemma_between(lossy(path), none, " is not UTF-8, so it is not a desktop entry"@);
    lemma_between(lossy(path), none, " exists and is not bubbler's; move it aside first"@);
    lemma_between(
        lossy(path) + " is the entry of instance `"@ + name,
        none,
        "`; remove that one first"@,
    );
    lemma_between("no desktop entry of instance `"@ + name, "` in "@, lossy(path));
}

/// An error on the wire says the numbers, the names and the words it is of, as
/// they are.
pub proof fn an_error_on_the_wire_says_what_it_is_of(
    a: nat,
    b: nat,
    n: u32,
    flag: u8,
    text: Seq<char>,
    words: Seq<char>,
    c: char,
)
    ensures
        ends(wire_message(WireErrorView::Io(words)), words),
        begins(wire_message(WireErrorView::TooManyFds(a)), decimal_digits(a)),
        wire_message(WireErrorView::Remote { name: text, message: words }) == text + ": "@ + words,
        begins(wire_message(WireErrorView::BadSignature(text)), debug_text(text)),
        wire_message(WireErrorView::Arity { expected: a, got: b }) == "the signature describes "@
            + decimal_digits(a) + " values and "@ + decimal_digits(b) + " were given"@,
        wire_message(WireErrorView::TypeMismatch { expected: c, got: words })
            == "the signature says "@ + debug_char(c) + " and "@ + words + " was given"@,
        ends(wire_message(WireErrorView::Unsupported(words)), words),
        begins(wire_message(WireErrorView::Trailing(a)), decimal_digits(a)),
        begins(wire_message(WireErrorView::ArrayTooLong(a)), "an array of "@ + decimal_digits(a)),
        begins(
            wire_message(WireErrorView::MessageTooLong(a)),
            "a message of "@ + decimal_digits(a),
        ),
        begins(wire_message(WireErrorView::BadObjectPath(text)), debug_text(text)),
        begins(wire_message(WireErrorView::BadBool(n)), decimal_digits(n as nat)),
        begins(
            wire_message(WireErrorView::Endianness(flag)),
            "a message with endianness flag "@ + decimal_digits(flag as nat),
        ),
        ends(wire_message(WireErrorView::BadMessage(words)), words),
        begins(
            wire_message(WireErrorView::FdIndex(n)),
            "a value names file descriptor "@ + decimal_digits(n as nat),
        ),
        ends(wire_message(WireErrorView::Auth(text)), debug_text(text)),
{
    let none = Seq::<char>::empty();
    lemma_between("talking to the bus: "@, none, words);
    lemma_between(
        decimal_digits(a),
        none,
        " file descriptors is more than one message may carry"@,
    );
    lemma_between(debug_text(text), none, " is not a valid type signature"@);
    lemma_between("unsupported: "@, none, words);
    lemma_between(decimal_digits(a), none, " bytes left over after the values"@);
    lemma_between(
        "an array of "@ + decimal_digits(a),
        none,
        " bytes is longer than the specification allows"@,
    );
    lemma_between(
        "a message of "@ + decimal_digits(a),
        none,
        " bytes is longer than the specification allows"@,
    );
    lemma_between(debug_text(text), none, " is not a valid object path"@);
    lemma_between(decimal_digits(n as nat), none, " is not a boolean"@);
    lemma_between(
        "a message with endianness flag "@ + decimal_digits(flag as nat),
        none,
        ", which this client does not read"@,
    );
    lemma_between("the bus sent "@, none, words);
    lemma_between(
        "a value names file descriptor "@ + decimal_digits(n as nat),
        none,
        ", which was not given to the call"@,
    );
    lemma_between(
        "the bus answered the authentication handshake with "@,
        none,
        debug_text(text),
    );
}

} // verus!
