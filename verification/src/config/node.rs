//! What every node parser is written with: the errors that name a node, and
//! a walk over its entries.

use vstd::prelude::*;

use crate::config::document::{entries_view, EntryView, Node, NodeView, Scalar};
use crate::error::{ConfigError, ConfigErrorView};
use crate::text::{chars_of, joined, outcome};

verus! {

/// An ASCII letter.
pub open spec fn letter(c: char) -> bool {
    ('A' <= c && c <= 'Z') || ('a' <= c && c <= 'z')
}

/// An ASCII digit.
pub open spec fn digit(c: char) -> bool {
    '0' <= c && c <= '9'
}

/// Whether a character is an ASCII letter.
pub fn is_letter(c: char) -> (r: bool)
    ensures
        r == letter(c),
{
    (c >= 'A' && c <= 'Z') || (c >= 'a' && c <= 'z')
}

/// Whether a character is an ASCII digit.
pub fn is_digit(c: char) -> (r: bool)
    ensures
        r == digit(c),
{
    c >= '0' && c <= '9'
}

/// An argument of a node with the wrong shape or value.
pub open spec fn bad_node(node: NodeView, reason: Seq<char>) -> ConfigErrorView {
    ConfigErrorView::BadArgument { node: node.name, reason }
}

/// A property a node does not accept.
pub open spec fn unknown_property(node: NodeView, prop: Seq<char>) -> ConfigErrorView {
    ConfigErrorView::UnknownProperty { node: node.name, prop }
}

/// A property written twice.
pub open spec fn repeated_property(node: NodeView, prop: Seq<char>) -> ConfigErrorView {
    ConfigErrorView::Duplicate(node.name + " "@ + prop)
}

/// An argument of a node with the wrong shape or value.
pub fn bad(node: &Node, reason: &str) -> (r: ConfigError)
    ensures
        r@ == bad_node(node@, reason@),
{
    ConfigError::BadArgument { node: node.name.clone(), reason: reason.to_owned() }
}

/// A property a node does not accept.
pub fn unknown_prop(node: &Node, prop: &str) -> (r: ConfigError)
    ensures
        r@ == unknown_property(node@, prop@),
{
    ConfigError::UnknownProperty { node: node.name.clone(), prop: prop.to_owned() }
}

/// A property written twice.
pub fn repeated_prop(node: &Node, prop: &str) -> (r: ConfigError)
    ensures
        r@ == repeated_property(node@, prop@),
{
    ConfigError::Duplicate(joined(&joined(&node.name, " "), prop))
}

/// The items from `i` on, each taken in by `step`, until one is refused.
pub open spec fn fold<S, T>(
    items: Seq<T>,
    i: int,
    state: S,
    step: spec_fn(S, T) -> Result<S, ConfigErrorView>,
) -> Result<S, ConfigErrorView>
    decreases items.len() - i,
{
    if i < 0 || i >= items.len() {
        Ok(state)
    } else {
        match step(state, items[i]) {
            Err(e) => Err(e),
            Ok(next) => fold(items, i + 1, next, step),
        }
    }
}

/// KDL type annotations are syntax that is not interpreted, so they must not
/// pass silently.
pub open spec fn type_fault(node: NodeView) -> Option<ConfigErrorView> {
    if node.typed || exists|i: int| 0 <= i < node.entries.len() && (#[trigger] node.entries[i]).typed {
        Some(bad_node(node, "type annotations are not supported"@))
    } else {
        None
    }
}

/// A node that takes no arguments and no properties.
pub open spec fn argument_fault(node: NodeView) -> Option<ConfigErrorView> {
    if node.entries.len() == 0 {
        None
    } else {
        match node.entries[0].name {
            Some(prop) => Some(unknown_property(node, prop)),
            None => Some(bad_node(node, "takes no arguments"@)),
        }
    }
}

/// A node that takes no children.
pub open spec fn children_fault(node: NodeView) -> Option<ConfigErrorView> {
    if node.children is Some {
        Some(bad_node(node, "takes no children"@))
    } else {
        None
    }
}

/// A node that takes nothing at all.
pub open spec fn flag_fault(node: NodeView) -> Option<ConfigErrorView> {
    match argument_fault(node) {
        Some(e) => Some(e),
        None => children_fault(node),
    }
}

/// The name of the first property from `i` on.
pub open spec fn first_property(entries: Seq<EntryView>, i: int) -> Option<Seq<char>>
    decreases entries.len() - i,
{
    if i < 0 || i >= entries.len() {
        None
    } else {
        match entries[i].name {
            Some(name) => Some(name),
            None => first_property(entries, i + 1),
        }
    }
}

/// The one string argument of a node.
pub open spec fn one_string(node: NodeView) -> Result<Seq<char>, ConfigErrorView> {
    match first_property(node.entries, 0) {
        Some(prop) => Err(unknown_property(node, prop)),
        None => if node.entries.len() == 1 && node.entries[0].value is Text {
            Ok(node.entries[0].value->Text_0)
        } else {
            Err(bad_node(node, "expects exactly one string argument"@))
        },
    }
}

/// The one string argument of a node that takes no children.
pub open spec fn only_string(node: NodeView) -> Result<Seq<char>, ConfigErrorView> {
    match one_string(node) {
        Err(e) => Err(e),
        Ok(s) => match children_fault(node) {
            Some(e) => Err(e),
            None => Ok(s),
        },
    }
}

/// What a check leaves behind.
pub open spec fn fault(r: Result<(), ConfigError>) -> Option<ConfigErrorView> {
    match r {
        Ok(()) => None,
        Err(e) => Some(e@),
    }
}

/// Refuse type annotations.
pub fn reject_types(node: &Node) -> (r: Result<(), ConfigError>)
    ensures
        fault(r) == type_fault(node@),
{
    if node.typed {
        return Err(bad(node, "type annotations are not supported"));
    }
    let ghost all = entries_view(node.entries@);
    let mut i: usize = 0;
    while i < node.entries.len()
        invariant
            !node.typed,
            all == entries_view(node.entries@),
            i <= node.entries@.len(),
            forall|j: int| 0 <= j < i ==> !(#[trigger] all[j]).typed,
        decreases node.entries@.len() - i,
    {
        assert(all[i as int] == node.entries@[i as int]@);
        if node.entries[i].typed {
            assert(node@.entries[i as int].typed);
            return Err(bad(node, "type annotations are not supported"));
        }
        i = i + 1;
    }
    Ok(())
}

/// Refuse arguments and properties.
pub fn reject_arguments(node: &Node) -> (r: Result<(), ConfigError>)
    ensures
        fault(r) == argument_fault(node@),
{
    if node.entries.len() == 0 {
        return Ok(());
    }
    assert(node@.entries[0] == node.entries@[0]@);
    match &node.entries[0].name {
        Some(prop) => Err(unknown_prop(node, prop)),
        None => Err(bad(node, "takes no arguments")),
    }
}

/// Refuse children.
pub fn reject_children(node: &Node) -> (r: Result<(), ConfigError>)
    ensures
        fault(r) == children_fault(node@),
{
    if node.children.is_some() {
        return Err(bad(node, "takes no children"));
    }
    Ok(())
}

/// Flag-style services take no arguments, properties or children.
pub fn reject_entries(node: &Node) -> (r: Result<(), ConfigError>)
    ensures
        fault(r) == flag_fault(node@),
{
    match reject_arguments(node) {
        Ok(()) => reject_children(node),
        Err(e) => Err(e),
    }
}

/// The one string argument of a node.
pub fn one_string_arg(node: &Node) -> (r: Result<&str, ConfigError>)
    ensures
        outcome(r) == one_string(node@),
{
    let ghost all = node@.entries;
    let mut i: usize = 0;
    while i < node.entries.len()
        invariant
            all == entries_view(node.entries@),
            all == node@.entries,
            i <= node.entries@.len(),
            first_property(all, 0) == first_property(all, i as int),
        decreases node.entries@.len() - i,
    {
        assert(all[i as int] == node.entries@[i as int]@);
        match &node.entries[i].name {
            Some(prop) => {
                return Err(unknown_prop(node, prop));
            },
            None => {},
        }
        i = i + 1;
    }
    if node.entries.len() == 1 {
        assert(all[0] == node.entries@[0]@);
        match &node.entries[0].value {
            Scalar::Text(s) => {
                return Ok(s.as_str());
            },
            _ => {},
        }
    }
    Err(bad(node, "expects exactly one string argument"))
}

/// The one string argument of a node that takes no children.
pub fn only_string_arg(node: &Node) -> (r: Result<&str, ConfigError>)
    ensures
        outcome(r) == only_string(node@),
{
    match one_string_arg(node) {
        Err(e) => Err(e),
        Ok(s) => match reject_children(node) {
            Err(e) => Err(e),
            Ok(()) => Ok(s),
        },
    }
}

/// The first character from `i` on that cannot appear in a value that
/// becomes an argv element: `execve` cuts a string at NUL, and a line break
/// would forge an extra element in output of one element per line.
pub open spec fn forbidden(s: Seq<char>, i: int) -> Option<Seq<char>>
    decreases s.len() - i,
{
    if i < 0 || i >= s.len() {
        None
    } else if s[i] == '\0' {
        Some("a NUL byte"@)
    } else if s[i] == '\n' {
        Some("a newline"@)
    } else if s[i] == '\r' {
        Some("a carriage return"@)
    } else {
        forbidden(s, i + 1)
    }
}

/// Names a byte that cannot appear in a value that becomes an argv element.
pub fn forbidden_byte(s: &str) -> (r: Option<&'static str>)
    ensures
        match r {
            Some(what) => forbidden(s@, 0) == Some(what@),
            None => forbidden(s@, 0) is None,
        },
{
    let chars = chars_of(s);
    let mut i: usize = 0;
    while i < chars.len()
        invariant
            chars@ == s@,
            i <= chars@.len(),
            forbidden(s@, 0) == forbidden(s@, i as int),
        decreases chars@.len() - i,
    {
        if chars[i] == '\0' {
            return Some("a NUL byte");
        }
        if chars[i] == '\n' {
            return Some("a newline");
        }
        if chars[i] == '\r' {
            return Some("a carriage return");
        }
        i = i + 1;
    }
    None
}

} // verus!
