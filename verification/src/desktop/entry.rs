//! Reading a desktop entry: its lines, its groups and the keys of the main
//! one.

use vstd::prelude::*;

use crate::split::{lemma_split_parts, part_views, split_chars, split_on};
use crate::text::{
    chars_of, is_white_space, maybe, same_text, text_of, text_views, trimmed_end, trimmed_start,
};

verus! {

/// Key naming the instance an entry was generated for. `X-` because a desktop
/// entry may only be extended with `X-` keys, and the instance name because
/// that is what makes a removal and a refusal to overwrite safe: an entry
/// without it was written by somebody else.
pub const MARKER: &'static str = "X-Bubbler-Instance";

/// The group that says what an entry is and what it runs.
pub const ENTRY_GROUP: &'static str = "Desktop Entry";

/// A line without the carriage return it ends in.
pub open spec fn without_cr(line: Seq<char>) -> Seq<char> {
    if line.len() > 0 && line.last() == '\r' {
        line.drop_last()
    } else {
        line
    }
}

/// The lines of a text. A carriage return in front of a line feed belongs to
/// the line ending; the last line needs no ending.
pub open spec fn lines_of(text: Seq<char>) -> Seq<Seq<char>> {
    let parts = split_on(text, '\n');
    let ended = Seq::new((parts.len() - 1) as nat, |i: int| without_cr(parts[i]));
    if parts.last().len() == 0 {
        ended
    } else {
        ended.push(parts.last())
    }
}

/// The group a `[name]` line names; any other line names none.
pub open spec fn header_of(line: Seq<char>) -> Option<Seq<char>> {
    if line.len() >= 2 && line[0] == '[' && line.last() == ']' {
        Some(line.subrange(1, line.len() - 1))
    } else {
        None
    }
}

/// The index of the first `c` from `i` on, or the length.
pub open spec fn index_from(s: Seq<char>, c: char, i: int) -> int
    decreases s.len() - i,
{
    if i < 0 || i >= s.len() {
        s.len() as int
    } else if s[i] == c {
        i
    } else {
        index_from(s, c, i + 1)
    }
}

/// `key=value` at the first `=`, without the space allowed around it.
/// Comments and blank lines have no `=`.
pub open spec fn key_value(line: Seq<char>) -> Option<(Seq<char>, Seq<char>)> {
    if line.contains('=') {
        let at = index_from(line, '=', 0);
        Some((trimmed_end(line.take(at)), trimmed_start(line.skip(at + 1))))
    } else {
        None
    }
}

/// The part of a key before its `[locale]` suffix.
pub open spec fn key_base(key: Seq<char>) -> Seq<char> {
    key.take(index_from(key, '[', 0))
}

/// The index of the first line from `i` on that is the header of the main
/// group, or the number of lines.
pub open spec fn entry_header(lines: Seq<Seq<char>>, i: int) -> int
    decreases lines.len() - i,
{
    if i < 0 || i >= lines.len() {
        lines.len() as int
    } else if header_of(lines[i]) == Some(ENTRY_GROUP@) {
        i
    } else {
        entry_header(lines, i + 1)
    }
}

/// The index of the first line from `i` on that is a header, or the number of
/// lines.
pub open spec fn next_header(lines: Seq<Seq<char>>, i: int) -> int
    decreases lines.len() - i,
{
    if i < 0 || i >= lines.len() {
        lines.len() as int
    } else if header_of(lines[i]) is Some {
        i
    } else {
        next_header(lines, i + 1)
    }
}

/// The lines of the first main group, without its header.
pub open spec fn entry_lines(lines: Seq<Seq<char>>) -> Seq<Seq<char>> {
    let at = entry_header(lines, 0);
    if at >= lines.len() {
        Seq::empty()
    } else {
        lines.subrange(at + 1, next_header(lines, at + 1))
    }
}

/// The value of the first line from `i` on with the key `key`.
pub open spec fn value_from(group: Seq<Seq<char>>, key: Seq<char>, i: int) -> Option<Seq<char>>
    decreases group.len() - i,
{
    if i < 0 || i >= group.len() {
        None
    } else {
        match key_value(group[i]) {
            Some((k, v)) if k == key => Some(v),
            _ => value_from(group, key, i + 1),
        }
    }
}

/// The value of the first line with the key `key`.
pub open spec fn value_of(group: Seq<Seq<char>>, key: Seq<char>) -> Option<Seq<char>> {
    value_from(group, key, 0)
}

/// Whether some line sets `key` to `true`.
pub open spec fn set_true(group: Seq<Seq<char>>, key: Seq<char>) -> bool {
    exists|i: int|
        0 <= i < group.len() && key_value(#[trigger] group[i]) == Some((key, "true"@))
}

/// The main group's keys a lookup decides on.
#[derive(Debug, PartialEq, Eq)]
pub struct Head {
    /// The command line the entry runs.
    pub command: Option<String>,
    /// The instance the entry was generated for.
    pub marker: Option<String>,
    /// `NoDisplay=true`: an entry a launcher does not show, which is what an
    /// application's MIME-handler-only entries are. Never the one a user
    /// means by the application's name.
    pub no_display: bool,
    /// `Hidden=true`, which the specification of desktop entries calls
    /// "strictly equivalent to the .desktop file not existing at all".
    pub hidden: bool,
}

/// Model of a [`Head`].
pub struct HeadView {
    pub command: Option<Seq<char>>,
    pub marker: Option<Seq<char>>,
    pub no_display: bool,
    pub hidden: bool,
}

impl View for Head {
    type V = HeadView;

    open spec fn view(&self) -> HeadView {
        HeadView {
            command: maybe(self.command),
            marker: maybe(self.marker),
            no_display: self.no_display,
            hidden: self.hidden,
        }
    }
}

/// What the main group of an entry says.
pub open spec fn head_of(text: Seq<char>) -> HeadView {
    let group = entry_lines(lines_of(text));
    HeadView {
        command: value_of(group, "Exec"@),
        marker: value_of(group, MARKER@),
        no_display: set_true(group, "NoDisplay"@),
        hidden: set_true(group, "Hidden"@),
    }
}

/// The lines of a text: a carriage return in front of a line feed belongs to
/// the line ending, and the last line needs no ending.
pub fn lines(text: &str) -> (r: Vec<String>)
    ensures
        text_views(r@) == lines_of(text@),
{
    let all = chars_of(text);
    let parts = split_chars(&all, '\n');
    let ghost model = split_on(text@, '\n');
    proof {
        lemma_split_parts(text@, '\n');
    }
    let mut out: Vec<String> = Vec::new();
    let last: usize = parts.len() - 1;
    let mut i: usize = 0;
    assert(text_views(out@) =~= Seq::new(0, |j: int| without_cr(model[j])));
    while i < last
        invariant
            part_views(parts@) == model,
            parts@.len() == last + 1,
            i <= last,
            text_views(out@) == Seq::new(i as nat, |j: int| without_cr(model[j])),
        decreases last - i,
    {
        let part = parts[i].as_slice();
        assert(model[i as int] == part@);
        let ghost before = text_views(out@);
        if part.len() > 0 && part[part.len() - 1] == '\r' {
            let cut = vstd::slice::slice_subrange(part, 0, part.len() - 1);
            assert(cut@ =~= part@.drop_last());
            out.push(text_of(cut));
        } else {
            out.push(text_of(part));
        }
        assert(text_views(out@) =~= before.push(without_cr(model[i as int])));
        i = i + 1;
        assert(text_views(out@) =~= Seq::new(i as nat, |j: int| without_cr(model[j])));
    }
    assert(model[last as int] == parts@[last as int]@);
    if parts[last].len() > 0 {
        let ghost before = text_views(out@);
        out.push(text_of(&parts[last]));
        assert(text_views(out@) =~= before.push(model.last()));
    }
    out
}

/// The group a `[name]` line names, or `None` for any other line.
pub fn header(line: &str) -> (r: Option<String>)
    ensures
        maybe(r) == header_of(line@),
{
    let all = chars_of(line);
    if all.len() >= 2 && all[0] == '[' && all[all.len() - 1] == ']' {
        Some(text_of(vstd::slice::slice_subrange(all.as_slice(), 1, all.len() - 1)))
    } else {
        None
    }
}

/// Where a character stands is inside the text, and it is there.
pub proof fn lemma_index_from(s: Seq<char>, c: char, i: int)
    requires
        0 <= i <= s.len(),
    ensures
        i <= index_from(s, c, i) <= s.len(),
        index_from(s, c, i) < s.len() ==> s[index_from(s, c, i)] == c,
        forall|j: int| i <= j < index_from(s, c, i) ==> s[j] != c,
    decreases s.len() - i,
{
    if i < s.len() && s[i] != c {
        lemma_index_from(s, c, i + 1);
    }
}

/// A text holds a character where its first place is inside.
pub proof fn lemma_contains(s: Seq<char>, c: char)
    ensures
        s.contains(c) <==> index_from(s, c, 0) < s.len(),
{
    lemma_index_from(s, c, 0);
}

fn index_of(s: &[char], c: char) -> (r: usize)
    ensures
        r == index_from(s@, c, 0),
        r <= s@.len(),
{
    let mut i: usize = 0;
    while i < s.len() && s[i] != c
        invariant
            i <= s@.len(),
            index_from(s@, c, 0) == index_from(s@, c, i as int),
        decreases s@.len() - i,
    {
        i = i + 1;
    }
    i
}

/// Some characters without the white space they begin with.
pub fn trim_left(s: &[char]) -> (r: String)
    ensures
        r@ == trimmed_start(s@),
{
    let mut from: usize = 0;
    assert(s@.skip(0) =~= s@);
    while from < s.len() && is_white_space(s[from])
        invariant
            from <= s@.len(),
            trimmed_start(s@.skip(from as int)) == trimmed_start(s@),
        decreases s@.len() - from,
    {
        assert(s@.skip(from as int).drop_first() =~= s@.skip(from + 1));
        from = from + 1;
    }
    let cut = vstd::slice::slice_subrange(s, from, s.len());
    assert(cut@ =~= s@.skip(from as int));
    text_of(cut)
}

fn trim_right(s: &[char]) -> (r: String)
    ensures
        r@ == trimmed_end(s@),
{
    let mut to: usize = s.len();
    assert(s@.take(to as int) =~= s@);
    while to > 0 && is_white_space(s[to - 1])
        invariant
            to <= s@.len(),
            trimmed_end(s@.take(to as int)) == trimmed_end(s@),
        decreases to,
    {
        assert(s@.take(to as int).drop_last() =~= s@.take(to - 1));
        to = to - 1;
    }
    let cut = vstd::slice::slice_subrange(s, 0, to);
    assert(cut@ =~= s@.take(to as int));
    text_of(cut)
}

/// The model of a key and its value.
pub open spec fn pair_view(pair: Option<(String, String)>) -> Option<(Seq<char>, Seq<char>)> {
    match pair {
        Some((k, v)) => Some((k@, v@)),
        None => None,
    }
}

/// `key=value` split with the space allowed around the `=` removed. Comments
/// and blank lines have no `=` and fall out here.
pub fn split_key(line: &str) -> (r: Option<(String, String)>)
    ensures
        pair_view(r) == key_value(line@),
{
    let all = chars_of(line);
    let at = index_of(&all, '=');
    proof {
        lemma_contains(line@, '=');
    }
    if at == all.len() {
        return None;
    }
    let key = vstd::slice::slice_subrange(all.as_slice(), 0, at);
    let value = vstd::slice::slice_subrange(all.as_slice(), at + 1, all.len());
    assert(key@ =~= line@.take(at as int));
    assert(value@ =~= line@.skip(at + 1));
    Some((trim_right(key), trim_left(value)))
}

/// The part of a key before its `[locale]` suffix.
pub fn base_key(key: &str) -> (r: String)
    ensures
        r@ == key_base(key@),
{
    let all = chars_of(key);
    let at = index_of(&all, '[');
    let cut = vstd::slice::slice_subrange(all.as_slice(), 0, at);
    assert(cut@ =~= key@.take(at as int));
    text_of(cut)
}

/// The header of the main group, where there is one, is inside.
pub proof fn lemma_entry_header(lines: Seq<Seq<char>>, i: int)
    requires
        0 <= i <= lines.len(),
    ensures
        i <= entry_header(lines, i) <= lines.len(),
        entry_header(lines, i) < lines.len() ==> header_of(lines[entry_header(lines, i)])
            == Some(ENTRY_GROUP@),
        forall|j: int|
            i <= j < entry_header(lines, i) ==> header_of(#[trigger] lines[j]) != Some(
                ENTRY_GROUP@,
            ),
    decreases lines.len() - i,
{
    if i < lines.len() && header_of(lines[i]) != Some(ENTRY_GROUP@) {
        lemma_entry_header(lines, i + 1);
    }
}

/// The next header, where there is one, is inside.
pub proof fn lemma_next_header(lines: Seq<Seq<char>>, i: int)
    requires
        0 <= i <= lines.len(),
    ensures
        i <= next_header(lines, i) <= lines.len(),
        next_header(lines, i) < lines.len() ==> header_of(lines[next_header(lines, i)]) is Some,
        forall|j: int|
            i <= j < next_header(lines, i) ==> header_of(#[trigger] lines[j]) is None,
    decreases lines.len() - i,
{
    if i < lines.len() && header_of(lines[i]) is None {
        lemma_next_header(lines, i + 1);
    }
}

/// The lines of the first main group, without its header.
pub fn group_lines(text: &str) -> (r: Vec<String>)
    ensures
        text_views(r@) == entry_lines(lines_of(text@)),
{
    let all = lines(text);
    let ghost model = text_views(all@);
    let mut at: usize = 0;
    while at < all.len()
        invariant
            model == text_views(all@),
            at <= all@.len(),
            entry_header(model, 0) == entry_header(model, at as int),
        ensures
            at == entry_header(model, 0),
            at <= all@.len(),
        decreases all@.len() - at,
    {
        assert(model[at as int] == all@[at as int]@);
        match header(&all[at]) {
            Some(name) => {
                if same_text(&name, ENTRY_GROUP) {
                    break;
                }
            },
            None => {},
        }
        at = at + 1;
    }
    let mut out: Vec<String> = Vec::new();
    if at >= all.len() {
        assert(text_views(out@) =~= Seq::empty());
        return out;
    }
    let mut i: usize = at + 1;
    assert(text_views(out@) =~= model.subrange(at + 1, i as int));
    while i < all.len()
        invariant
            model == text_views(all@),
            at < i <= all@.len(),
            next_header(model, at + 1) == next_header(model, i as int),
            text_views(out@) == model.subrange(at + 1, i as int),
        ensures
            i == next_header(model, at + 1),
            i <= all@.len(),
            text_views(out@) == model.subrange(at + 1, i as int),
        decreases all@.len() - i,
    {
        assert(model[i as int] == all@[i as int]@);
        if header(&all[i]).is_some() {
            break;
        }
        let ghost before = text_views(out@);
        out.push(all[i].as_str().to_owned());
        assert(text_views(out@) =~= before.push(model[i as int]));
        assert(model.subrange(at + 1, i + 1) =~= before.push(model[i as int]));
        i = i + 1;
    }
    out
}


/// Lines without the key are passed over.
pub proof fn lemma_value_skip(group: Seq<Seq<char>>, key: Seq<char>, i: int, n: int)
    requires
        0 <= i <= n <= group.len(),
        forall|j: int|
            i <= j < n ==> match key_value(#[trigger] group[j]) {
                Some((k, _)) => k != key,
                None => true,
            },
    ensures
        value_from(group, key, i) == value_from(group, key, n),
    decreases n - i,
{
    if i < n {
        lemma_value_skip(group, key, i + 1, n);
    }
}

/// The value of the first line with the key `key`.
fn first_value(group: &[String], key: &str) -> (r: Option<String>)
    ensures
        maybe(r) == value_of(text_views(group@), key@),
{
    let ghost model = text_views(group@);
    let mut i: usize = 0;
    while i < group.len()
        invariant
            model == text_views(group@),
            i <= group@.len(),
            value_from(model, key@, 0) == value_from(model, key@, i as int),
        decreases group@.len() - i,
    {
        assert(model[i as int] == group@[i as int]@);
        match split_key(&group[i]) {
            Some((k, v)) => {
                if same_text(&k, key) {
                    return Some(v);
                }
            },
            None => {},
        }
        i = i + 1;
    }
    None
}

/// Whether some line sets `key` to `true`.
fn is_set(group: &[String], key: &str) -> (r: bool)
    ensures
        r == set_true(text_views(group@), key@),
{
    let ghost model = text_views(group@);
    let mut i: usize = 0;
    while i < group.len()
        invariant
            model == text_views(group@),
            i <= group@.len(),
            forall|j: int|
                0 <= j < i ==> key_value(#[trigger] model[j]) != Some((key@, "true"@)),
        decreases group@.len() - i,
    {
        assert(model[i as int] == group@[i as int]@);
        match split_key(&group[i]) {
            Some((k, v)) => {
                if same_text(&k, key) && same_text(&v, "true") {
                    assert(key_value(model[i as int]) == Some((key@, "true"@)));
                    return true;
                }
            },
            None => {},
        }
        i = i + 1;
    }
    false
}

/// Read the main group of `text`, ignoring every other group: only it decides
/// what an entry is and what it runs.
pub fn head(text: &str) -> (r: Head)
    ensures
        r@ == head_of(text@),
{
    let group = group_lines(text);
    Head {
        command: first_value(&group, "Exec"),
        marker: first_value(&group, MARKER),
        no_display: is_set(&group, "NoDisplay"),
        hidden: is_set(&group, "Hidden"),
    }
}

/// The instance an entry was generated for, if it was generated.
pub fn owner(text: &str) -> (r: Option<String>)
    ensures
        maybe(r) == head_of(text@).marker,
{
    head(text).marker
}

} // verus!
