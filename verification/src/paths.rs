//! Paths: byte strings with `/` between their components.

use vstd::prelude::*;

use crate::split::{
    lemma_split_concat, lemma_split_parts, lemma_split_plain, part_views, split_bytes, split_on,
};
use crate::text::{copy_bytes, push_bytes, same_bytes};

verus! {

/// `/`.
pub const SEPARATOR: u8 = 47;

/// `.`.
pub const DOT: u8 = 46;

/// One component of a path.
#[derive(Debug, PartialEq, Eq)]
pub enum Component {
    /// The `/` an absolute path begins with.
    Root,
    /// The `.` a relative path begins with; any other is no component.
    Current,
    /// `..`.
    Parent,
    /// A name.
    Normal(Vec<u8>),
}

/// Model of a [`Component`].
pub enum ComponentView {
    Root,
    Current,
    Parent,
    Normal(Seq<u8>),
}

impl View for Component {
    type V = ComponentView;

    open spec fn view(&self) -> ComponentView {
        match self {
            Component::Root => ComponentView::Root,
            Component::Current => ComponentView::Current,
            Component::Parent => ComponentView::Parent,
            Component::Normal(name) => ComponentView::Normal(name@),
        }
    }
}

/// The models of a list of components.
pub open spec fn component_views(parts: Seq<Component>) -> Seq<ComponentView> {
    Seq::new(parts.len(), |i: int| parts[i]@)
}

/// Whether a path is absolute.
pub open spec fn absolute(path: Seq<u8>) -> bool {
    path.len() > 0 && path[0] == SEPARATOR
}

/// The component the `i`th part of a path is, if it is one: repeated
/// separators and `.` are none, but for the `.` that begins a path.
pub open spec fn component_of(part: Seq<u8>, i: int) -> Option<ComponentView> {
    if part.len() == 0 {
        None
    } else if part == seq![DOT] {
        if i == 0 {
            Some(ComponentView::Current)
        } else {
            None
        }
    } else if part == seq![DOT, DOT] {
        Some(ComponentView::Parent)
    } else {
        Some(ComponentView::Normal(part))
    }
}

/// The components of the first `n` parts of a path.
pub open spec fn components_of(parts: Seq<Seq<u8>>, n: int) -> Seq<ComponentView>
    decreases n,
{
    if n <= 0 {
        Seq::empty()
    } else {
        match component_of(parts[n - 1], n - 1) {
            Some(c) => components_of(parts, n - 1).push(c),
            None => components_of(parts, n - 1),
        }
    }
}

/// The components of a path.
pub open spec fn components(path: Seq<u8>) -> Seq<ComponentView> {
    let parts = split_on(path, SEPARATOR);
    (if absolute(path) {
        seq![ComponentView::Root]
    } else {
        Seq::empty()
    }) + components_of(parts, parts.len() as int)
}

/// A component at the end of a path.
pub open spec fn with_component(path: Seq<u8>, c: ComponentView) -> Seq<u8> {
    match c {
        ComponentView::Root => seq![SEPARATOR],
        ComponentView::Current => join_path(path, seq![DOT]),
        ComponentView::Parent => join_path(path, seq![DOT, DOT]),
        ComponentView::Normal(name) => join_path(path, name),
    }
}

/// A path below another: an absolute one stands for itself, and there is one
/// separator between the two.
pub open spec fn join_path(base: Seq<u8>, path: Seq<u8>) -> Seq<u8> {
    if absolute(path) {
        path
    } else if base.len() == 0 || base.last() == SEPARATOR {
        base + path
    } else {
        base.push(SEPARATOR) + path
    }
}

/// The path some components make up.
pub open spec fn path_of(parts: Seq<ComponentView>) -> Seq<u8>
    decreases parts.len(),
{
    if parts.len() == 0 {
        Seq::empty()
    } else {
        with_component(path_of(parts.drop_last()), parts.last())
    }
}

/// Whether some components begin with others.
pub open spec fn begins_with(parts: Seq<ComponentView>, head: Seq<ComponentView>) -> bool {
    head.len() <= parts.len() && parts.take(head.len() as int) == head
}

/// Whether a path is the other or below it, component by component.
pub open spec fn under(path: Seq<u8>, base: Seq<u8>) -> bool {
    begins_with(components(path), components(base))
}

/// The components of a path.
pub fn path_components(path: &[u8]) -> (r: Vec<Component>)
    ensures
        component_views(r@) == components(path@),
{
    let parts = split_bytes(path, SEPARATOR);
    let mut out: Vec<Component> = Vec::new();
    let ghost all = split_on(path@, SEPARATOR);
    if path.len() > 0 && path[0] == SEPARATOR {
        out.push(Component::Root);
    }
    let ghost head = if absolute(path@) {
        seq![ComponentView::Root]
    } else {
        Seq::empty()
    };
    assert(component_views(out@) =~= head + components_of(all, 0));
    let mut i: usize = 0;
    while i < parts.len()
        invariant
            part_views(parts@) == all,
            i <= parts@.len(),
            component_views(out@) == head + components_of(all, i as int),
        decreases parts@.len() - i,
    {
        let part = &parts[i];
        assert(all[i as int] == part@);
        let ghost before = component_views(out@);
        if part.len() == 0 {
        } else if same_bytes(part, &[DOT]) {
            if i == 0 {
                out.push(Component::Current);
                assert(component_views(out@) =~= before.push(ComponentView::Current));
            }
        } else if same_bytes(part, &[DOT, DOT]) {
            out.push(Component::Parent);
            assert(component_views(out@) =~= before.push(ComponentView::Parent));
        } else {
            out.push(Component::Normal(copy_bytes(part)));
            assert(component_views(out@) =~= before.push(ComponentView::Normal(part@)));
        }
        i = i + 1;
        assert([DOT]@ =~= seq![DOT]);
        assert([DOT, DOT]@ =~= seq![DOT, DOT]);
        assert(component_views(out@) =~= head + components_of(all, i as int));
    }
    out
}

/// A path below another: an absolute one stands for itself.
pub fn join(base: &[u8], path: &[u8]) -> (r: Vec<u8>)
    ensures
        r@ == join_path(base@, path@),
{
    if path.len() > 0 && path[0] == SEPARATOR {
        return copy_bytes(path);
    }
    let mut out = copy_bytes(base);
    if base.len() > 0 && base[base.len() - 1] != SEPARATOR {
        out.push(SEPARATOR);
    }
    push_bytes(&mut out, path);
    assert(out@ =~= join_path(base@, path@));
    out
}

/// The path some components make up.
pub fn build(parts: &[Component]) -> (r: Vec<u8>)
    ensures
        r@ == path_of(component_views(parts@)),
{
    let ghost all = component_views(parts@);
    let mut out: Vec<u8> = Vec::new();
    let mut i: usize = 0;
    assert(all.take(0) =~= Seq::empty());
    while i < parts.len()
        invariant
            all == component_views(parts@),
            i <= parts@.len(),
            out@ == path_of(all.take(i as int)),
        decreases parts@.len() - i,
    {
        assert(all.take(i + 1).drop_last() =~= all.take(i as int));
        assert(all.take(i + 1).last() == parts@[i as int]@);
        assert([DOT]@ =~= seq![DOT]);
        assert([DOT, DOT]@ =~= seq![DOT, DOT]);
        match &parts[i] {
            Component::Root => {
                out = vec![SEPARATOR];
                assert(out@ =~= seq![SEPARATOR]);
            },
            Component::Current => {
                out = join(&out, &[DOT]);
            },
            Component::Parent => {
                out = join(&out, &[DOT, DOT]);
            },
            Component::Normal(name) => {
                out = join(&out, name);
            },
        }
        i = i + 1;
    }
    assert(all.take(i as int) =~= all);
    out
}

/// Whether two components are the same.
pub fn same_component(a: &Component, b: &Component) -> (r: bool)
    ensures
        r == (a@ == b@),
{
    match (a, b) {
        (Component::Root, Component::Root) => true,
        (Component::Current, Component::Current) => true,
        (Component::Parent, Component::Parent) => true,
        (Component::Normal(x), Component::Normal(y)) => same_bytes(x, y),
        _ => false,
    }
}

/// Whether a path is the other or below it, component by component.
pub fn is_under(path: &[u8], base: &[u8]) -> (r: bool)
    ensures
        r == under(path@, base@),
{
    let parts = path_components(path);
    let head = path_components(base);
    let ghost all = component_views(parts@);
    let ghost first = component_views(head@);
    if head.len() > parts.len() {
        return false;
    }
    let mut i: usize = 0;
    while i < head.len()
        invariant
            all == component_views(parts@),
            first == component_views(head@),
            all == components(path@),
            first == components(base@),
            head@.len() <= parts@.len(),
            i <= head@.len(),
            forall|j: int| 0 <= j < i ==> all[j] == first[j],
        decreases head@.len() - i,
    {
        if !same_component(&parts[i], &head[i]) {
            assert(all[i as int] != first[i as int]);
            assert(all.take(first.len() as int)[i as int] == all[i as int]);
            return false;
        }
        i = i + 1;
    }
    assert(all.take(first.len() as int) =~= first);
    true
}

/// Components with one more taken in: `.` is dropped, and `..` folds into the
/// name before it; at a root or with nothing before it `..` leads nowhere
/// else.
pub open spec fn folded(stack: Seq<ComponentView>, c: ComponentView) -> Seq<ComponentView> {
    match c {
        ComponentView::Current => stack,
        ComponentView::Parent => if stack.len() > 0 && stack.last() is Normal {
            stack.drop_last()
        } else {
            stack
        },
        _ => stack.push(c),
    }
}

/// The first `n` components folded.
pub open spec fn fold_parts(parts: Seq<ComponentView>, n: int) -> Seq<ComponentView>
    decreases n,
{
    if n <= 0 {
        Seq::empty()
    } else {
        folded(fold_parts(parts, n - 1), parts[n - 1])
    }
}

/// The components of a path without `.` and `..`.
pub open spec fn lexical_parts(path: Seq<u8>) -> Seq<ComponentView> {
    fold_parts(components(path), components(path).len() as int)
}

/// A path with `.` dropped and every `..` folded into the component before
/// it. Purely textual: it is what is left when the filesystem cannot answer.
pub open spec fn lexical_path(path: Seq<u8>) -> Seq<u8> {
    path_of(lexical_parts(path))
}

/// The path of the directory an entry is in, and its name, where the path
/// ends in a name.
pub open spec fn parent_and_name(path: Seq<u8>) -> Option<(Seq<u8>, Seq<u8>)> {
    let parts = components(path);
    if parts.len() > 0 && parts.last() is Normal {
        Some((path_of(parts.drop_last()), parts.last()->Normal_0))
    } else {
        None
    }
}

/// `path` with `.` dropped and every `..` folded into the component before
/// it.
pub fn lexical(path: &[u8]) -> (r: Vec<u8>)
    ensures
        r@ == lexical_path(path@),
{
    let parts = path_components(path);
    let ghost all = component_views(parts@);
    let mut stack: Vec<Component> = Vec::new();
    let mut i: usize = 0;
    assert(component_views(stack@) =~= Seq::empty());
    while i < parts.len()
        invariant
            all == component_views(parts@),
            i <= parts@.len(),
            component_views(stack@) == fold_parts(all, i as int),
        decreases parts@.len() - i,
    {
        assert(all[i as int] == parts@[i as int]@);
        let ghost before = component_views(stack@);
        match &parts[i] {
            Component::Current => {},
            Component::Parent => {
                if stack.len() > 0 {
                    assert(before.last() == stack@[stack@.len() - 1]@);
                    let named = match &stack[stack.len() - 1] {
                        Component::Normal(_) => true,
                        _ => false,
                    };
                    if named {
                        stack.pop();
                        assert(component_views(stack@) =~= before.drop_last());
                    }
                }
            },
            Component::Root => {
                stack.push(Component::Root);
                assert(component_views(stack@) =~= before.push(ComponentView::Root));
            },
            Component::Normal(name) => {
                stack.push(Component::Normal(copy_bytes(name)));
                assert(component_views(stack@) =~= before.push(ComponentView::Normal(name@)));
            },
        }
        i = i + 1;
    }
    build(&stack)
}

/// The path of the directory an entry is in, and its name, where the path
/// ends in a name.
pub fn split_name(path: &[u8]) -> (r: Option<(Vec<u8>, Vec<u8>)>)
    ensures
        match r {
            Some((dir, name)) => parent_and_name(path@) == Some((dir@, name@)),
            None => parent_and_name(path@) is None,
        },
{
    let mut parts = path_components(path);
    let ghost all = component_views(parts@);
    match parts.pop() {
        Some(last) => {
            assert(all.last() == last@);
            assert(component_views(parts@) =~= all.drop_last());
            match last {
                Component::Normal(name) => Some((build(&parts), name)),
                _ => None,
            }
        },
        None => None,
    }
}

/// Whether components are what a path without `.` and `..` has: a root at
/// most at the beginning, and names.
pub open spec fn plain_parts(parts: Seq<ComponentView>) -> bool {
    forall|i: int|
        0 <= i < parts.len() ==> match #[trigger] parts[i] {
            ComponentView::Root => i == 0,
            ComponentView::Normal(name) => is_name(name),
            _ => false,
        }
}

/// Whether some bytes are the name of an entry.
pub open spec fn is_name(name: Seq<u8>) -> bool {
    &&& name.len() > 0
    &&& !name.contains(SEPARATOR)
    &&& name != seq![DOT]
    &&& name != seq![DOT, DOT]
}

proof fn lemma_components_of(parts: Seq<Seq<u8>>, n: int)
    requires
        0 <= n <= parts.len(),
        forall|i: int| 0 <= i < parts.len() ==> !(#[trigger] parts[i]).contains(SEPARATOR),
    ensures
        forall|i: int|
            0 <= i < components_of(parts, n).len() ==> match #[trigger] components_of(parts, n)[i] {
                ComponentView::Root => false,
                ComponentView::Normal(name) => is_name(name),
                _ => true,
            },
    decreases n,
{
    if n > 0 {
        lemma_components_of(parts, n - 1);
    }
}

/// What the components of a path are: a root at most at the beginning, and
/// names that are names.
pub proof fn lemma_components(path: Seq<u8>)
    ensures
        forall|i: int|
            0 <= i < components(path).len() ==> match #[trigger] components(path)[i] {
                ComponentView::Root => i == 0,
                ComponentView::Normal(name) => is_name(name),
                _ => true,
            },
{
    let parts = split_on(path, SEPARATOR);
    lemma_split_parts(path, SEPARATOR);
    lemma_components_of(parts, parts.len() as int);
    let all = components(path);
    let tail = components_of(parts, parts.len() as int);
    assert forall|i: int| 0 <= i < all.len() implies match #[trigger] all[i] {
        ComponentView::Root => i == 0,
        ComponentView::Normal(name) => is_name(name),
        _ => true,
    } by {
        if absolute(path) {
            if i > 0 {
                assert(all[i] == tail[i - 1]);
            }
        } else {
            assert(all[i] == tail[i]);
        }
    }
}

proof fn lemma_fold_parts(parts: Seq<ComponentView>, n: int)
    requires
        0 <= n <= parts.len(),
        forall|i: int|
            0 <= i < parts.len() ==> match #[trigger] parts[i] {
                ComponentView::Root => i == 0,
                ComponentView::Normal(name) => is_name(name),
                _ => true,
            },
    ensures
        plain_parts(fold_parts(parts, n)),
        fold_parts(parts, n).len() <= n,
    decreases n,
{
    if n > 0 {
        lemma_fold_parts(parts, n - 1);
        let before = fold_parts(parts, n - 1);
        let after = fold_parts(parts, n);
        assert forall|i: int| 0 <= i < after.len() implies match #[trigger] after[i] {
            ComponentView::Root => i == 0,
            ComponentView::Normal(name) => is_name(name),
            _ => false,
        } by {
            if i < before.len() {
                assert(after[i] == before[i]);
            }
        }
    }
}

/// A folded path has no `.` and no `..`.
pub proof fn a_lexical_path_has_no_dots(path: Seq<u8>)
    ensures
        plain_parts(lexical_parts(path)),
{
    lemma_components(path);
    lemma_fold_parts(components(path), components(path).len() as int);
}

/// What the parts of a path of plain components are.
pub open spec fn plain_split(parts: Seq<ComponentView>) -> Seq<Seq<u8>> {
    Seq::new(
        parts.len(),
        |i: int|
            match parts[i] {
                ComponentView::Normal(name) => name,
                _ => Seq::empty(),
            },
    )
}

proof fn lemma_path_of(parts: Seq<ComponentView>)
    requires
        plain_parts(parts),
    ensures
        parts.len() > 0 ==> path_of(parts).len() > 0,
        parts.len() > 0 && parts[0] is Root ==> absolute(path_of(parts)),
        parts.len() > 0 && !(parts[0] is Root) ==> !absolute(path_of(parts)),
        parts.len() > 0 && !(parts == seq![ComponentView::Root]) ==> split_on(
            path_of(parts),
            SEPARATOR,
        ) == plain_split(parts) && path_of(parts).last() != SEPARATOR,
    decreases parts.len(),
{
    if parts.len() > 0 {
        let rest = parts.drop_last();
        assert(plain_parts(rest)) by {
            assert forall|i: int| 0 <= i < rest.len() implies match #[trigger] rest[i] {
                ComponentView::Root => i == 0,
                ComponentView::Normal(name) => is_name(name),
                _ => false,
            } by {
                assert(rest[i] == parts[i]);
            }
        }
        lemma_path_of(rest);
        let base = path_of(rest);
        assert(parts.last() == parts[parts.len() - 1]);
        match parts.last() {
            ComponentView::Root => {
                assert(parts =~= seq![ComponentView::Root]);
            },
            ComponentView::Normal(name) => {
                assert(!absolute(name)) by {
                    if name[0] == SEPARATOR {
                        assert(name.contains(name[0]));
                    }
                }
                assert(name.last() != SEPARATOR) by {
                    assert(name.contains(name[name.len() - 1]));
                }
                lemma_split_plain(name, SEPARATOR);
                if rest.len() == 0 {
                    assert(base + name =~= name);
                    assert(path_of(parts) == name);
                    assert(plain_split(parts) =~= seq![name]);
                } else if rest == seq![ComponentView::Root] {
                    reveal_with_fuel(path_of, 2);
                    assert(base == seq![SEPARATOR]);
                    let empty = Seq::<u8>::empty();
                    assert(base + name =~= empty.push(SEPARATOR) + name);
                    lemma_split_concat(empty, SEPARATOR, name);
                    assert(split_on(empty, SEPARATOR) == seq![empty]);
                    assert(plain_split(parts) =~= seq![empty, name]);
                    assert(split_on(path_of(parts), SEPARATOR) =~= plain_split(parts));
                } else {
                    lemma_split_concat(base, SEPARATOR, name);
                    assert(path_of(parts) == base.push(SEPARATOR) + name);
                    assert(plain_split(parts) =~= plain_split(rest).push(name));
                    assert(split_on(path_of(parts), SEPARATOR) =~= plain_split(parts));
                    assert(parts[0] == rest[0]);
                    assert(path_of(parts)[0] == base[0]);
                }
            },
            _ => {},
        }
    }
}

proof fn lemma_components_of_plain(parts: Seq<ComponentView>, n: int)
    requires
        plain_parts(parts),
        0 <= n <= parts.len(),
    ensures
        components_of(plain_split(parts), n) == (if n > 0 && parts[0] is Root {
            parts.subrange(1, n)
        } else {
            parts.take(n)
        }),
    decreases n,
{
    if n > 0 {
        lemma_components_of_plain(parts, n - 1);
        let all = plain_split(parts);
        match parts[n - 1] {
            ComponentView::Normal(name) => {
                assert(all[n - 1] == name);
                assert(component_of(all[n - 1], n - 1) == Some(parts[n - 1]));
                if parts[0] is Root {
                    assert(n > 1);
                    assert(parts.subrange(1, n) =~= parts.subrange(1, n - 1).push(parts[n - 1]));
                } else {
                    assert(parts.take(n) =~= parts.take(n - 1).push(parts[n - 1]));
                }
            },
            _ => {
                assert(n == 1);
                assert(all[0] == Seq::<u8>::empty());
                assert(parts.subrange(1, 1) =~= Seq::empty());
                assert(components_of(all, 0) =~= Seq::empty());
            },
        }
    } else {
        assert(parts.take(0) =~= Seq::empty());
    }
}

/// Plain components are what the path they make up has.
pub proof fn lemma_components_of_path(parts: Seq<ComponentView>)
    requires
        plain_parts(parts),
    ensures
        components(path_of(parts)) == parts,
{
    let path = path_of(parts);
    if parts.len() == 0 {
        assert(split_on(path, SEPARATOR) == seq![Seq::<u8>::empty()]);
        reveal_with_fuel(components_of, 2);
        assert(components(path) =~= parts);
    } else if parts == seq![ComponentView::Root] {
        reveal_with_fuel(path_of, 2);
        assert(path == seq![SEPARATOR]);
        let empty = Seq::<u8>::empty();
        assert(path =~= empty.push(SEPARATOR) + empty);
        lemma_split_concat(empty, SEPARATOR, empty);
        assert(split_on(empty, SEPARATOR) == seq![empty]);
        assert(split_on(path, SEPARATOR) =~= seq![empty, empty]);
        reveal_with_fuel(components_of, 3);
        assert(components(path) =~= parts);
    } else {
        lemma_path_of(parts);
        lemma_components_of_plain(parts, parts.len() as int);
        assert(components(path) =~= parts);
    }
}

proof fn lemma_fold_plain(parts: Seq<ComponentView>, n: int)
    requires
        plain_parts(parts),
        0 <= n <= parts.len(),
    ensures
        fold_parts(parts, n) == parts.take(n),
    decreases n,
{
    if n > 0 {
        lemma_fold_plain(parts, n - 1);
        assert(parts.take(n) =~= parts.take(n - 1).push(parts[n - 1]));
    } else {
        assert(parts.take(0) =~= Seq::empty());
    }
}

/// Folding a folded path changes nothing.
pub proof fn folding_a_path_twice_is_folding_it_once(path: Seq<u8>)
    ensures
        lexical_path(lexical_path(path)) == lexical_path(path),
        components(lexical_path(path)) == lexical_parts(path),
{
    let parts = lexical_parts(path);
    a_lexical_path_has_no_dots(path);
    lemma_components_of_path(parts);
    lemma_fold_plain(parts, parts.len() as int);
    assert(parts.take(parts.len() as int) =~= parts);
}

proof fn lemma_components_prefix(parts: Seq<Seq<u8>>, more: Seq<u8>, n: int)
    requires
        n <= parts.len(),
    ensures
        components_of(parts.push(more), n) == components_of(parts, n),
    decreases n,
{
    if n > 0 {
        lemma_components_prefix(parts, more, n - 1);
    }
}

/// A name below a path is one more component.
pub proof fn lemma_join_name(base: Seq<u8>, name: Seq<u8>)
    requires
        is_name(name),
    ensures
        components(join_path(base, name)) == components(base).push(ComponentView::Normal(name)),
{
    assert(!absolute(name)) by {
        if name[0] == SEPARATOR {
            assert(name.contains(name[0]));
        }
    }
    lemma_split_plain(name, SEPARATOR);
    let whole = join_path(base, name);
    let parts = split_on(base, SEPARATOR);
    let empty = Seq::<u8>::empty();
    lemma_split_parts(base, SEPARATOR);
    if base.len() == 0 {
        assert(whole =~= name);
        assert(parts == seq![empty]);
        reveal_with_fuel(components_of, 2);
        assert(components(base) =~= Seq::empty());
        assert(components(whole) =~= seq![ComponentView::Normal(name)]);
        assert(components(base).push(ComponentView::Normal(name)) =~= components(whole));
    } else {
        let first = if base.last() == SEPARATOR {
            split_on(base.drop_last(), SEPARATOR)
        } else {
            parts
        };
        if base.last() == SEPARATOR {
            lemma_split_concat(base.drop_last(), SEPARATOR, name);
            assert(base.drop_last().push(SEPARATOR) + name =~= whole);
            assert(parts =~= first.push(empty));
            lemma_components_prefix(first, empty, first.len() as int);
            assert(components_of(parts, parts.len() as int) == components_of(
                first,
                first.len() as int,
            ));
        } else {
            lemma_split_concat(base, SEPARATOR, name);
        }
        assert(split_on(whole, SEPARATOR) =~= first.push(name));
        lemma_components_prefix(first, name, first.len() as int);
        assert(first.len() >= 1) by {
            lemma_split_parts(base.drop_last(), SEPARATOR);
        }
        assert(component_of(name, first.len() as int) == Some(ComponentView::Normal(name)));
        assert(components_of(first.push(name), first.len() as int + 1) == components_of(
            first,
            first.len() as int,
        ).push(ComponentView::Normal(name)));
        assert(whole[0] == base[0]);
        assert(components(whole) =~= components(base).push(ComponentView::Normal(name)));
    }
}

proof fn lemma_first_part(path: Seq<u8>)
    requires
        path.len() > 0,
        path[0] != SEPARATOR,
    ensures
        split_on(path, SEPARATOR).len() >= 1,
        split_on(path, SEPARATOR)[0].len() > 0,
    decreases path.len(),
{
    let rest = path.drop_last();
    lemma_split_parts(path, SEPARATOR);
    lemma_split_parts(rest, SEPARATOR);
    if rest.len() > 0 {
        lemma_first_part(rest);
    }
}

proof fn lemma_components_of_first(parts: Seq<Seq<u8>>, n: int)
    requires
        1 <= n <= parts.len(),
        parts[0].len() > 0,
    ensures
        components_of(parts, n).len() > 0,
    decreases n,
{
    if n > 1 {
        lemma_components_of_first(parts, n - 1);
    }
}

/// A path that is not empty has a component.
pub proof fn lemma_some_component(path: Seq<u8>)
    requires
        path.len() > 0,
    ensures
        components(path).len() > 0,
{
    if path[0] != SEPARATOR {
        let parts = split_on(path, SEPARATOR);
        lemma_first_part(path);
        lemma_components_of_first(parts, parts.len() as int);
    }
}

} // verus!
