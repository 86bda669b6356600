//! File names in order, and which of them are entries.

use vstd::prelude::*;

use crate::paths::{parent_and_name, split_name};
use crate::text::{byte_views, bytes_of, copy_bytes, maybe, same_bytes, utf8};

verus! {

/// What every entry's file name ends in.
pub const ENTRY_SUFFIX: &'static str = ".desktop";

/// The last component of a path, where it is a name.
pub open spec fn file_name_of(path: Seq<u8>) -> Option<Seq<u8>> {
    match parent_and_name(path) {
        Some((_, name)) => Some(name),
        None => None,
    }
}

/// The last component of a path, where it is a name.
pub fn file_name(path: &[u8]) -> (r: Option<Vec<u8>>)
    ensures
        maybe(r) == file_name_of(path@),
{
    match split_name(path) {
        Some((_, name)) => Some(name),
        None => None,
    }
}

/// Whether a path names an entry: its extension is `desktop`. A name that is
/// nothing but the extension has none.
pub open spec fn entry_file(path: Seq<u8>) -> bool {
    let tail = utf8(ENTRY_SUFFIX@);
    match file_name_of(path) {
        Some(name) => name.len() > tail.len() && name.skip(name.len() - tail.len()) == tail,
        None => false,
    }
}

/// Whether a path names an entry: its extension is `desktop`.
pub fn is_entry_name(path: &[u8]) -> (r: bool)
    ensures
        r == entry_file(path@),
{
    let tail = bytes_of(ENTRY_SUFFIX);
    match file_name(path) {
        Some(name) => {
            if name.len() <= tail.len() {
                return false;
            }
            let cut = vstd::slice::slice_subrange(
                name.as_slice(),
                name.len() - tail.len(),
                name.len(),
            );
            assert(cut@ =~= name@.skip(name@.len() - tail@.len()));
            same_bytes(cut, &tail)
        },
        None => false,
    }
}

/// Whether a name stands before another or is the same: the order of their
/// first bytes that differ, and a shorter one before what continues it.
pub open spec fn ordered(a: Seq<u8>, b: Seq<u8>) -> bool
    decreases a.len(),
{
    if a.len() == 0 {
        true
    } else if b.len() == 0 {
        false
    } else if a[0] != b[0] {
        a[0] < b[0]
    } else {
        ordered(a.drop_first(), b.drop_first())
    }
}

fn in_order(a: &[u8], b: &[u8]) -> (r: bool)
    ensures
        r == ordered(a@, b@),
{
    let mut i: usize = 0;
    assert(a@.skip(0) =~= a@);
    assert(b@.skip(0) =~= b@);
    while i < a.len() && i < b.len() && a[i] == b[i]
        invariant
            i <= a@.len(),
            i <= b@.len(),
            ordered(a@, b@) == ordered(a@.skip(i as int), b@.skip(i as int)),
        decreases a@.len() - i,
    {
        assert(a@.skip(i as int).drop_first() =~= a@.skip(i + 1));
        assert(b@.skip(i as int).drop_first() =~= b@.skip(i + 1));
        i = i + 1;
    }
    if i >= a.len() {
        true
    } else if i >= b.len() {
        false
    } else {
        a[i] < b[i]
    }
}

/// A name among names in order.
pub open spec fn placed(names: Seq<Seq<u8>>, name: Seq<u8>) -> Seq<Seq<u8>>
    decreases names.len(),
{
    if names.len() == 0 || ordered(names.last(), name) {
        names.push(name)
    } else {
        placed(names.drop_last(), name).push(names.last())
    }
}

/// Names in order.
pub open spec fn in_sequence(names: Seq<Seq<u8>>) -> Seq<Seq<u8>>
    decreases names.len(),
{
    if names.len() == 0 {
        Seq::empty()
    } else {
        placed(in_sequence(names.drop_last()), names.last())
    }
}

/// Names in order.
pub fn sorted_names(names: &[Vec<u8>]) -> (r: Vec<Vec<u8>>)
    ensures
        byte_views(r@) == in_sequence(byte_views(names@)),
{
    let ghost model = byte_views(names@);
    let mut out: Vec<Vec<u8>> = Vec::new();
    let mut i: usize = 0;
    assert(model.take(0) =~= Seq::empty());
    assert(byte_views(out@) =~= Seq::empty());
    while i < names.len()
        invariant
            model == byte_views(names@),
            i <= names@.len(),
            byte_views(out@) == in_sequence(model.take(i as int)),
        decreases names@.len() - i,
    {
        let ghost before = byte_views(out@);
        let ghost name = model[i as int];
        assert(model.take(i + 1).drop_last() =~= model.take(i as int));
        assert(model.take(i + 1).last() == name);
        let mut at: usize = out.len();
        assert(before.take(at as int) =~= before);
        assert(placed(before, name) =~= placed(before.take(at as int), name) + before.skip(
            at as int,
        ));
        while at > 0 && !in_order(&out[at - 1], &names[i])
            invariant
                before == byte_views(out@),
                i < names@.len(),
                name == names@[i as int]@,
                at <= out@.len(),
                placed(before, name) == placed(before.take(at as int), name) + before.skip(
                    at as int,
                ),
            decreases at,
        {
            let ghost head = before.take(at as int);
            assert(head.last() == before[at - 1]);
            assert(head.drop_last() =~= before.take(at - 1));
            assert(placed(head.drop_last(), name).push(head.last()) + before.skip(at as int)
                =~= placed(before.take(at - 1), name) + before.skip(at - 1));
            at = at - 1;
        }
        let ghost head = before.take(at as int);
        assert(placed(head, name) == head.push(name)) by {
            if at > 0 {
                assert(head.last() == before[at - 1]);
            }
        }
        let ghost raw = out@;
        out.insert(at, copy_bytes(&names[i]));
        assert(byte_views(out@) =~= head.push(name) + before.skip(at as int));
        i = i + 1;
    }
    assert(model.take(i as int) =~= model);
    out
}

proof fn lemma_ordered_total(a: Seq<u8>, b: Seq<u8>)
    ensures
        ordered(a, b) || ordered(b, a),
    decreases a.len(),
{
    if a.len() > 0 && b.len() > 0 && a[0] == b[0] {
        lemma_ordered_total(a.drop_first(), b.drop_first());
    }
}

proof fn lemma_ordered_chain(a: Seq<u8>, b: Seq<u8>, c: Seq<u8>)
    requires
        ordered(a, b),
        ordered(b, c),
    ensures
        ordered(a, c),
    decreases a.len(),
{
    if a.len() > 0 && b.len() > 0 && c.len() > 0 && a[0] == b[0] && b[0] == c[0] {
        lemma_ordered_chain(a.drop_first(), b.drop_first(), c.drop_first());
    }
}

/// Whether every name stands before those after it.
pub open spec fn all_ordered(names: Seq<Seq<u8>>) -> bool {
    forall|i: int, j: int| 0 <= i <= j < names.len() ==> ordered(#[trigger] names[i], #[trigger] names[j])
}

proof fn lemma_ordered_same(a: Seq<u8>)
    ensures
        ordered(a, a),
{
    lemma_ordered_total(a, a);
}

proof fn lemma_placed(names: Seq<Seq<u8>>, name: Seq<u8>)
    requires
        all_ordered(names),
    ensures
        all_ordered(placed(names, name)),
        placed(names, name).to_multiset() == names.to_multiset().insert(name),
        placed(names, name).len() == names.len() + 1,
        forall|i: int|
            0 <= i < placed(names, name).len() ==> #[trigger] placed(names, name)[i] == name
                || names.contains(placed(names, name)[i]),
    decreases names.len(),
{
    broadcast use vstd::seq_lib::group_to_multiset_ensures;

    let all = placed(names, name);
    if names.len() == 0 || ordered(names.last(), name) {
        assert forall|i: int, j: int| 0 <= i <= j < all.len() implies ordered(
            #[trigger] all[i],
            #[trigger] all[j],
        ) by {
            if j == names.len() {
                if i < names.len() {
                    assert(ordered(names[i], names[names.len() - 1]));
                    lemma_ordered_chain(all[i], names.last(), name);
                } else {
                    lemma_ordered_same(name);
                }
            } else {
                assert(ordered(names[i], names[j]));
            }
        }
        assert forall|i: int| 0 <= i < all.len() implies #[trigger] all[i] == name
            || names.contains(all[i]) by {
            if i < names.len() {
                assert(names[i] == all[i]);
            }
        }
    } else {
        let rest = names.drop_last();
        assert(all_ordered(rest)) by {
            assert forall|i: int, j: int| 0 <= i <= j < rest.len() implies ordered(
                #[trigger] rest[i],
                #[trigger] rest[j],
            ) by {
                assert(ordered(names[i], names[j]));
            }
        }
        lemma_placed(rest, name);
        let inner = placed(rest, name);
        lemma_ordered_total(names.last(), name);
        assert(names =~= rest.push(names.last()));
        assert(all.to_multiset() =~= names.to_multiset().insert(name));
        assert forall|i: int| 0 <= i < all.len() implies #[trigger] all[i] == name
            || names.contains(all[i]) by {
            if i < inner.len() {
                assert(all[i] == inner[i]);
                if all[i] != name {
                    let k = choose|k: int| 0 <= k < rest.len() && rest[k] == all[i];
                    assert(names[k] == all[i]);
                }
            } else {
                assert(names[names.len() - 1] == all[i]);
            }
        }
        assert forall|i: int, j: int| 0 <= i <= j < all.len() implies ordered(
            #[trigger] all[i],
            #[trigger] all[j],
        ) by {
            if j < inner.len() {
                assert(ordered(inner[i], inner[j]));
            } else if i < inner.len() {
                assert(all[i] == inner[i]);
                if inner[i] != name {
                    let k = choose|k: int| 0 <= k < rest.len() && rest[k] == inner[i];
                    assert(ordered(names[k], names[names.len() - 1]));
                }
            } else {
                lemma_ordered_same(all[i]);
            }
        }
    }
}

/// Names put in order are the same names, each as often as before, and each
/// stands before those after it.
pub proof fn names_in_order_are_the_same_names(names: Seq<Seq<u8>>)
    ensures
        all_ordered(in_sequence(names)),
        in_sequence(names).to_multiset() == names.to_multiset(),
    decreases names.len(),
{
    broadcast use vstd::seq_lib::group_to_multiset_ensures;

    if names.len() > 0 {
        let rest = names.drop_last();
        names_in_order_are_the_same_names(rest);
        lemma_placed(in_sequence(rest), names.last());
        assert(names =~= rest.push(names.last()));
    } else {
        assert(names =~= Seq::empty());
    }
}

} // verus!
