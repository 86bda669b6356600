//! Splitting a sequence at a separator.

use vstd::prelude::*;

verus! {

/// The parts of a sequence between the separators, empty ones too; a
/// sequence with no separator is one part.
pub open spec fn split_on<T>(s: Seq<T>, sep: T) -> Seq<Seq<T>>
    decreases s.len(),
{
    if s.len() == 0 {
        seq![Seq::empty()]
    } else {
        let parts = split_on(s.drop_last(), sep);
        if s.last() == sep {
            parts.push(Seq::empty())
        } else {
            parts.update(parts.len() - 1, parts.last().push(s.last()))
        }
    }
}

/// The parts with `sep` between them.
pub open spec fn join_with<T>(parts: Seq<Seq<T>>, sep: T) -> Seq<T>
    decreases parts.len(),
{
    if parts.len() == 0 {
        Seq::empty()
    } else if parts.len() == 1 {
        parts[0]
    } else {
        join_with(parts.drop_last(), sep).push(sep) + parts.last()
    }
}

/// Splitting gives at least one part, and no part holds the separator.
pub proof fn lemma_split_parts<T>(s: Seq<T>, sep: T)
    ensures
        split_on(s, sep).len() >= 1,
        forall|i: int|
            0 <= i < split_on(s, sep).len() ==> !(#[trigger] split_on(s, sep)[i]).contains(sep),
    decreases s.len(),
{
    if s.len() > 0 {
        let rest = s.drop_last();
        lemma_split_parts(rest, sep);
        let parts = split_on(rest, sep);
        let all = split_on(s, sep);
        assert forall|i: int| 0 <= i < all.len() implies !(#[trigger] all[i]).contains(sep) by {
            if s.last() == sep {
                if i < parts.len() {
                    assert(all[i] == parts[i]);
                }
            } else if i < parts.len() - 1 {
                assert(all[i] == parts[i]);
            } else {
                let was = parts[parts.len() - 1];
                assert(!was.contains(sep));
                assert(all[i] == was.push(s.last()));
                assert forall|j: int| 0 <= j < all[i].len() implies all[i][j] != sep by {
                    if j < was.len() {
                        assert(was.contains(was[j]));
                    }
                }
            }
        }
    }
}

/// A sequence without the separator is one part.
pub proof fn lemma_split_plain<T>(s: Seq<T>, sep: T)
    requires
        !s.contains(sep),
    ensures
        split_on(s, sep) == seq![s],
    decreases s.len(),
{
    if s.len() > 0 {
        let rest = s.drop_last();
        assert forall|i: int| 0 <= i < rest.len() implies rest[i] != sep by {
            assert(s.contains(s[i]));
        }
        lemma_split_plain(rest, sep);
        assert(s.contains(s[s.len() - 1]));
        assert(split_on(rest, sep).last() == rest);
        assert(rest.push(s.last()) =~= s);
        assert(split_on(s, sep) =~= seq![s]);
    } else {
        assert(s =~= Seq::empty());
        assert(split_on(s, sep) =~= seq![s]);
    }
}

/// Splitting at a separator in the middle splits the two sides.
pub proof fn lemma_split_concat<T>(a: Seq<T>, sep: T, b: Seq<T>)
    ensures
        split_on(a.push(sep) + b, sep) == split_on(a, sep) + split_on(b, sep),
    decreases b.len(),
{
    let whole = a.push(sep) + b;
    lemma_split_parts(a, sep);
    lemma_split_parts(b, sep);
    if b.len() == 0 {
        assert(whole =~= a.push(sep));
        assert(whole.drop_last() =~= a);
        assert(split_on(whole, sep) =~= split_on(a, sep) + split_on(b, sep));
    } else {
        let rest = b.drop_last();
        lemma_split_concat(a, sep, rest);
        lemma_split_parts(rest, sep);
        assert(whole.drop_last() =~= a.push(sep) + rest);
        assert(whole.last() == b.last());
        assert(split_on(whole, sep) =~= split_on(a, sep) + split_on(b, sep));
    }
}

/// Splitting what was joined gives the parts back.
pub proof fn lemma_split_join<T>(parts: Seq<Seq<T>>, sep: T)
    requires
        parts.len() > 0,
        forall|i: int| 0 <= i < parts.len() ==> !(#[trigger] parts[i]).contains(sep),
    ensures
        split_on(join_with(parts, sep), sep) == parts,
    decreases parts.len(),
{
    lemma_split_plain(parts[parts.len() - 1], sep);
    if parts.len() == 1 {
        assert(parts =~= seq![parts[0]]);
    } else {
        let rest = parts.drop_last();
        assert forall|i: int| 0 <= i < rest.len() implies !(#[trigger] rest[i]).contains(sep) by {
            assert(rest[i] == parts[i]);
        }
        lemma_split_join(rest, sep);
        lemma_split_concat(join_with(rest, sep), sep, parts.last());
        assert(rest + seq![parts.last()] =~= parts);
    }
}

/// What a part holds, the whole holds.
pub proof fn lemma_split_holds<T>(s: Seq<T>, sep: T, t: T, i: int)
    requires
        0 <= i < split_on(s, sep).len(),
        split_on(s, sep)[i].contains(t),
    ensures
        s.contains(t),
    decreases s.len(),
{
    if s.len() > 0 {
        let rest = s.drop_last();
        let parts = split_on(rest, sep);
        lemma_split_parts(rest, sep);
        if s.last() == sep {
            if i < parts.len() {
                lemma_split_holds(rest, sep, t, i);
                assert(s[rest.index_of(t)] == t);
            }
        } else if i < parts.len() - 1 {
            lemma_split_holds(rest, sep, t, i);
            assert(s[rest.index_of(t)] == t);
        } else {
            let part = parts.last().push(s.last());
            let k = part.index_of(t);
            if k < parts.last().len() {
                assert(parts.last()[k] == t);
                assert(parts[i].contains(t));
                lemma_split_holds(rest, sep, t, i);
                assert(s[rest.index_of(t)] == t);
            } else {
                assert(s[s.len() - 1] == t);
            }
        }
    }
}

/// The last part is empty where the sequence ends in the separator, or is
/// empty itself.
pub proof fn lemma_split_last<T>(s: Seq<T>, sep: T)
    ensures
        split_on(s, sep).len() >= 1,
        split_on(s, sep).last().len() == 0 <==> (s.len() == 0 || s.last() == sep),
        s.len() > 0 && s.last() == sep ==> split_on(s, sep).len() >= 2,
{
    lemma_split_parts(s, sep);
    if s.len() > 0 {
        lemma_split_parts(s.drop_last(), sep);
    }
}

/// The models of a list of parts.
pub open spec fn part_views<T>(parts: Seq<Vec<T>>) -> Seq<Seq<T>> {
    Seq::new(parts.len(), |i: int| parts[i]@)
}

/// The parts of some bytes between the separators.
pub fn split_bytes(s: &[u8], sep: u8) -> (r: Vec<Vec<u8>>)
    ensures
        part_views(r@) == split_on(s@, sep),
        r@.len() >= 1,
{
    let mut out: Vec<Vec<u8>> = Vec::new();
    let mut part: Vec<u8> = Vec::new();
    let mut i: usize = 0;
    assert(s@.take(0) =~= Seq::empty());
    assert(part_views(out@).push(part@) =~= seq![Seq::empty()]);
    while i < s.len()
        invariant
            i <= s@.len(),
            split_on(s@.take(i as int), sep) == part_views(out@).push(part@),
        decreases s@.len() - i,
    {
        let ghost before = part_views(out@);
        let ghost parts = split_on(s@.take(i as int), sep);
        assert(s@.take(i + 1).drop_last() =~= s@.take(i as int));
        if s[i] == sep {
            let ghost whole = part@;
            out.push(part);
            part = Vec::new();
            assert(part_views(out@) =~= before.push(whole));
            assert(part_views(out@).push(part@) =~= parts.push(Seq::empty()));
        } else {
            let ghost was = part@;
            part.push(s[i]);
            assert(parts.update(parts.len() - 1, was.push(s@[i as int])) =~= before.push(part@));
        }
        i = i + 1;
    }
    let ghost before = part_views(out@);
    let ghost whole = part@;
    out.push(part);
    assert(part_views(out@) =~= before.push(whole));
    assert(s@.take(i as int) =~= s@);
    out
}

/// The parts of some characters between the separators.
pub fn split_chars(s: &[char], sep: char) -> (r: Vec<Vec<char>>)
    ensures
        part_views(r@) == split_on(s@, sep),
        r@.len() >= 1,
{
    let mut out: Vec<Vec<char>> = Vec::new();
    let mut part: Vec<char> = Vec::new();
    let mut i: usize = 0;
    assert(s@.take(0) =~= Seq::empty());
    assert(part_views(out@).push(part@) =~= seq![Seq::empty()]);
    while i < s.len()
        invariant
            i <= s@.len(),
            split_on(s@.take(i as int), sep) == part_views(out@).push(part@),
        decreases s@.len() - i,
    {
        let ghost before = part_views(out@);
        let ghost parts = split_on(s@.take(i as int), sep);
        assert(s@.take(i + 1).drop_last() =~= s@.take(i as int));
        if s[i] == sep {
            let ghost whole = part@;
            out.push(part);
            part = Vec::new();
            assert(part_views(out@) =~= before.push(whole));
            assert(part_views(out@).push(part@) =~= parts.push(Seq::empty()));
        } else {
            let ghost was = part@;
            part.push(s[i]);
            assert(parts.update(parts.len() - 1, was.push(s@[i as int])) =~= before.push(part@));
        }
        i = i + 1;
    }
    let ghost before = part_views(out@);
    let ghost whole = part@;
    out.push(part);
    assert(part_views(out@) =~= before.push(whole));
    assert(s@.take(i as int) =~= s@);
    out
}

} // verus!
