//! File names taken apart: the base of a name and the extensions behind it.
//!
//! An extension is the text after the last dot of a name. A dot that is the
//! first byte of a name starts no extension: `.profile` has none.

use vstd::prelude::*;
use vstd::slice::slice_subrange;
use vstd::slice::slice_to_vec;

verus! {

pub const DOT: u8 = 0x2e;

/// The first place from `from` on where `name` holds a dot, or the length of
/// `name` where it holds none.
pub open spec fn next_dot(name: Seq<u8>, from: int) -> int
    decreases name.len() - from,
{
    if from >= name.len() {
        name.len() as int
    } else if name[from] == DOT {
        from
    } else {
        next_dot(name, from + 1)
    }
}

/// How long the base of `name` is. The base is what stays when every
/// extension has been taken off, so it ends at the first dot behind the
/// first byte.
pub open spec fn base_len(name: Seq<u8>) -> int {
    if name.len() == 0 {
        0
    } else {
        next_dot(name, 1)
    }
}

/// `name` without its extensions.
pub open spec fn base_of(name: Seq<u8>) -> Seq<u8> {
    name.take(base_len(name))
}

/// The extensions of `name` with their dots, as they stand behind its base.
pub open spec fn tail_of(name: Seq<u8>) -> Seq<u8> {
    name.skip(base_len(name))
}

/// `name` holds a dot behind its first byte.
pub open spec fn has_extension(name: Seq<u8>) -> bool {
    exists|at: int| 1 <= at < name.len() && name[at] == DOT
}

/// `at` is the last dot of `name` and not its first byte: the extension of
/// `name` is what follows it.
pub open spec fn extension_dot(name: Seq<u8>, at: int) -> bool {
    &&& 1 <= at < name.len()
    &&& name[at] == DOT
    &&& forall|j: int| at < j < name.len() ==> name[j] != DOT
}

/// The texts that a list of byte vectors holds.
pub open spec fn texts(list: Seq<Vec<u8>>) -> Seq<Seq<u8>> {
    list.map_values(|item: Vec<u8>| item@)
}

/// Extensions put back behind a base. They are listed as they were taken
/// off, the outermost first, so the last of the list comes first again.
pub open spec fn join_extensions(extensions: Seq<Seq<u8>>) -> Seq<u8>
    decreases extensions.len(),
{
    if extensions.len() == 0 {
        Seq::empty()
    } else {
        seq![DOT] + extensions.last() + join_extensions(extensions.drop_last())
    }
}

pub proof fn lemma_next_dot_bounds(name: Seq<u8>, from: int)
    requires
        0 <= from <= name.len(),
    ensures
        from <= next_dot(name, from) <= name.len(),
        next_dot(name, from) < name.len() ==> name[next_dot(name, from)] == DOT,
        forall|j: int| from <= j < next_dot(name, from) ==> name[j] != DOT,
    decreases name.len() - from,
{
    if from < name.len() && name[from] != DOT {
        lemma_next_dot_bounds(name, from + 1);
    }
}

/// A place with no dot before it, from `from` on, that holds a dot or is the
/// end of the name, is the next dot.
pub proof fn lemma_next_dot_is(name: Seq<u8>, from: int, at: int)
    requires
        0 <= from <= at <= name.len(),
        forall|j: int| from <= j < at ==> name[j] != DOT,
        at < name.len() ==> name[at] == DOT,
    ensures
        next_dot(name, from) == at,
    decreases at - from,
{
    if from < at {
        lemma_next_dot_is(name, from + 1, at);
    }
}

/// A name is its base followed by its extensions.
pub proof fn lemma_base_and_tail(name: Seq<u8>)
    ensures
        0 <= base_len(name) <= name.len(),
        base_of(name) + tail_of(name) == name,
        !has_extension(base_of(name)),
        tail_of(name).len() > 0 ==> tail_of(name)[0] == DOT && base_len(name) >= 1,
{
    if name.len() > 0 {
        lemma_next_dot_bounds(name, 1);
    }
    assert(base_of(name) + tail_of(name) =~= name);
}

/// Where a base without extensions is followed by nothing, or by text that
/// starts with a dot, the whole splits exactly there.
pub proof fn lemma_split_at_base(base: Seq<u8>, tail: Seq<u8>)
    requires
        !has_extension(base),
        tail.len() > 0 ==> tail[0] == DOT && base.len() >= 1,
    ensures
        base_of(base + tail) == base,
        tail_of(base + tail) == tail,
{
    let name = base + tail;
    if name.len() > 0 {
        assert forall|j: int| 1 <= j < base.len() implies name[j] != DOT by {
            assert(name[j] == base[j]);
        }
        if tail.len() > 0 {
            assert(name[base.len() as int] == tail[0]);
        }
        lemma_next_dot_is(name, 1, base.len() as int);
    }
    assert(name.take(base.len() as int) =~= base);
    assert(name.skip(base.len() as int) =~= tail);
}

/// Looks for the extension of `name`: the place of its last dot, unless
/// that dot is the first byte.
pub fn find_extension(name: &[u8]) -> (found: Option<usize>)
    ensures
        match found {
            Some(at) => extension_dot(name@, at as int),
            None => !has_extension(name@),
        },
{
    let mut i: usize = name.len();
    while i > 1
        invariant
            i <= name.len(),
            forall|j: int| i <= j < name.len() ==> name@[j] != DOT,
        decreases i,
    {
        i = i - 1;
        if name[i] == DOT {
            return Some(i);
        }
    }
    None
}

/// Takes the extensions off `name` one at a time, the outermost first, until
/// none is left. Gives the base and the extensions in the order in which
/// they came off.
pub fn strip_extensions(name: &[u8]) -> (parts: (Vec<u8>, Vec<Vec<u8>>))
    ensures
        parts.0@ == base_of(name@),
        join_extensions(texts(parts.1@)) == tail_of(name@),
        forall|i: int| 0 <= i < parts.1@.len() ==> !(#[trigger] parts.1@[i])@.contains(DOT),
{
    let mut base: Vec<u8> = slice_to_vec(name);
    let mut extensions: Vec<Vec<u8>> = Vec::new();
    assert(name@.take(name@.len() as int) =~= name@);
    assert(name@.skip(name@.len() as int) =~= Seq::<u8>::empty());
    assert(texts(extensions@) =~= Seq::<Seq<u8>>::empty());
    loop
        invariant_except_break
            base@.len() <= name@.len(),
            base@ == name@.take(base@.len() as int),
            join_extensions(texts(extensions@)) == name@.skip(base@.len() as int),
            base@.len() < name@.len() ==> base@.len() >= 1 && name@[base@.len() as int] == DOT,
            forall|i: int| 0 <= i < extensions@.len() ==> !(#[trigger] extensions@[i])@.contains(DOT),
        ensures
            base@.len() <= name@.len(),
            base@ == name@.take(base@.len() as int),
            join_extensions(texts(extensions@)) == name@.skip(base@.len() as int),
            base@.len() < name@.len() ==> base@.len() >= 1 && name@[base@.len() as int] == DOT,
            forall|i: int| 0 <= i < extensions@.len() ==> !(#[trigger] extensions@[i])@.contains(DOT),
            !has_extension(base@),
        decreases base@.len(),
    {
        match find_extension(base.as_slice()) {
            None => {
                break ;
            },
            Some(dot) => {
                assert(dot < base.len());
                let extension: Vec<u8> = slice_to_vec(
                    slice_subrange(base.as_slice(), dot + 1, base.len()),
                );
                let ghost taken = texts(extensions@).push(extension@);
                proof {
                    assert(taken.drop_last() =~= texts(extensions@));
                    assert(seq![DOT] + extension@ + name@.skip(base@.len() as int) =~= name@.skip(
                        dot as int,
                    )) by {
                        assert(forall|k: int|
                            0 <= k < base@.len() ==> base@[k] == name@[k]);
                    }
                    assert(name@.take(base@.len() as int).subrange(0, dot as int) =~= name@.take(
                        dot as int,
                    ));
                }
                extensions.push(extension);
                assert(texts(extensions@) =~= taken);
                base.truncate(dot);
            },
        }
    }
    proof {
        lemma_split_at_base(base@, name@.skip(base@.len() as int));
        assert(base@ + name@.skip(base@.len() as int) =~= name@);
    }
    (base, extensions)
}

/// Puts extensions back behind `base`, joined by dots, the one that came
/// off last first.
pub fn attach_extensions(base: Vec<u8>, extensions: &Vec<Vec<u8>>) -> (name: Vec<u8>)
    ensures
        name@ == base@ + join_extensions(texts(extensions@)),
{
    let mut name: Vec<u8> = base;
    let mut i: usize = extensions.len();
    assert(texts(extensions@).take(i as int) =~= texts(extensions@));
    while i > 0
        invariant
            i <= extensions.len(),
            name@ + join_extensions(texts(extensions@).take(i as int)) == base@
                + join_extensions(texts(extensions@)),
        decreases i,
    {
        i = i - 1;
        let extension: &Vec<u8> = &extensions[i];
        proof {
            let before = texts(extensions@).take(i + 1);
            assert(before.last() == extension@);
            assert(before.drop_last() =~= texts(extensions@).take(i as int));
        }
        let ghost prior = name@;
        name.push(DOT);
        append_bytes(&mut name, extension.as_slice());
        assert(name@ + join_extensions(texts(extensions@).take(i as int)) =~= prior + (seq![DOT]
            + extension@ + join_extensions(texts(extensions@).take(i as int))));
    }
    assert(name@ + Seq::<u8>::empty() =~= name@);
    name
}

/// Appends `more` to `out`.
pub fn append_bytes(out: &mut Vec<u8>, more: &[u8])
    ensures
        final(out)@ == old(out)@ + more@,
{
    let mut i: usize = 0;
    while i < more.len()
        invariant
            i <= more.len(),
            out@ == old(out)@ + more@.take(i as int),
        decreases more.len() - i,
    {
        out.push(more[i]);
        assert(more@.take(i + 1) =~= more@.take(i as int).push(more@[i as int]));
        i = i + 1;
    }
    assert(more@.take(more@.len() as int) =~= more@);
}

} // verus!
