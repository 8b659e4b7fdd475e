//! A destination name that is already taken gets a number: `report.txt`
//! becomes `report (1).txt`, and the number goes up until a name is free.
//!
//! One renaming step takes the extensions off a name, gives the base a
//! numbering or replaces the one it has, and puts the extensions back. The
//! step does not look at the number that a name already carries: a counter
//! that starts at one says which number comes next, and it moves on only
//! when a numbering was replaced. So the step from `a` gives `a (1)` and
//! leaves the counter at one, the step from there gives `a (1)` once more,
//! and only then follow `a (2)`, `a (3)` and so on.

use crate::decimal::decimal;
use crate::decimal::decimal_digits;
use crate::decimal::is_digit;
use crate::decimal::lemma_decimal_injective;
use crate::decimal::lemma_decimal_is_digits;
use crate::error::ResolveError;
use crate::names::append_bytes;
use crate::names::attach_extensions;
use crate::names::base_of;
use crate::names::has_extension;
use crate::names::lemma_base_and_tail;
use crate::names::lemma_split_at_base;
use crate::names::strip_extensions;
use crate::names::tail_of;
use crate::names::texts;
use crate::names::DOT;
use crate::pattern::is_numbered;
use crate::pattern::lemma_numbering_found;
use crate::pattern::numbering_at;
use crate::pattern::root_of;
use crate::pattern::Numbering;
use crate::pattern::CLOSE_PAREN;
use crate::pattern::OPEN_PAREN;
use crate::pattern::SPACE;
use vstd::prelude::*;
use vstd::relations::injective_on;
use vstd::seq_lib::seq_to_set_is_finite;
use vstd::set_lib::lemma_int_range;
use vstd::set_lib::lemma_len_subset;
use vstd::set_lib::lemma_map_size;
use vstd::set_lib::set_int_range;
use vstd::slice::slice_to_vec;

verus! {

/// The numbering that shows `k`: a space and `k` in parentheses.
pub open spec fn numbering(k: nat) -> Seq<u8> {
    seq![SPACE, OPEN_PAREN] + decimal(k) + seq![CLOSE_PAREN]
}

/// What one step makes of a base: a numbered base gets the counter's
/// number in place of its own, any other base gets the number one.
pub open spec fn renamed_base(base: Seq<u8>, counter: nat) -> Seq<u8> {
    if is_numbered(base) {
        root_of(base) + numbering(counter)
    } else {
        base + numbering(1)
    }
}

/// The name that one step makes of `name`.
pub open spec fn next_name(name: Seq<u8>, counter: nat) -> Seq<u8> {
    renamed_base(base_of(name), counter) + tail_of(name)
}

/// The counter after one step from `name`: it moves on only where a
/// numbering was replaced.
pub open spec fn next_counter(name: Seq<u8>, counter: nat) -> nat {
    if is_numbered(base_of(name)) {
        counter + 1
    } else {
        counter
    }
}

/// `name` with the number `k`: its base without any numbering of its own,
/// the numbering for `k`, and its extensions.
pub open spec fn numbered(name: Seq<u8>, k: nat) -> Seq<u8> {
    root_of(base_of(name)) + numbering(k) + tail_of(name)
}

/// `k` is the first number, from one on, with which `name` is not taken.
pub open spec fn least_free(name: Seq<u8>, taken: Seq<Seq<u8>>, k: nat) -> bool {
    &&& k >= 1
    &&& !taken.contains(numbered(name, k))
    &&& forall|j: nat| 1 <= j < k ==> taken.contains(#[trigger] numbered(name, j))
}

/// `free` is the name that `name` ends up with among the names `taken`:
/// `name` itself where it is not taken, else `name` with the first number
/// that is free.
pub open spec fn resolves_to(name: Seq<u8>, taken: Seq<Seq<u8>>, free: Seq<u8>) -> bool {
    if !taken.contains(name) {
        free == name
    } else {
        exists|k: nat| least_free(name, taken, k) && free == numbered(name, k)
    }
}

/// A numbering is at least four bytes, holds no dot, and is a numbering
/// where it ends a text.
pub proof fn lemma_numbering_shape(prefix: Seq<u8>, k: nat)
    ensures
        numbering(k).len() == decimal(k).len() + 3,
        numbering(k).len() >= 4,
        !numbering(k).contains(DOT),
        numbering_at(prefix + numbering(k), prefix.len() as int),
{
    lemma_decimal_is_digits(k);
    let text = numbering(k);
    assert forall|i: int| 0 <= i < text.len() implies text[i] != DOT by {
        if 2 <= i < text.len() - 1 {
            assert(text[i] == decimal(k)[i - 2]);
        }
    }
    let whole = prefix + text;
    let start = prefix.len() as int;
    assert forall|i: int| start + 2 <= i < whole.len() - 1 implies is_digit(
        #[trigger] whole[i],
    ) by {
        assert(whole[i] == decimal(k)[i - start - 2]);
    }
    assert(whole[start] == text[0]);
    assert(whole[start + 1] == text[1]);
    assert(whole[whole.len() - 1] == text[text.len() - 1]);
}

/// The first step from any name gives that name with the number one.
pub proof fn lemma_first_step(name: Seq<u8>)
    ensures
        next_name(name, 1) == numbered(name, 1),
{
}

/// A name that carries a number splits where it was put together: its base
/// is the root with the numbering, its extensions are those of the name it
/// was made from. So a step from it replaces the number and moves the
/// counter on.
pub proof fn lemma_step_from_numbered(name: Seq<u8>, k: nat, counter: nat)
    ensures
        base_of(numbered(name, k)) == root_of(base_of(name)) + numbering(k),
        tail_of(numbered(name, k)) == tail_of(name),
        next_name(numbered(name, k), counter) == numbered(name, counter),
        next_counter(numbered(name, k), counter) == counter + 1,
{
    let root = root_of(base_of(name));
    let base = root + numbering(k);
    let tail = tail_of(name);
    lemma_base_and_tail(name);
    lemma_numbering_shape(root, k);
    assert(!has_extension(base)) by {
        assert forall|at: int| 1 <= at < base.len() implies base[at] != DOT by {
            if at < root.len() {
                assert(base[at] == base_of(name)[at]);
            } else {
                assert(base[at] == numbering(k)[at - root.len()]);
            }
        }
    }
    assert(numbered(name, k) =~= base + tail);
    lemma_split_at_base(base, tail);
    lemma_numbering_found(base, root.len() as int);
    assert(base.take(root.len() as int) =~= root);
}

/// Different numbers give different names.
pub proof fn lemma_numbered_injective(name: Seq<u8>, j: nat, k: nat)
    requires
        numbered(name, j) == numbered(name, k),
    ensures
        j == k,
{
    let root = root_of(base_of(name));
    let tail = tail_of(name);
    let a = numbered(name, j);
    let b = numbered(name, k);
    lemma_numbering_shape(root, j);
    lemma_numbering_shape(root, k);
    assert(a.len() == root.len() + decimal(j).len() + 3 + tail.len());
    assert(b.len() == root.len() + decimal(k).len() + 3 + tail.len());
    assert(decimal(j) =~= decimal(k)) by {
        assert forall|i: int| 0 <= i < decimal(j).len() implies decimal(j)[i] == decimal(k)[i] by {
            assert(a[root.len() + 2 + i] == decimal(j)[i]);
            assert(b[root.len() + 2 + i] == decimal(k)[i]);
        }
    }
    lemma_decimal_injective(j, k);
}

/// No more numbers can all be taken than there are names taken.
pub proof fn lemma_numbers_run_out(name: Seq<u8>, taken: Seq<Seq<u8>>, m: nat)
    requires
        forall|j: nat| 1 <= j <= m ==> taken.contains(#[trigger] numbered(name, j)),
    ensures
        m <= taken.len(),
{
    broadcast use seq_to_set_is_finite;

    let with_number = |j: int| numbered(name, j as nat);
    let numbers = set_int_range(1, m as int + 1);
    lemma_int_range(1, m as int + 1);
    assert(injective_on(with_number, numbers)) by {
        assert forall|x: int, y: int|
            numbers.contains(x) && numbers.contains(y) && #[trigger] with_number(x)
                == #[trigger] with_number(y) implies x == y by {
            lemma_numbered_injective(name, x as nat, y as nat);
        }
    }
    let names = numbers.map(with_number);
    lemma_map_size(numbers, names, with_number);
    assert(names.subset_of(taken.to_set())) by {
        assert forall|text: Seq<u8>| names.contains(text) implies taken.to_set().contains(text) by {
            let j = choose|j: int| numbers.contains(j) && text == with_number(j);
            assert(taken.contains(numbered(name, j as nat)));
        }
    }
    lemma_len_subset(names, taken.to_set());
    taken.lemma_cardinality_of_set();
}

/// Among given names at most one is the result for `name`.
pub proof fn lemma_resolution_unique(
    name: Seq<u8>,
    taken: Seq<Seq<u8>>,
    first: Seq<u8>,
    second: Seq<u8>,
)
    requires
        resolves_to(name, taken, first),
        resolves_to(name, taken, second),
    ensures
        first == second,
{
    if taken.contains(name) {
        let j = choose|k: nat| least_free(name, taken, k) && first == numbered(name, k);
        let k = choose|k: nat| least_free(name, taken, k) && second == numbered(name, k);
        if j < k {
            assert(taken.contains(numbered(name, j)));
        } else if k < j {
            assert(taken.contains(numbered(name, k)));
        }
    }
}

/// Writes the numbering that shows `k`.
pub fn numbering_bytes(k: u64) -> (text: Vec<u8>)
    ensures
        text@ == numbering(k as nat),
{
    let digits = decimal_digits(k);
    let mut text: Vec<u8> = Vec::new();
    text.push(SPACE);
    text.push(OPEN_PAREN);
    append_bytes(&mut text, digits.as_slice());
    text.push(CLOSE_PAREN);
    assert(text@ =~= numbering(k as nat));
    text
}

/// One renaming step: takes the extensions off `name`, numbers the base,
/// and puts the extensions back. Gives the new name and the counter for the
/// step after it.
pub fn next_candidate(numbering: &Numbering, name: &[u8], counter: u64) -> (next: (Vec<u8>, u64))
    requires
        counter < u64::MAX,
    ensures
        next.0@ == next_name(name@, counter as nat),
        next.1 == next_counter(name@, counter as nat),
        next.1 >= counter,
{
    let (base, extensions) = strip_extensions(name);
    let replacement = numbering_bytes(counter);
    let (renamed, moved) = match numbering.renumber(base.as_slice(), replacement.as_slice()) {
        Some(renumbered) => (renumbered, counter + 1),
        None => {
            let mut appended = base;
            let one = numbering_bytes(1);
            append_bytes(&mut appended, one.as_slice());
            (appended, counter)
        },
    };
    (attach_extensions(renamed, &extensions), moved)
}

/// Whether `name` is one of the names in `existing`.
pub fn is_taken(existing: &Vec<Vec<u8>>, name: &[u8]) -> (taken: bool)
    ensures
        taken == texts(existing@).contains(name@),
{
    let mut i: usize = 0;
    while i < existing.len()
        invariant
            i <= existing.len(),
            forall|k: int| 0 <= k < i ==> texts(existing@)[k] != name@,
        decreases existing.len() - i,
    {
        if same_bytes(existing[i].as_slice(), name) {
            assert(texts(existing@)[i as int] == name@);
            return true;
        }
        i = i + 1;
    }
    false
}

/// Whether two byte strings are the same.
pub fn same_bytes(left: &[u8], right: &[u8]) -> (same: bool)
    ensures
        same == (left@ == right@),
{
    if left.len() != right.len() {
        return false;
    }
    let mut i: usize = 0;
    while i < left.len()
        invariant
            i <= left.len(),
            left.len() == right.len(),
            forall|k: int| 0 <= k < i ==> left@[k] == right@[k],
        decreases left.len() - i,
    {
        if left[i] != right[i] {
            return false;
        }
        i = i + 1;
    }
    assert(left@ =~= right@);
    true
}

/// The renaming of one destination name, a step at a time: the candidate
/// name and the counter that holds the next number. Whoever can see which
/// names are taken asks for the candidate, looks, and asks for the next step
/// while the candidate is taken.
pub struct Resolver {
    numbering: Numbering,
    candidate: Vec<u8>,
    counter: u64,
}

impl Resolver {
    /// The candidate name.
    pub closed spec fn name(&self) -> Seq<u8> {
        self.candidate@
    }

    /// The number that the next replaced numbering will show.
    pub closed spec fn count(&self) -> nat {
        self.counter as nat
    }

    /// Starts with `name` itself as the candidate and the counter at one.
    pub fn new(name: &[u8]) -> (made: Result<Resolver, ResolveError>)
        ensures
            made is Ok,
            made matches Ok(resolver) ==> resolver.name() == name@ && resolver.count() == 1,
    {
        match Numbering::new() {
            Ok(numbering) => Ok(Resolver::with_numbering(numbering, name)),
            Err(e) => Err(e),
        }
    }

    /// Starts with `name` itself as the candidate and the counter at one,
    /// with a numbering that is compiled already.
    pub fn with_numbering(numbering: Numbering, name: &[u8]) -> (resolver: Resolver)
        ensures
            resolver.name() == name@,
            resolver.count() == 1,
    {
        Resolver { numbering, candidate: slice_to_vec(name), counter: 1 }
    }

    /// The candidate name.
    pub fn candidate(&self) -> (name: &[u8])
        ensures
            name@ == self.name(),
    {
        self.candidate.as_slice()
    }

    /// The counter.
    pub fn counter(&self) -> (counter: u64)
        ensures
            counter == self.count(),
    {
        self.counter
    }

    /// Takes one step: the candidate becomes the next name, and the counter
    /// moves on if a numbering was replaced.
    pub fn advance(&mut self)
        requires
            old(self).count() < u64::MAX,
        ensures
            final(self).name() == next_name(old(self).name(), old(self).count()),
            final(self).count() == next_counter(old(self).name(), old(self).count()),
            final(self).count() >= old(self).count(),
    {
        let next = next_candidate(&self.numbering, self.candidate.as_slice(), self.counter);
        self.candidate = next.0;
        self.counter = next.1;
    }

    /// Ends the renaming and hands out the candidate.
    pub fn into_candidate(self) -> (name: Vec<u8>)
        ensures
            name@ == self.name(),
    {
        self.candidate
    }
}

/// The free name for `name` among the names in `existing`, worked out with
/// a compiled numbering.
///
/// `name` comes back as it is where it is not taken. Otherwise the steps
/// run through `name` with the numbers one, two, three and so on, and the
/// first of these that is not taken is the result.
pub fn get_next_path_with(numbering: &Numbering, name: &[u8], existing: &Vec<Vec<u8>>) -> (free: Vec<u8>)
    requires
        existing.len() < u64::MAX - 1,
    ensures
        resolves_to(name@, texts(existing@), free@),
        !texts(existing@).contains(free@),
{
    if !is_taken(existing, name) {
        return slice_to_vec(name);
    }
    let ghost taken = texts(existing@);
    let first = next_candidate(numbering, name, 1);
    let mut candidate: Vec<u8> = first.0;
    let mut counter: u64 = first.1;
    let ghost mut number: nat = 1;
    while is_taken(existing, candidate.as_slice())
        invariant
            taken == texts(existing@),
            existing.len() < u64::MAX - 1,
            number >= 1,
            candidate@ == numbered(name@, number),
            counter == number || counter == number + 1,
            forall|j: nat| 1 <= j < number ==> taken.contains(#[trigger] numbered(name@, j)),
        decreases existing.len() + 2 - counter,
    {
        proof {
            lemma_numbers_run_out(name@, taken, number);
            lemma_step_from_numbered(name@, number, counter as nat);
        }
        let next = next_candidate(numbering, candidate.as_slice(), counter);
        proof {
            number = counter as nat;
        }
        candidate = next.0;
        counter = next.1;
    }
    assert(least_free(name@, taken, number));
    candidate
}

/// The free name for `name` among the names in `existing`.
///
/// A name that is not taken comes back unchanged. A name that is taken
/// comes back with the first number that is free.
pub fn get_next_path(name: &[u8], existing: &Vec<Vec<u8>>) -> (resolved: Result<Vec<u8>, ResolveError>)
    requires
        existing.len() < u64::MAX - 1,
    ensures
        resolved is Ok,
        !texts(existing@).contains(name@) ==> resolved->Ok_0@ == name@,
        resolved matches Ok(free) ==> resolves_to(name@, texts(existing@), free@)
            && !texts(existing@).contains(free@),
{
    if !is_taken(existing, name) {
        return Ok(slice_to_vec(name));
    }
    match Numbering::new() {
        Ok(numbering) => Ok(get_next_path_with(&numbering, name, existing)),
        Err(e) => Err(e),
    }
}

} // verus!
