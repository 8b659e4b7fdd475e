//! The numbering that renamed files carry: a space, then a decimal number in
//! parentheses, at the very end of a name. A regular-expression engine finds
//! and replaces it; this file states what is taken on trust of that engine.

use crate::decimal::is_digit;
use crate::error::ResolveError;
use regex::bytes::NoExpand;
use regex::bytes::Regex;
use vstd::prelude::*;

verus! {

/// `regex::bytes::Regex`, a compiled expression. Nothing is known of what
/// is inside one but what the items below say.
#[verifier::external_type_specification]
#[verifier::external_body]
pub struct ExRegex(regex::bytes::Regex);

/// `regex::Error`, the reason why an expression did not compile. It is only
/// carried through.
#[verifier::external_type_specification]
#[verifier::external_body]
pub struct ExRegexError(regex::Error);

pub const SPACE: u8 = 0x20;

pub const OPEN_PAREN: u8 = 0x28;

pub const CLOSE_PAREN: u8 = 0x29;

/// The expression handed to the engine: a space, `(`, one or more of the
/// digits `0` to `9`, `)`, and the end of the text.
pub const NUMBERING: &'static str = " \\([0-9]+\\)$";

/// From `start` to its end, `name` reads: a space, an opening parenthesis,
/// one or more decimal digits, a closing parenthesis.
pub open spec fn numbering_at(name: Seq<u8>, start: int) -> bool {
    &&& 0 <= start
    &&& start + 4 <= name.len()
    &&& name[start] == SPACE
    &&& name[start + 1] == OPEN_PAREN
    &&& name[name.len() - 1] == CLOSE_PAREN
    &&& forall|i: int| start + 2 <= i < name.len() - 1 ==> is_digit(#[trigger] name[i])
}

/// The text that a compiled expression was built from: what
/// `Regex::as_str` gives for it.
pub uninterp spec fn pattern_text(re: Regex) -> Seq<char>;

/// Calls `regex::bytes::Regex::new`. Taken on trust: an expression that
/// comes back was built from exactly the text given; and the engine accepts
/// the text `NUMBERING`, which is well formed by its syntax and far below
/// the size at which it refuses an expression.
#[verifier::external_body]
fn compile(pattern: &str) -> (built: Result<Regex, regex::Error>)
    ensures
        built matches Ok(re) ==> pattern_text(re) == pattern@,
        pattern@ == NUMBERING@ ==> built is Ok,
{
    Regex::new(pattern)
}

/// Calls `regex::bytes::Regex::find` and hands back the start and end of
/// the match. Taken on trust: a match is a byte range inside `haystack`.
/// Taken on trust of the engine's syntax as well, for the one expression
/// `NUMBERING`: a literal space, an escaped `(`, the class `[0-9]` once or
/// more, an escaped `)`, and `$`, which without the multi-line flag is the
/// end of the haystack and nothing else. So a match of it starts where a
/// numbering starts and ends where the haystack ends, and there is one
/// wherever the haystack ends in a numbering.
#[verifier::external_body]
fn find_first(re: &Regex, haystack: &[u8]) -> (found: Option<(usize, usize)>)
    ensures
        found matches Some((start, end)) ==> start <= end <= haystack@.len(),
        pattern_text(*re) == NUMBERING@ ==> match found {
            Some((start, end)) => numbering_at(haystack@, start as int) && end == haystack@.len(),
            None => forall|start: int| !numbering_at(haystack@, start),
        },
{
    re.find(haystack).map(|m| (m.start(), m.end()))
}

/// Calls `regex::bytes::Regex::replace` with the replacement wrapped in
/// `NoExpand`, so that it is inserted as it stands. Taken on trust, for the
/// one expression `NUMBERING`, of which a match is a numbering that ends the
/// haystack: the numbering is cut off and the replacement put in its place;
/// a haystack that ends in no numbering comes back unchanged.
#[verifier::external_body]
fn replace_first(re: &Regex, haystack: &[u8], replacement: &[u8]) -> (out: Vec<u8>)
    ensures
        pattern_text(*re) == NUMBERING@ ==> {
            &&& forall|start: int| #[trigger]
                numbering_at(haystack@, start) ==> out@ == haystack@.take(start) + replacement@
            &&& (forall|start: int| !numbering_at(haystack@, start)) ==> out@ == haystack@
        },
{
    re.replace(haystack, NoExpand(replacement)).into_owned()
}

/// `name` ends in a numbering.
pub open spec fn is_numbered(name: Seq<u8>) -> bool {
    exists|start: int| numbering_at(name, start)
}

/// Where the numbering that ends `name` starts.
pub open spec fn numbering_start(name: Seq<u8>) -> int {
    choose|start: int| numbering_at(name, start)
}

/// `name` without the numbering that it ends in, if it ends in one.
pub open spec fn root_of(name: Seq<u8>) -> Seq<u8> {
    if is_numbered(name) {
        name.take(numbering_start(name))
    } else {
        name
    }
}

/// A name ends in at most one numbering: no digit is a space.
pub proof fn lemma_numbering_unique(name: Seq<u8>, first: int, second: int)
    requires
        numbering_at(name, first),
        numbering_at(name, second),
    ensures
        first == second,
{
    if first < second {
        if second > first + 1 {
            assert(is_digit(name[second]));
        }
    } else if second < first {
        if first > second + 1 {
            assert(is_digit(name[first]));
        }
    }
}

/// A numbering found at `start` is the numbering of the name.
pub proof fn lemma_numbering_found(name: Seq<u8>, start: int)
    requires
        numbering_at(name, start),
    ensures
        is_numbered(name),
        numbering_start(name) == start,
        root_of(name) == name.take(start),
{
    lemma_numbering_unique(name, start, numbering_start(name));
}

/// The compiled expression for a numbering.
pub struct Numbering {
    re: Regex,
}

impl Numbering {
    #[verifier::type_invariant]
    spec fn built_from_numbering(&self) -> bool {
        pattern_text(self.re) == NUMBERING@
    }

    /// Compiles `NUMBERING`, which the engine accepts.
    pub fn new() -> (made: Result<Numbering, ResolveError>)
        ensures
            made is Ok,
            made matches Ok(numbering) ==> numbering.expression() == NUMBERING@,
    {
        match compile(NUMBERING) {
            Ok(re) => Ok(Numbering { re }),
            Err(_) => Err(ResolveError::Pattern),
        }
    }

    /// The text of the expression that this numbering was compiled from.
    pub closed spec fn expression(&self) -> Seq<char> {
        pattern_text(self.re)
    }

    /// Puts `replacement` in the place of the numbering that `name` ends
    /// in. `None` where `name` ends in no numbering.
    pub fn renumber(&self, name: &[u8], replacement: &[u8]) -> (renumbered: Option<Vec<u8>>)
        ensures
            match renumbered {
                Some(text) => is_numbered(name@) && text@ == root_of(name@) + replacement@,
                None => !is_numbered(name@),
            },
    {
        proof {
            use_type_invariant(self);
        }
        match find_first(&self.re, name) {
            Some((start, end)) => {
                let text = replace_first(&self.re, name, replacement);
                proof {
                    lemma_numbering_found(name@, start as int);
                    assert(numbering_at(name@, start as int));
                    assert(text@ == name@.take(start as int) + replacement@);
                }
                Some(text)
            },
            None => None,
        }
    }
}

} // verus!
