//! Splitting a static HTML document at its insertion marker.
//!
//! A shell is the pair of strings that brackets streamed content: everything
//! up to and including the first occurrence of the marker, and everything
//! after it.

use vstd::prelude::*;
use vstd::string::*;

verus! {

/// The marker of the insertion point in a page: the tag that opens its body.
pub const BODY_MARKER: &'static str = "<body>";

/// Whether `marker` stands in `document` at offset `at`.
pub open spec fn occurs_at(document: Seq<char>, marker: Seq<char>, at: int) -> bool {
    &&& 0 <= at
    &&& at + marker.len() <= document.len()
    &&& document.subrange(at, at + marker.len()) == marker
}

/// Whether `marker` stands anywhere in `document`.
pub open spec fn occurs(document: Seq<char>, marker: Seq<char>) -> bool {
    exists|at: int| occurs_at(document, marker, at)
}

/// Whether `at` is the leftmost offset at which `marker` stands in `document`.
pub open spec fn is_first_occurrence(document: Seq<char>, marker: Seq<char>, at: int) -> bool {
    &&& occurs_at(document, marker, at)
    &&& forall|earlier: int| 0 <= earlier < at ==> !occurs_at(document, marker, earlier)
}

/// The leftmost offset at which `marker` stands in `document`; meaningful
/// only when `occurs(document, marker)`.
pub open spec fn first_occurrence(document: Seq<char>, marker: Seq<char>) -> int {
    choose|at: int| is_first_occurrence(document, marker, at)
}

/// The two halves of `document` around the first occurrence of `marker`,
/// the marker itself closing the first half; `None` when the marker is absent.
pub open spec fn split_at_first(document: Seq<char>, marker: Seq<char>) -> Option<
    (Seq<char>, Seq<char>),
> {
    if occurs(document, marker) {
        let cut = first_occurrence(document, marker) + marker.len();
        Some((document.subrange(0, cut), document.subrange(cut, document.len() as int)))
    } else {
        None
    }
}

/// A leftmost occurrence is unique.
pub proof fn lemma_first_occurrence_unique(
    document: Seq<char>,
    marker: Seq<char>,
    a: int,
    b: int,
)
    requires
        is_first_occurrence(document, marker, a),
        is_first_occurrence(document, marker, b),
    ensures
        a == b,
{
    if a < b {
        assert(!occurs_at(document, marker, a));
    } else if b < a {
        assert(!occurs_at(document, marker, b));
    }
}

/// Any occurrence at `at` implies a leftmost one at or before `at`, and
/// `first_occurrence` names it.
pub proof fn lemma_first_occurrence_exists(document: Seq<char>, marker: Seq<char>, at: int)
    requires
        occurs_at(document, marker, at),
    ensures
        is_first_occurrence(document, marker, first_occurrence(document, marker)),
        0 <= first_occurrence(document, marker) <= at,
    decreases at,
{
    if exists|earlier: int| 0 <= earlier < at && occurs_at(document, marker, earlier) {
        let earlier = choose|earlier: int| 0 <= earlier < at && occurs_at(document, marker, earlier);
        lemma_first_occurrence_exists(document, marker, earlier);
    } else {
        assert(is_first_occurrence(document, marker, at));
        let first = first_occurrence(document, marker);
        lemma_first_occurrence_unique(document, marker, first, at);
    }
}

/// Round trip: whenever the marker occurs, the first half ends with the
/// marker, and the two halves put back together are the document, character
/// for character.
pub proof fn lemma_split_round_trip(document: Seq<char>, marker: Seq<char>)
    requires
        occurs(document, marker),
    ensures
        split_at_first(document, marker) matches Some((prefix, suffix)) && {
            &&& prefix + suffix == document
            &&& prefix == document.subrange(0, first_occurrence(document, marker)) + marker
        },
{
    let at = choose|at: int| occurs_at(document, marker, at);
    lemma_first_occurrence_exists(document, marker, at);
    let first = first_occurrence(document, marker);
    let cut = first + marker.len();
    assert(document.subrange(0, cut) + document.subrange(cut, document.len() as int)
        =~= document);
    assert(document.subrange(0, cut) =~= document.subrange(0, first) + document.subrange(
        first,
        cut,
    ));
}

/// Absence: a document without the marker has no halves at all.
pub proof fn lemma_split_absent(document: Seq<char>, marker: Seq<char>)
    requires
        !occurs(document, marker),
    ensures
        split_at_first(document, marker) is None,
{
}

/// The static document cut in two at its insertion point.
#[derive(Debug, Clone, PartialEq, Eq)]
pub struct Shell {
    /// Everything up to and including the marker.
    pub prefix: String,
    /// Everything after the marker.
    pub suffix: String,
}

/// Why a document could not be split.
#[derive(Debug, Clone, Copy, PartialEq, Eq)]
pub enum ShellError {
    /// The marker does not occur in the document.
    MarkerNotFound,
}

/// The characters of `text`, decoded once so that they can be indexed.
fn chars_of(text: &str) -> (out: Vec<char>)
    ensures
        out@ == text@,
{
    let mut out: Vec<char> = Vec::new();
    for c in it: text.chars()
        invariant
            it.seq() == text@,
            out@ == it.seq().take(it.index() as int),
    {
        out.push(c);
    }
    out
}

/// Whether `marker` stands in `document` at offset `at`.
fn matches_at(document: &Vec<char>, marker: &Vec<char>, at: usize) -> (found: bool)
    requires
        at + marker.len() <= document.len(),
    ensures
        found == occurs_at(document@, marker@, at as int),
{
    let mut k: usize = 0;
    while k < marker.len()
        invariant
            k <= marker.len(),
            at + marker.len() <= document.len(),
            forall|j: int| 0 <= j < k ==> document@[at + j] == marker@[j],
        decreases marker@.len() - k,
    {
        if document[at + k] != marker[k] {
            assert(document@.subrange(at as int, at + marker@.len())[k as int] != marker@[k as int]);
            return false;
        }
        k += 1;
    }
    assert(document@.subrange(at as int, at + marker@.len()) =~= marker@);
    true
}

/// The leftmost offset at which `marker` stands in `document`, if any.
fn find_first(document: &Vec<char>, marker: &Vec<char>) -> (found: Option<usize>)
    ensures
        match found {
            Some(at) => is_first_occurrence(document@, marker@, at as int),
            None => !occurs(document@, marker@),
        },
{
    if marker.len() > document.len() {
        return None;
    }
    let last: usize = document.len() - marker.len();
    let mut at: usize = 0;
    loop
        invariant
            last == document.len() - marker.len(),
            at <= last,
            forall|earlier: int| 0 <= earlier < at ==> !occurs_at(document@, marker@, earlier),
        decreases last - at,
    {
        if matches_at(document, marker, at) {
            return Some(at);
        }
        if at == last {
            return None;
        }
        at += 1;
    }
}

/// Splits `document` at the first occurrence of `marker`.
///
/// The prefix runs up to and including the marker, the suffix holds the rest,
/// so that the two put back together are the document again. A document in
/// which the marker does not occur is refused with
/// [`ShellError::MarkerNotFound`].
pub fn split(document: &str, marker: &str) -> (result: Result<Shell, ShellError>)
    ensures
        match result {
            Ok(shell) => split_at_first(document@, marker@) == Some((shell.prefix@, shell.suffix@)),
            Err(error) => error == ShellError::MarkerNotFound && !occurs(document@, marker@),
        },
        result is Ok <==> occurs(document@, marker@),
        result matches Ok(shell) ==> shell.prefix@ + shell.suffix@ == document@,
{
    let text = chars_of(document);
    let pattern = chars_of(marker);
    match find_first(&text, &pattern) {
        Some(at) => {
            assert(at + pattern.len() <= text.len());
            let cut: usize = at + pattern.len();
            let prefix = String::from_str(document.substring_char(0, cut));
            let suffix = String::from_str(document.substring_char(cut, text.len()));
            proof {
                lemma_first_occurrence_exists(document@, marker@, at as int);
                lemma_first_occurrence_unique(
                    document@,
                    marker@,
                    first_occurrence(document@, marker@),
                    at as int,
                );
                lemma_split_round_trip(document@, marker@);
            }
            Ok(Shell { prefix, suffix })
        },
        None => Err(ShellError::MarkerNotFound),
    }
}

} // verus!
