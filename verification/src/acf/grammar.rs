//! The grammar of ACF documents, as functions from a text to the tree it describes or
//! to the first fault in it.
//!
//! A document is one collection. A collection is a quoted name, an opening brace, any
//! number of entries and a closing brace; an entry is a pair, that is a quoted name
//! followed by a quoted value, or a collection. A quoted string runs from a quote to
//! the next quote, whatever stands between them. Blanks may stand before, between and
//! after these tokens, and nothing else may.
//!
//! Every function here reads the text `s` from an index on and gives either what it
//! read together with the index after it, or the first fault. That they give a tree
//! for the texts of this grammar and for no others is shown in
//! [`crate::acf::describes`].

use crate::acf::value::{plain, AcfTree};
use vstd::prelude::*;

verus! {

/// What was missing where a text stopped being a document.
#[derive(Debug, Clone, Copy, PartialEq, Eq)]
pub enum ParseErrorKind {
    /// The document does not begin with a quoted name.
    MissingName,
    /// A quote was opened and never closed.
    UnterminatedString,
    /// The name of the document is not followed by an opening brace.
    MissingOpenBrace,
    /// A name inside a collection is followed neither by a quoted value nor by an
    /// opening brace.
    MissingValue,
    /// Inside a collection stands something that is neither a quoted name nor the
    /// closing brace, or the text ends before the collection is closed.
    MissingEntry,
    /// Something other than blanks follows the closing brace of the document.
    TrailingContent,
}

/// A fault in a text: what was missing, and the index of the character at which it
/// was missed (the length of the text where the text ended too early; the index of the
/// opening quote for a string that is not closed).
pub struct SyntaxError {
    pub kind: ParseErrorKind,
    pub at: int,
}

/// The characters that may stand between tokens: space, tab, line feed and carriage
/// return.
pub open spec fn is_blank(c: char) -> bool {
    c == ' ' || c == '\t' || c == '\n' || c == '\r'
}

/// Whether `s` holds the character `c` at index `i`.
pub open spec fn holds(s: Seq<char>, i: int, c: char) -> bool {
    0 <= i < s.len() && s[i] == c
}

/// The index of the first character at or after `i` that is no blank; the length of
/// `s` if there is none.
pub open spec fn after_blanks(s: Seq<char>, i: int) -> int
    decreases s.len() - i,
{
    if 0 <= i < s.len() && is_blank(s[i]) {
        after_blanks(s, i + 1)
    } else {
        i
    }
}

/// The index of the first quote at or after `i`; the length of `s` if there is none.
pub open spec fn next_quote(s: Seq<char>, i: int) -> int
    decreases s.len() - i,
{
    if 0 <= i < s.len() && s[i] != '"' {
        next_quote(s, i + 1)
    } else {
        i
    }
}

/// The string whose opening quote stands at `i`: what lies between that quote and the
/// next one, and the index after the closing quote.
pub open spec fn string_at(s: Seq<char>, i: int) -> Result<(Seq<char>, int), SyntaxError> {
    let close = next_quote(s, i + 1);
    if close < s.len() {
        Ok((s.subrange(i + 1, close), close + 1))
    } else {
        Err(SyntaxError { kind: ParseErrorKind::UnterminatedString, at: i })
    }
}

/// The entry whose name begins at `i`, where a quote stands.
pub open spec fn entry(s: Seq<char>, i: int) -> Result<(AcfTree, int), SyntaxError>
    decreases s.len() - i, 0nat,
{
    match string_at(s, i) {
        Err(fault) => Err(fault),
        Ok((name, after_name)) => {
            let j = after_blanks(s, after_name);
            if holds(s, j, '"') {
                match string_at(s, j) {
                    Err(fault) => Err(fault),
                    Ok((value, end)) => Ok((AcfTree::Pair(name, value), end)),
                }
            } else if holds(s, j, '{') {
                proof {
                    lemma_scans_go_forward(s, i + 1);
                    lemma_scans_go_forward(s, after_name);
                }
                match entries(s, j + 1) {
                    Err(fault) => Err(fault),
                    Ok((inner, end)) => Ok((AcfTree::Collection(name, inner), end)),
                }
            } else {
                Err(SyntaxError { kind: ParseErrorKind::MissingValue, at: j })
            }
        },
    }
}

/// The entries of a collection from `i` on, up to its closing brace, and the index
/// after that brace.
///
/// An entry ends after it begins and within the text ([`lemma_entry_bounds`]), so the
/// test on `next` always succeeds; it is there for the termination measure.
pub open spec fn entries(s: Seq<char>, i: int) -> Result<(Seq<AcfTree>, int), SyntaxError>
    decreases s.len() - i, 1nat,
{
    let j = after_blanks(s, i);
    if holds(s, j, '}') {
        Ok((Seq::empty(), j + 1))
    } else if holds(s, j, '"') {
        proof {
            lemma_scans_go_forward(s, i);
        }
        match entry(s, j) {
            Err(fault) => Err(fault),
            Ok((first, next)) => if j < next <= s.len() {
                match entries(s, next) {
                    Err(fault) => Err(fault),
                    Ok((others, end)) => Ok((seq![first] + others, end)),
                }
            } else {
                Err(SyntaxError { kind: ParseErrorKind::MissingEntry, at: next })
            },
        }
    } else {
        Err(SyntaxError { kind: ParseErrorKind::MissingEntry, at: j })
    }
}

/// The tree of the document `s`, or the first fault in it.
pub open spec fn document(s: Seq<char>) -> Result<AcfTree, SyntaxError> {
    let i = after_blanks(s, 0);
    if !holds(s, i, '"') {
        Err(SyntaxError { kind: ParseErrorKind::MissingName, at: i })
    } else {
        match string_at(s, i) {
            Err(fault) => Err(fault),
            Ok((name, after_name)) => {
                let j = after_blanks(s, after_name);
                if !holds(s, j, '{') {
                    Err(SyntaxError { kind: ParseErrorKind::MissingOpenBrace, at: j })
                } else {
                    match entries(s, j + 1) {
                        Err(fault) => Err(fault),
                        Ok((inner, end)) => {
                            let last = after_blanks(s, end);
                            if last < s.len() {
                                Err(SyntaxError { kind: ParseErrorKind::TrailingContent, at: last })
                            } else {
                                Ok(AcfTree::Collection(name, inner))
                            }
                        },
                    }
                }
            },
        }
    }
}

/// Neither scan goes backward.
pub proof fn lemma_scans_go_forward(s: Seq<char>, i: int)
    ensures
        i <= after_blanks(s, i),
        i <= next_quote(s, i),
    decreases s.len() - i,
{
    if 0 <= i < s.len() {
        lemma_scans_go_forward(s, i + 1);
    }
}

/// Where the blanks from `i` on end: at or after `i`, within `s`, with only blanks in
/// between and no blank there.
pub proof fn lemma_after_blanks(s: Seq<char>, i: int)
    requires
        0 <= i <= s.len(),
    ensures
        i <= after_blanks(s, i) <= s.len(),
        forall|k: int| i <= k < after_blanks(s, i) ==> is_blank(#[trigger] s[k]),
        after_blanks(s, i) < s.len() ==> !is_blank(s[after_blanks(s, i)]),
    decreases s.len() - i,
{
    if i < s.len() && is_blank(s[i]) {
        lemma_after_blanks(s, i + 1);
    }
}

/// Where the next quote from `i` on stands: at or after `i`, within `s`, with no quote
/// in between.
pub proof fn lemma_next_quote(s: Seq<char>, i: int)
    requires
        0 <= i <= s.len(),
    ensures
        i <= next_quote(s, i) <= s.len(),
        forall|k: int| i <= k < next_quote(s, i) ==> #[trigger] s[k] != '"',
        next_quote(s, i) < s.len() ==> s[next_quote(s, i)] == '"',
    decreases s.len() - i,
{
    if i < s.len() && s[i] != '"' {
        lemma_next_quote(s, i + 1);
    }
}

/// A string ends after its opening quote and within the text, and is plain.
pub proof fn lemma_string_at(s: Seq<char>, i: int)
    requires
        0 <= i < s.len(),
    ensures
        string_at(s, i) matches Ok((content, end)) ==> i + 2 <= end <= s.len() && plain(content),
        string_at(s, i) matches Err(fault) ==> fault.at == i,
{
    lemma_next_quote(s, i + 1);
}

/// An entry ends after it begins and within the text, and so do the entries of a
/// collection; what they give is well-formed; and a fault lies within the text or at
/// its end.
pub proof fn lemma_entry_bounds(s: Seq<char>, i: int)
    requires
        0 <= i < s.len(),
    ensures
        entry(s, i) matches Ok((tree, end)) ==> i < end <= s.len() && tree.well_formed(),
        entry(s, i) matches Err(fault) ==> i <= fault.at <= s.len(),
    decreases s.len() - i, 0nat,
{
    lemma_string_at(s, i);
    if let Ok((name, after_name)) = string_at(s, i) {
        lemma_after_blanks(s, after_name);
        let j = after_blanks(s, after_name);
        if holds(s, j, '"') {
            lemma_string_at(s, j);
        } else if holds(s, j, '{') {
            lemma_entries_bounds(s, j + 1);
        }
    }
}

/// The entries of a collection end after they begin and within the text; each of them
/// is well-formed; and a fault lies within the text or at its end.
pub proof fn lemma_entries_bounds(s: Seq<char>, i: int)
    requires
        0 <= i <= s.len(),
    ensures
        entries(s, i) matches Ok((list, end)) ==> i < end <= s.len() && forall|k: int|
            0 <= k < list.len() ==> (#[trigger] list[k]).well_formed(),
        entries(s, i) matches Err(fault) ==> i <= fault.at <= s.len(),
    decreases s.len() - i, 1nat,
{
    lemma_after_blanks(s, i);
    let j = after_blanks(s, i);
    if !holds(s, j, '}') && holds(s, j, '"') {
        lemma_entry_bounds(s, j);
        if let Ok((first, next)) = entry(s, j) {
            lemma_entries_bounds(s, next);
        }
    }
}

/// The tree of a document is a well-formed collection, and a fault lies within the
/// text or at its end.
pub proof fn lemma_document_is_well_formed(s: Seq<char>)
    ensures
        document(s) matches Ok(tree) ==> tree.is_describable(),
        document(s) matches Err(fault) ==> 0 <= fault.at <= s.len(),
{
    lemma_after_blanks(s, 0);
    let i = after_blanks(s, 0);
    if holds(s, i, '"') {
        lemma_string_at(s, i);
        if let Ok((name, after_name)) = string_at(s, i) {
            lemma_after_blanks(s, after_name);
            let j = after_blanks(s, after_name);
            if holds(s, j, '{') {
                lemma_entries_bounds(s, j + 1);
                if let Ok((inner, end)) = entries(s, j + 1) {
                    lemma_after_blanks(s, end);
                }
            }
        }
    }
}

} // verus!
