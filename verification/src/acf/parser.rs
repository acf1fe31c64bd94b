//! The parser: from the text of a document to its tree.

use crate::acf::describes::{is_document, lemma_document_reads_what_is_described};
use crate::acf::grammar::{
    after_blanks, document, entries, entry, holds, lemma_after_blanks, lemma_entry_bounds,
    lemma_next_quote, next_quote, string_at, ParseErrorKind, SyntaxError,
};
use crate::acf::value::{lemma_collection_view, trees, AcfTree, AcfValue};
use crate::number::{decimal, write_decimal};
use crate::text::{Mark, Source};
use vstd::prelude::*;
use vstd::string::*;

verus! {

broadcast use vstd::string::group_string_axioms;

/// Why a text is no document: what was missing, and the index of the character at
/// which it was missed. Characters are counted from 0; a text that ended too early has
/// its length here, and a string that is never closed the index of its opening quote.
#[derive(Debug, Clone, Copy, PartialEq, Eq)]
pub struct ParseError {
    pub kind: ParseErrorKind,
    pub position: usize,
}

impl View for ParseError {
    type V = SyntaxError;

    open spec fn view(&self) -> SyntaxError {
        SyntaxError { kind: self.kind, at: self.position as int }
    }
}

/// What a kind of fault is called in words.
pub open spec fn kind_text(kind: ParseErrorKind) -> Seq<char> {
    match kind {
        ParseErrorKind::MissingName => "expected the quoted name of the document"@,
        ParseErrorKind::UnterminatedString => "this quote is never closed"@,
        ParseErrorKind::MissingOpenBrace => "expected `{` after the name of the document"@,
        ParseErrorKind::MissingValue => "expected a quoted value or `{` after the name"@,
        ParseErrorKind::MissingEntry => "expected a quoted name or `}`"@,
        ParseErrorKind::TrailingContent => "expected nothing after the closing `}` of the document"@,
    }
}

/// What a fault is called in words: what was missing, and where.
pub open spec fn fault_text(fault: SyntaxError) -> Seq<char> {
    kind_text(fault.kind) + " at character "@ + decimal(fault.at as nat)
}

impl ParseError {
    /// What was missing and where, in words.
    pub fn message(&self) -> (text: String)
        ensures
            text@ == fault_text(self@),
    {
        let mut text = String::new();
        text.append(self.description());
        text.append(" at character ");
        write_decimal(self.position as u64, &mut text);
        text
    }

    /// What was missing, in words. The place is [`ParseError::position`].
    pub fn description(&self) -> (text: &'static str)
        ensures
            text@ == kind_text(self.kind),
    {
        match self.kind {
            ParseErrorKind::MissingName => "expected the quoted name of the document",
            ParseErrorKind::UnterminatedString => "this quote is never closed",
            ParseErrorKind::MissingOpenBrace => "expected `{` after the name of the document",
            ParseErrorKind::MissingValue => "expected a quoted value or `{` after the name",
            ParseErrorKind::MissingEntry => "expected a quoted name or `}`",
            ParseErrorKind::TrailingContent => "expected nothing after the closing `}` of the document",
        }
    }
}

/// The codes of the characters that the grammar names.
const QUOTE: u8 = 0x22;

const OPEN_BRACE: u8 = 0x7B;

const CLOSE_BRACE: u8 = 0x7D;

const SPACE: u8 = 0x20;

const TAB: u8 = 0x09;

const LINE_FEED: u8 = 0x0A;

const CARRIAGE_RETURN: u8 = 0x0D;

/// What `rest` gives, with `front` put before its entries.
pub open spec fn with_front(
    front: Seq<AcfTree>,
    rest: Result<(Seq<AcfTree>, int), SyntaxError>,
) -> Result<(Seq<AcfTree>, int), SyntaxError> {
    match rest {
        Ok((others, end)) => Ok((front + others, end)),
        Err(fault) => Err(fault),
    }
}

/// The place of the first character at or after `from` that is no blank.
fn skip_blanks(source: &Source<'_>, from: Mark) -> (to: Mark)
    requires
        source.wf(),
        from.within(source.chars()),
    ensures
        to.within(source.chars()),
        to.at() == after_blanks(source.chars(), from.at()),
{
    let mut m = from;
    loop
        invariant
            source.wf(),
            m.within(source.chars()),
            after_blanks(source.chars(), from.at()) == after_blanks(source.chars(), m.at()),
        decreases source.chars().len() - m.at(),
    {
        let blank = match source.peek(m) {
            Some(code) => code == SPACE || code == TAB || code == LINE_FEED || code
                == CARRIAGE_RETURN,
            None => false,
        };
        if !blank {
            return m;
        }
        m = source.next(m);
    }
}

/// The string whose opening quote stands at `open`, and the place after its closing
/// quote.
fn read_string<'a>(source: &Source<'a>, open: Mark) -> (r: Result<(&'a str, Mark), ParseError>)
    requires
        source.wf(),
        open.within(source.chars()),
        holds(source.chars(), open.at(), '"'),
    ensures
        match r {
            Ok((content, end)) => end.within(source.chars()) && string_at(
                source.chars(),
                open.at(),
            ) == Ok::<(Seq<char>, int), SyntaxError>((content@, end.at())),
            Err(fault) => string_at(source.chars(), open.at()) == Err::<
                (Seq<char>, int),
                SyntaxError,
            >(fault@),
        },
{
    let first = source.next(open);
    let mut m = first;
    loop
        invariant
            source.wf(),
            first.within(source.chars()),
            m.within(source.chars()),
            first.at() == open.at() + 1,
            first.at() <= m.at(),
            next_quote(source.chars(), first.at()) == next_quote(source.chars(), m.at()),
        decreases source.chars().len() - m.at(),
    {
        match source.peek(m) {
            None => {
                return Err(
                    ParseError { kind: ParseErrorKind::UnterminatedString, position: open.index() },
                );
            },
            Some(code) => {
                if code == QUOTE {
                    return Ok((source.slice(first, m), source.next(m)));
                }
                m = source.next(m);
            },
        }
    }
}

/// The entry whose name begins at `at`, and the place after it.
fn read_entry<'a>(source: &Source<'a>, at: Mark) -> (r: Result<(AcfValue<'a>, Mark), ParseError>)
    requires
        source.wf(),
        at.within(source.chars()),
        holds(source.chars(), at.at(), '"'),
    ensures
        match r {
            Ok((value, end)) => end.within(source.chars()) && entry(source.chars(), at.at())
                == Ok::<(AcfTree, int), SyntaxError>((value@, end.at())),
            Err(fault) => entry(source.chars(), at.at()) == Err::<(AcfTree, int), SyntaxError>(
                fault@,
            ),
        },
    decreases source.chars().len() - at.at(), 0nat,
{
    let (name, after_name) = match read_string(source, at) {
        Ok(read) => read,
        Err(fault) => {
            return Err(fault);
        },
    };
    proof {
        lemma_next_quote(source.chars(), at.at() + 1);
        lemma_after_blanks(source.chars(), after_name.at());
    }
    let j = skip_blanks(source, after_name);
    if source.holds(j, QUOTE) {
        match read_string(source, j) {
            Ok((value, end)) => Ok((AcfValue::Pair(name, value), end)),
            Err(fault) => Err(fault),
        }
    } else if source.holds(j, OPEN_BRACE) {
        match read_entries(source, source.next(j)) {
            Ok((inner, end)) => {
                proof {
                    lemma_collection_view(name, inner);
                }
                Ok((AcfValue::Collection(name, inner), end))
            },
            Err(fault) => Err(fault),
        }
    } else {
        Err(ParseError { kind: ParseErrorKind::MissingValue, position: j.index() })
    }
}

/// The entries of a collection from `from` on, up to its closing brace, and the place
/// after that brace.
fn read_entries<'a>(source: &Source<'a>, from: Mark) -> (r: Result<
    (Vec<AcfValue<'a>>, Mark),
    ParseError,
>)
    requires
        source.wf(),
        from.within(source.chars()),
    ensures
        match r {
            Ok((list, end)) => end.within(source.chars()) && entries(source.chars(), from.at())
                == Ok::<(Seq<AcfTree>, int), SyntaxError>((trees(list@), end.at())),
            Err(fault) => entries(source.chars(), from.at()) == Err::<
                (Seq<AcfTree>, int),
                SyntaxError,
            >(fault@),
        },
    decreases source.chars().len() - from.at(), 1nat,
{
    let mut list: Vec<AcfValue<'a>> = Vec::new();
    let mut m = from;
    loop
        invariant
            source.wf(),
            m.within(source.chars()),
            from.at() <= m.at(),
            entries(source.chars(), from.at()) == with_front(
                trees(list@),
                entries(source.chars(), m.at()),
            ),
        decreases source.chars().len() - m.at(),
    {
        let ghost s = source.chars();
        let ghost before = trees(list@);
        let j = skip_blanks(source, m);
        proof {
            source.lemma_mark_bounds(m);
            lemma_after_blanks(s, m.at());
        }
        if source.holds(j, CLOSE_BRACE) {
            return Ok((list, source.next(j)));
        }
        if !source.holds(j, QUOTE) {
            return Err(ParseError { kind: ParseErrorKind::MissingEntry, position: j.index() });
        }
        match read_entry(source, j) {
            Err(fault) => {
                return Err(fault);
            },
            Ok((value, next)) => {
                proof {
                    lemma_entry_bounds(s, j.at());
                    assert(trees(list@.push(value)) =~= before.push(value@));
                    match entries(s, next.at()) {
                        Ok((others, end)) => {
                            assert(before + (seq![value@] + others) =~= before.push(value@)
                                + others);
                        },
                        Err(fault) => {},
                    }
                }
                list.push(value);
                m = next;
            },
        }
    }
}

/// Whether `outcome` is what parsing the text `s` gives: the tree that `s` describes,
/// or, where `s` describes none, the first fault that [`document`] finds in it.
pub open spec fn is_parse(s: Seq<char>, outcome: Result<AcfValue<'_>, ParseError>) -> bool {
    match outcome {
        Ok(value) => is_document(s, value@) && document(s) == Ok::<AcfTree, SyntaxError>(value@),
        Err(fault) => (forall|tree: AcfTree| !#[trigger] is_document(s, tree)) && document(s)
            == Err::<AcfTree, SyntaxError>(fault@),
    }
}

/// The ACF parser.
pub struct AcfParser;

impl AcfParser {
    /// Parses a whole document: one collection, with blanks before and after it at
    /// most. Gives the tree of the collection, whose strings are borrowed from `text`,
    /// or the first fault; there is no tree for a part of a text.
    pub fn parse<'a>(text: &'a str) -> (r: Result<AcfValue<'a>, ParseError>)
        ensures
            is_parse(text@, r),
    {
        proof {
            assert forall|tree: AcfTree|
                #[trigger] is_document(text@, tree) <==> document(text@) == Ok::<
                    AcfTree,
                    SyntaxError,
                >(tree) by {
                lemma_document_reads_what_is_described(text@, tree);
            }
        }
        let source = Source::new(text);
        let i = skip_blanks(&source, source.start());
        if !source.holds(i, QUOTE) {
            return Err(ParseError { kind: ParseErrorKind::MissingName, position: i.index() });
        }
        let (name, after_name) = match read_string(&source, i) {
            Ok(read) => read,
            Err(fault) => {
                return Err(fault);
            },
        };
        let j = skip_blanks(&source, after_name);
        if !source.holds(j, OPEN_BRACE) {
            return Err(ParseError { kind: ParseErrorKind::MissingOpenBrace, position: j.index() });
        }
        let (inner, end) = match read_entries(&source, source.next(j)) {
            Ok(read) => read,
            Err(fault) => {
                return Err(fault);
            },
        };
        let last = skip_blanks(&source, end);
        if source.peek(last).is_some() {
            return Err(ParseError { kind: ParseErrorKind::TrailingContent, position: last.index() });
        }
        proof {
            lemma_collection_view(name, inner);
        }
        Ok(AcfValue::Collection(name, inner))
    }
}

/// Parses the text of an ACF file; the same as [`AcfParser::parse`].
pub fn file_to_acf<'a>(file: &'a str) -> (r: Result<AcfValue<'a>, ParseError>)
    ensures
        is_parse(file@, r),
{
    AcfParser::parse(file)
}

} // verus!
