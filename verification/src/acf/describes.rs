//! What it means for a text to describe a tree, said without reading the text from
//! left to right, and the proof that the grammar reads exactly that.
//!
//! A text describes a tree if it can be cut into the tokens of the tree with nothing
//! but blanks around and between them: [`is_document`]. The functions of the grammar
//! find these cuts: [`document`] gives a tree exactly for the texts that describe one,
//! and gives the tree that they describe ([`lemma_document_reads_what_is_described`]).

use crate::acf::grammar::{
    after_blanks, document, entries, entry, holds, is_blank, lemma_after_blanks,
    lemma_entries_bounds, lemma_next_quote, next_quote, string_at, SyntaxError,
};
use crate::acf::value::{plain, AcfTree};
use vstd::prelude::*;

verus! {

/// Whether nothing but blanks stands in `s` from `from` up to `to`.
pub open spec fn blanks(s: Seq<char>, from: int, to: int) -> bool {
    &&& 0 <= from <= to <= s.len()
    &&& forall|k: int| from <= k < to ==> is_blank(#[trigger] s[k])
}

/// Whether `from` and `to` bound a stretch of `s` that is not empty.
pub open spec fn stretch(s: Seq<char>, from: int, to: int) -> bool {
    0 <= from < to <= s.len()
}

/// Whether `s` holds, from `from` up to `to`, the string `content` between quotes.
pub open spec fn is_string(s: Seq<char>, from: int, to: int, content: Seq<char>) -> bool {
    &&& 0 <= from
    &&& to <= s.len()
    &&& to == from + content.len() + 2
    &&& s[from] == '"'
    &&& s[to - 1] == '"'
    &&& s.subrange(from + 1, to - 1) == content
    &&& plain(content)
}

/// Whether `s` holds, from `from` up to `to`, an entry that describes `tree`: for a
/// pair the name and the value, for a collection the name, an opening brace, the
/// entries and the closing brace, with blanks between them at most.
pub open spec fn is_entry(s: Seq<char>, from: int, to: int, tree: AcfTree) -> bool
    decreases tree,
{
    match tree {
        AcfTree::Pair(key, value) => exists|a: int, b: int|
            #![trigger blanks(s, a, b)]
            is_string(s, from, a, key) && blanks(s, a, b) && is_string(s, b, to, value),
        AcfTree::Collection(name, inner) => exists|a: int, b: int|
            #![trigger blanks(s, a, b)]
            is_string(s, from, a, name) && blanks(s, a, b) && holds(s, b, '{') && are_entries(
                s,
                b + 1,
                to,
                inner,
            ),
        AcfTree::Null => false,
    }
}

/// Whether `s` holds, from `from` up to `to`, entries that describe the trees `list`,
/// one after the other, and then a closing brace, with blanks before each of them at
/// most.
pub open spec fn are_entries(s: Seq<char>, from: int, to: int, list: Seq<AcfTree>) -> bool
    decreases list,
{
    if list.len() == 0 {
        exists|a: int| #[trigger] blanks(s, from, a) && holds(s, a, '}') && to == a + 1
    } else {
        exists|a: int, b: int|
            #![trigger stretch(s, a, b)]
            blanks(s, from, a) && stretch(s, a, b) && is_entry(s, a, b, list.first())
                && are_entries(s, b, to, list.drop_first())
    }
}

/// Whether the text `s` describes `tree`: it is one collection that describes `tree`,
/// with blanks before and after it at most.
pub open spec fn is_document(s: Seq<char>, tree: AcfTree) -> bool {
    &&& tree is Collection
    &&& exists|a: int, b: int|
        #![trigger stretch(s, a, b)]
        blanks(s, 0, a) && stretch(s, a, b) && is_entry(s, a, b, tree) && blanks(
            s,
            b,
            s.len() as int,
        )
}

/// Blanks that end where the text ends, or where something else than a blank stands,
/// end where the grammar finds their end.
pub proof fn lemma_blanks_end(s: Seq<char>, from: int, to: int)
    requires
        blanks(s, from, to),
        to < s.len() ==> !is_blank(s[to]),
    ensures
        after_blanks(s, from) == to,
    decreases to - from,
{
    if from < to {
        lemma_blanks_end(s, from + 1, to);
    }
}

/// The grammar reads a string exactly where one stands.
pub proof fn lemma_string_is_read(s: Seq<char>, from: int, to: int, content: Seq<char>)
    requires
        holds(s, from, '"'),
    ensures
        is_string(s, from, to, content) <==> string_at(s, from) == Ok::<
            (Seq<char>, int),
            SyntaxError,
        >((content, to)),
{
    lemma_next_quote(s, from + 1);
    let close = next_quote(s, from + 1);
    if is_string(s, from, to, content) && close < to - 1 {
        assert(s.subrange(from + 1, to - 1)[close - from - 1] == s[close]);
    }
    if string_at(s, from) == Ok::<(Seq<char>, int), SyntaxError>((content, to)) {
        assert(plain(content));
    }
}

/// Where an entry stands that describes a tree, the grammar reads that tree, up to
/// the end of the entry.
pub proof fn lemma_described_entry_is_read(s: Seq<char>, from: int, to: int, tree: AcfTree)
    requires
        is_entry(s, from, to, tree),
    ensures
        holds(s, from, '"'),
        entry(s, from) == Ok::<(AcfTree, int), SyntaxError>((tree, to)),
    decreases tree,
{
    match tree {
        AcfTree::Pair(key, value) => {
            let (a, b) = choose|a: int, b: int|
                #![trigger blanks(s, a, b)]
                is_string(s, from, a, key) && blanks(s, a, b) && is_string(s, b, to, value);
            lemma_string_is_read(s, from, a, key);
            lemma_blanks_end(s, a, b);
            lemma_string_is_read(s, b, to, value);
        },
        AcfTree::Collection(name, inner) => {
            let (a, b) = choose|a: int, b: int|
                #![trigger blanks(s, a, b)]
                is_string(s, from, a, name) && blanks(s, a, b) && holds(s, b, '{')
                    && are_entries(s, b + 1, to, inner);
            lemma_string_is_read(s, from, a, name);
            lemma_blanks_end(s, a, b);
            lemma_described_entries_are_read(s, b + 1, to, inner);
        },
        AcfTree::Null => {},
    }
}

/// Where entries stand that describe trees, followed by a closing brace, the grammar
/// reads these trees, up to that brace.
pub proof fn lemma_described_entries_are_read(
    s: Seq<char>,
    from: int,
    to: int,
    list: Seq<AcfTree>,
)
    requires
        are_entries(s, from, to, list),
    ensures
        entries(s, from) == Ok::<(Seq<AcfTree>, int), SyntaxError>((list, to)),
    decreases list,
{
    if list.len() == 0 {
        let a = choose|a: int| #[trigger] blanks(s, from, a) && holds(s, a, '}') && to == a + 1;
        lemma_blanks_end(s, from, a);
        assert(list =~= Seq::<AcfTree>::empty());
    } else {
        let (a, b) = choose|a: int, b: int|
            #![trigger stretch(s, a, b)]
            blanks(s, from, a) && stretch(s, a, b) && is_entry(s, a, b, list.first())
                && are_entries(s, b, to, list.drop_first());
        lemma_described_entry_is_read(s, a, b, list.first());
        lemma_blanks_end(s, from, a);
        lemma_described_entries_are_read(s, b, to, list.drop_first());
        assert(seq![list.first()] + list.drop_first() =~= list);
    }
}

/// What the grammar reads as an entry is an entry that describes the tree it gives.
pub proof fn lemma_read_entry_is_described(s: Seq<char>, from: int)
    requires
        holds(s, from, '"'),
    ensures
        entry(s, from) matches Ok((tree, to)) ==> is_entry(s, from, to, tree),
    decreases s.len() - from, 0nat,
{
    if let Ok((tree, to)) = entry(s, from) {
        let (name, a) = string_at(s, from)->Ok_0;
        lemma_string_is_read(s, from, a, name);
        lemma_after_blanks(s, a);
        let b = after_blanks(s, a);
        assert(blanks(s, a, b));
        if holds(s, b, '"') {
            let (value, end) = string_at(s, b)->Ok_0;
            lemma_string_is_read(s, b, end, value);
        } else {
            lemma_read_entries_are_described(s, b + 1);
        }
    }
}

/// What the grammar reads as the entries of a collection are entries that describe
/// the trees it gives.
pub proof fn lemma_read_entries_are_described(s: Seq<char>, from: int)
    requires
        0 <= from <= s.len(),
    ensures
        entries(s, from) matches Ok((list, to)) ==> are_entries(s, from, to, list),
    decreases s.len() - from, 1nat,
{
    if let Ok((list, to)) = entries(s, from) {
        lemma_after_blanks(s, from);
        let a = after_blanks(s, from);
        assert(blanks(s, from, a));
        if !holds(s, a, '}') {
            let (first, b) = entry(s, a)->Ok_0;
            let others = entries(s, b)->Ok_0.0;
            lemma_read_entry_is_described(s, a);
            lemma_read_entries_are_described(s, b);
            assert(list.drop_first() =~= others);
            assert(blanks(s, from, a) && stretch(s, a, b) && is_entry(s, a, b, list.first())
                && are_entries(s, b, to, list.drop_first()));
        }
    }
}

/// The grammar gives a tree exactly for the texts that describe one, and gives the
/// tree that they describe. So a text describes one tree at most, and blanks around
/// and between its tokens change nothing.
pub proof fn lemma_document_reads_what_is_described(s: Seq<char>, tree: AcfTree)
    ensures
        is_document(s, tree) <==> document(s) == Ok::<AcfTree, SyntaxError>(tree),
{
    if is_document(s, tree) {
        let (a, b) = choose|a: int, b: int|
            #![trigger stretch(s, a, b)]
            blanks(s, 0, a) && stretch(s, a, b) && is_entry(s, a, b, tree) && blanks(
                s,
                b,
                s.len() as int,
            );
        lemma_described_entry_is_read(s, a, b, tree);
        lemma_blanks_end(s, 0, a);
        lemma_blanks_end(s, b, s.len() as int);
    }
    if document(s) == Ok::<AcfTree, SyntaxError>(tree) {
        lemma_after_blanks(s, 0);
        let a = after_blanks(s, 0);
        let (name, c) = string_at(s, a)->Ok_0;
        lemma_string_is_read(s, a, c, name);
        lemma_after_blanks(s, c);
        let d = after_blanks(s, c);
        let b = entries(s, d + 1)->Ok_0.1;
        lemma_read_entries_are_described(s, d + 1);
        lemma_entries_bounds(s, d + 1);
        lemma_after_blanks(s, b);
        assert(blanks(s, c, d));
        assert(stretch(s, a, b));
    }
}

} // verus!
