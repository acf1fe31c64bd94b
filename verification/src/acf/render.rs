//! Writing a tree back as text, and the proof that the text describes the tree.
//!
//! [`AcfTree::render`] gives every tree one text, with the least whitespace. The
//! grammar reads that text back as the same tree
//! ([`lemma_rendered_document_parses_back`]), so a document and the rendering of its
//! tree describe the same tree ([`lemma_rendering_is_equivalent`]), whatever blanks
//! the document holds.

use crate::acf::grammar::{
    after_blanks, document, entries, entry, holds, is_blank, lemma_document_is_well_formed,
    lemma_next_quote, next_quote, string_at, SyntaxError,
};
use crate::acf::value::{plain, quote, render_from, trees, AcfTree, AcfValue};
use vstd::prelude::*;
use vstd::string::*;

verus! {

broadcast use vstd::string::group_string_axioms;

impl<'a> AcfValue<'a> {
    /// Writes the text of the tree at the end of `out`.
    fn write_to(&self, out: &mut String)
        ensures
            final(out)@ == old(out)@ + self@.render(),
        decreases self,
    {
        proof {
            reveal_strlit("\"");
            reveal_strlit(" ");
            reveal_strlit("{");
            reveal_strlit("}");
        }
        match self {
            AcfValue::Pair(key, value) => {
                out.append("\"");
                out.append(key);
                out.append("\"");
                out.append(" ");
                out.append("\"");
                out.append(value);
                out.append("\"");
            },
            AcfValue::Collection(key, inner) => {
                out.append("\"");
                out.append(key);
                out.append("\"");
                out.append("{");
                let ghost list = trees(inner@);
                let ghost head = out@;
                let mut i: usize = 0;
                while i < inner.len()
                    invariant
                        i <= inner.len(),
                        list == trees(inner@),
                        *self == AcfValue::Collection(*key, *inner),
                        out@ + render_from(list, i as int) == head + render_from(list, 0),
                    decreases inner.len() - i,
                {
                    assert(self->Collection_1 == *inner);
                    inner[i].write_to(out);
                    i = i + 1;
                }
                out.append("}");
                assert(self@->Collection_1 =~= list);
            },
            AcfValue::Null => {},
        }
    }

    /// The text of the tree, with the least whitespace: one space between the key and
    /// the value of a pair, and none elsewhere.
    pub fn to_text(&self) -> (text: String)
        ensures
            text@ == self@.render(),
    {
        let mut text = String::new();
        self.write_to(&mut text);
        text
    }
}

/// Whether the text `s` holds the text `r` from index `i` on.
pub open spec fn spells(s: Seq<char>, i: int, r: Seq<char>) -> bool {
    &&& 0 <= i
    &&& i + r.len() <= s.len()
    &&& forall|k: int| 0 <= k < r.len() ==> s[i + k] == #[trigger] r[k]
}

/// A text holds `a + b` at `i` exactly if it holds `a` at `i` and `b` right after.
pub proof fn lemma_spells_concat(s: Seq<char>, i: int, a: Seq<char>, b: Seq<char>)
    ensures
        spells(s, i, a + b) <==> spells(s, i, a) && spells(s, i + a.len(), b),
{
    let r = a + b;
    if spells(s, i, r) {
        assert forall|k: int| 0 <= k < a.len() implies s[i + k] == #[trigger] a[k] by {
            assert(r[k] == a[k]);
        }
        assert forall|k: int| 0 <= k < b.len() implies s[i + a.len() + k] == #[trigger] b[k] by {
            assert(r[a.len() + k] == b[k]);
        }
    }
    if spells(s, i, a) && spells(s, i + a.len(), b) {
        assert forall|k: int| 0 <= k < r.len() implies s[i + k] == #[trigger] r[k] by {}
    }
}

/// A text holds the one character `c` at `i` exactly if `c` stands at `i`.
pub proof fn lemma_spells_one(s: Seq<char>, i: int, c: char)
    ensures
        spells(s, i, seq![c]) <==> holds(s, i, c),
{
    if holds(s, i, c) {
        assert forall|k: int| 0 <= k < seq![c].len() implies s[i + k] == #[trigger] seq![c][k] by {}
    }
    if spells(s, i, seq![c]) {
        assert(s[i + 0] == seq![c][0]);
    }
}

/// Where a plain string stands between quotes, the grammar reads that string.
pub proof fn lemma_quoted_string_is_read(s: Seq<char>, i: int, content: Seq<char>)
    requires
        spells(s, i, quote(content)),
        plain(content),
    ensures
        holds(s, i, '"'),
        string_at(s, i) == Ok::<(Seq<char>, int), SyntaxError>(
            (content, i + content.len() + 2),
        ),
{
    let open = seq!['"'];
    lemma_spells_concat(s, i, open + content, open);
    lemma_spells_concat(s, i, open, content);
    lemma_spells_one(s, i, '"');
    lemma_spells_one(s, i + 1 + content.len(), '"');
    let close: int = i + 1 + content.len();
    lemma_next_quote(s, i + 1);
    let found = next_quote(s, i + 1);
    if found < close {
        assert(s[i + 1 + (found - i - 1)] == content[found - i - 1]);
    }
    assert(s.subrange(i + 1, close) =~= content);
}

/// No blank stands where a character that is no blank stands.
pub proof fn lemma_no_blank_here(s: Seq<char>, i: int)
    requires
        0 <= i <= s.len(),
        i < s.len() ==> !is_blank(s[i]),
    ensures
        after_blanks(s, i) == i,
{
}

/// Where the rendering of a well-formed tree stands, the grammar reads that tree as an
/// entry, up to the end of the rendering.
pub proof fn lemma_rendered_entry_is_read(s: Seq<char>, i: int, tree: AcfTree)
    requires
        tree.well_formed(),
        spells(s, i, tree.render()),
    ensures
        holds(s, i, '"'),
        entry(s, i) == Ok::<(AcfTree, int), SyntaxError>((tree, i + tree.render().len())),
    decreases tree, 0nat,
{
    match tree {
        AcfTree::Pair(key, value) => {
            let space = seq![' '];
            lemma_spells_concat(s, i, quote(key) + space, quote(value));
            lemma_spells_concat(s, i, quote(key), space);
            let gap: int = i + key.len() + 2;
            lemma_spells_one(s, gap, ' ');
            lemma_quoted_string_is_read(s, i, key);
            lemma_quoted_string_is_read(s, gap + 1, value);
            lemma_no_blank_here(s, gap + 1);
        },
        AcfTree::Collection(key, inner) => {
            let open = seq!['{'];
            let close = seq!['}'];
            let body = render_from(inner, 0);
            lemma_spells_concat(s, i, quote(key) + open + body, close);
            lemma_spells_concat(s, i, quote(key) + open, body);
            lemma_spells_concat(s, i, quote(key), open);
            let brace: int = i + key.len() + 2;
            lemma_spells_one(s, brace, '{');
            lemma_quoted_string_is_read(s, i, key);
            lemma_rendered_entries_are_read(s, brace + 1, inner, 0);
            assert(inner.skip(0) =~= inner);
        },
        AcfTree::Null => {},
    }
}

/// Where the renderings of the well-formed trees `list[from..]` stand, followed by a
/// closing brace, the grammar reads these trees as the entries of a collection, up to
/// that brace.
pub proof fn lemma_rendered_entries_are_read(s: Seq<char>, i: int, list: Seq<AcfTree>, from: int)
    requires
        0 <= from <= list.len(),
        forall|k: int| 0 <= k < list.len() ==> (#[trigger] list[k]).well_formed(),
        spells(s, i, render_from(list, from) + seq!['}']),
    ensures
        entries(s, i) == Ok::<(Seq<AcfTree>, int), SyntaxError>(
            (list.skip(from), i + render_from(list, from).len() + 1),
        ),
    decreases list, list.len() - from,
{
    let close = seq!['}'];
    lemma_spells_concat(s, i, render_from(list, from), close);
    if from == list.len() {
        lemma_spells_one(s, i, '}');
        assert(list.skip(from) =~= Seq::<AcfTree>::empty());
    } else {
        let first = list[from];
        let others = render_from(list, from + 1);
        lemma_spells_concat(s, i, first.render(), others);
        lemma_rendered_entry_is_read(s, i, first);
        let next: int = i + first.render().len();
        lemma_rendered_entries_are_read(s, next, list, from + 1);
        assert(seq![first] + list.skip(from + 1) =~= list.skip(from));
    }
}

/// Parsing keeps contents and nesting: the rendering of the tree of a document is a
/// document, and its tree is that tree.
pub proof fn lemma_rendered_document_parses_back(tree: AcfTree)
    requires
        tree.is_describable(),
    ensures
        document(tree.render()) == Ok::<AcfTree, SyntaxError>(tree),
{
    let s = tree.render();
    assert(spells(s, 0, s));
    lemma_rendered_entry_is_read(s, 0, tree);
}

/// Writing the tree of a document back gives a document of the same tree: the two
/// texts differ in their blanks at most.
pub proof fn lemma_rendering_is_equivalent(s: Seq<char>)
    ensures
        document(s) matches Ok(tree) ==> document(tree.render()) == Ok::<AcfTree, SyntaxError>(
            tree,
        ),
{
    lemma_document_is_well_formed(s);
    if let Ok(tree) = document(s) {
        lemma_rendered_document_parses_back(tree);
    }
}

} // verus!
