//! The tree that an ACF document describes.

use vstd::prelude::*;

verus! {

/// One node of a parsed document. The strings are stretches of the parsed text, without
/// the quotes around them.
#[derive(Debug, PartialEq, Eq)]
pub enum AcfValue<'a> {
    /// A key with its value.
    Pair(&'a str, &'a str),
    /// A key with the entries between its braces, in the order of the text.
    Collection(&'a str, Vec<AcfValue<'a>>),
    /// Stands for something that is neither a pair nor a collection. No document
    /// parses to it.
    Null,
}

/// What an [`AcfValue`] stands for: the same tree over sequences of characters.
pub enum AcfTree {
    /// A key with its value.
    Pair(Seq<char>, Seq<char>),
    /// A key with its entries, in their order.
    Collection(Seq<char>, Seq<AcfTree>),
    /// Neither of the two.
    Null,
}

impl<'a> View for AcfValue<'a> {
    type V = AcfTree;

    open spec fn view(&self) -> AcfTree
        decreases self,
    {
        match self {
            AcfValue::Pair(key, value) => AcfTree::Pair(key@, value@),
            AcfValue::Collection(key, entries) => AcfTree::Collection(
                key@,
                Seq::new(
                    entries.len() as nat,
                    |i: int|
                        if 0 <= i < entries.len() {
                            entries[i]@
                        } else {
                            AcfTree::Null
                        },
                ),
            ),
            AcfValue::Null => AcfTree::Null,
        }
    }
}

/// The trees of a sequence of values.
pub open spec fn trees(values: Seq<AcfValue<'_>>) -> Seq<AcfTree> {
    Seq::new(values.len(), |i: int| values[i]@)
}

/// The view of a collection is the collection of the views of its entries.
pub proof fn lemma_collection_view(key: &str, entries: Vec<AcfValue<'_>>)
    ensures
        AcfValue::Collection(key, entries)@ == AcfTree::Collection(key@, trees(entries@)),
{
    assert(AcfValue::Collection(key, entries)@->Collection_1 =~= trees(entries@));
}

impl<'a> Clone for AcfValue<'a> {
    /// A copy of the tree, over the same text.
    fn clone(&self) -> (copy: Self)
        ensures
            copy@ == self@,
        decreases self,
    {
        match self {
            AcfValue::Pair(key, value) => AcfValue::Pair(key, value),
            AcfValue::Collection(key, entries) => {
                let mut copies: Vec<AcfValue<'a>> = Vec::new();
                let mut i: usize = 0;
                while i < entries.len()
                    invariant
                        i <= entries.len(),
                        *self == AcfValue::Collection(*key, *entries),
                        copies.len() == i,
                        forall|k: int| 0 <= k < i ==> copies@[k]@ == entries@[k]@,
                    decreases entries.len() - i,
                {
                    assert(self->Collection_1 == *entries);
                    copies.push(entries[i].clone());
                    i = i + 1;
                }
                proof {
                    lemma_collection_view(key, copies);
                    lemma_collection_view(key, *entries);
                    assert(trees(copies@) =~= trees(entries@));
                }
                AcfValue::Collection(key, copies)
            },
            AcfValue::Null => AcfValue::Null,
        }
    }
}

/// A string that can stand between quotes: it holds no quote itself.
pub open spec fn plain(s: Seq<char>) -> bool {
    forall|i: int| 0 <= i < s.len() ==> s[i] != '"'
}

/// The text of `s` between quotes.
pub open spec fn quote(s: Seq<char>) -> Seq<char> {
    seq!['"'] + s + seq!['"']
}

impl AcfTree {
    /// A tree that a document can describe: every string in it is plain, and no node
    /// is `Null`.
    pub open spec fn well_formed(self) -> bool
        decreases self,
    {
        match self {
            AcfTree::Pair(key, value) => plain(key) && plain(value),
            AcfTree::Collection(key, entries) => plain(key) && forall|i: int|
                0 <= i < entries.len() ==> (#[trigger] entries[i]).well_formed(),
            AcfTree::Null => false,
        }
    }

    /// A tree that a whole document can describe: a well-formed collection.
    pub open spec fn is_describable(self) -> bool {
        self is Collection && self.well_formed()
    }

    /// The text that describes the tree with the least whitespace: one space between
    /// the key and the value of a pair, and none elsewhere. `Null` has no text.
    pub open spec fn render(self) -> Seq<char>
        decreases self, 0nat,
    {
        match self {
            AcfTree::Pair(key, value) => quote(key) + seq![' '] + quote(value),
            AcfTree::Collection(key, entries) => quote(key) + seq!['{'] + render_from(entries, 0)
                + seq!['}'],
            AcfTree::Null => Seq::empty(),
        }
    }
}

/// The texts of the entries `entries[from..]`, one after the other.
pub open spec fn render_from(entries: Seq<AcfTree>, from: int) -> Seq<char>
    decreases entries, entries.len() - from,
{
    if 0 <= from < entries.len() {
        entries[from].render() + render_from(entries, from + 1)
    } else {
        Seq::empty()
    }
}

} // verus!
