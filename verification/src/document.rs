//! The document tree, its translatable leaves, and their replacement.
//!
//! A document is a JSON value. Its strings are what is translated; an
//! empty string is left alone. Objects and arrays are walked alike, entry
//! by entry and element by element, so a string inside an array is
//! translated in its place like any other. Numbers, booleans and null pass
//! through as they are.

use serde_json::Number;
use vstd::prelude::*;

verus! {

/// A JSON number, as `serde_json` holds it. Nothing here looks inside one.
#[verifier::external_type_specification]
#[verifier::external_body]
pub struct ExNumber(Number);

/// A JSON document.
#[derive(Debug, PartialEq, Eq)]
pub enum Document {
    Null,
    Bool(bool),
    Number(Number),
    /// A string: a leaf to translate, unless it is empty.
    Text(String),
    /// The elements in their order.
    Array(Vec<Document>),
    /// The entries, each a key with its value, in the order in which they
    /// were given.
    Object(Vec<(String, Document)>),
}

/// The mathematical value of a [`Document`].
pub enum Tree {
    Null,
    Bool(bool),
    Number(Number),
    Text(Seq<char>),
    Array(Seq<Tree>),
    Object(Seq<(Seq<char>, Tree)>),
}

impl Tree {
    /// The non-empty string leaves, in document order.
    pub open spec fn leaves(self) -> Seq<Seq<char>>
        decreases self, 0nat,
    {
        match self {
            Tree::Text(s) => if s.len() == 0 {
                Seq::empty()
            } else {
                seq![s]
            },
            Tree::Array(items) => Self::item_leaves(items, items.len()),
            Tree::Object(entries) => Self::entry_leaves(entries, entries.len()),
            _ => Seq::empty(),
        }
    }

    /// The leaves of the first `n` items of an array.
    pub open spec fn item_leaves(items: Seq<Tree>, n: nat) -> Seq<Seq<char>>
        decreases items, n,
    {
        if n == 0 || n > items.len() {
            Seq::empty()
        } else {
            Self::item_leaves(items, (n - 1) as nat) + items[n - 1].leaves()
        }
    }

    /// The leaves of the first `n` entries of an object.
    pub open spec fn entry_leaves(entries: Seq<(Seq<char>, Tree)>, n: nat) -> Seq<Seq<char>>
        decreases entries, n,
    {
        if n == 0 || n > entries.len() {
            Seq::empty()
        } else {
            Self::entry_leaves(entries, (n - 1) as nat) + entries[n - 1].1.leaves()
        }
    }

    /// All string leaves, the empty ones too, in document order.
    pub open spec fn strings(self) -> Seq<Seq<char>>
        decreases self, 0nat,
    {
        match self {
            Tree::Text(s) => seq![s],
            Tree::Array(items) => Self::item_strings(items, items.len()),
            Tree::Object(entries) => Self::entry_strings(entries, entries.len()),
            _ => Seq::empty(),
        }
    }

    /// The string leaves of the first `n` items of an array.
    pub open spec fn item_strings(items: Seq<Tree>, n: nat) -> Seq<Seq<char>>
        decreases items, n,
    {
        if n == 0 || n > items.len() {
            Seq::empty()
        } else {
            Self::item_strings(items, (n - 1) as nat) + items[n - 1].strings()
        }
    }

    /// The string leaves of the first `n` entries of an object.
    pub open spec fn entry_strings(entries: Seq<(Seq<char>, Tree)>, n: nat) -> Seq<Seq<char>>
        decreases entries, n,
    {
        if n == 0 || n > entries.len() {
            Seq::empty()
        } else {
            Self::entry_strings(entries, (n - 1) as nat) + entries[n - 1].1.strings()
        }
    }

    /// The tree with every string leaf emptied: what is left is its shape,
    /// the keys, the nesting, the positions and the values that are no
    /// strings.
    pub open spec fn skeleton(self) -> Tree
        decreases self,
    {
        match self {
            Tree::Text(s) => Tree::Text(Seq::empty()),
            Tree::Array(items) => Tree::Array(
                Seq::new(
                    items.len(),
                    |i: int|
                        if 0 <= i < items.len() {
                            items[i].skeleton()
                        } else {
                            Tree::Null
                        },
                ),
            ),
            Tree::Object(entries) => Tree::Object(
                Seq::new(
                    entries.len(),
                    |i: int|
                        if 0 <= i < entries.len() {
                            (entries[i].0, entries[i].1.skeleton())
                        } else {
                            (Seq::empty(), Tree::Null)
                        },
                ),
            ),
            _ => self,
        }
    }

    /// No object of the tree gives a key twice.
    pub open spec fn unique_keys(self) -> bool
        decreases self,
    {
        match self {
            Tree::Array(items) => forall|i: int|
                0 <= i < items.len() ==> (#[trigger] items[i]).unique_keys(),
            Tree::Object(entries) => {
                &&& forall|i: int, j: int|
                    0 <= i < j < entries.len() ==> (#[trigger] entries[i]).0 != (
                    #[trigger] entries[j]).0
                &&& forall|i: int|
                    0 <= i < entries.len() ==> (#[trigger] entries[i]).1.unique_keys()
            },
            _ => true,
        }
    }

    /// The tree with its non-empty string leaves replaced, in document order,
    /// by the first `self.leaves().len()` entries of `texts`. Everything else
    /// stays: keys, nesting, positions, empty strings and non-string values.
    pub open spec fn substitute(self, texts: Seq<Seq<char>>) -> Tree
        decreases self, 0nat,
    {
        match self {
            Tree::Text(s) => if s.len() == 0 {
                self
            } else {
                Tree::Text(texts[0])
            },
            Tree::Array(items) => Tree::Array(Self::substitute_items(items, texts, items.len())),
            Tree::Object(entries) => Tree::Object(
                Self::substitute_entries(entries, texts, entries.len()),
            ),
            _ => self,
        }
    }

    /// The first `n` items of an array after the replacement: each item takes
    /// its texts where the leaves of the items before it end.
    pub open spec fn substitute_items(items: Seq<Tree>, texts: Seq<Seq<char>>, n: nat) -> Seq<Tree>
        decreases items, n,
    {
        if n == 0 || n > items.len() {
            Seq::empty()
        } else {
            let before = Self::item_leaves(items, (n - 1) as nat).len();
            Self::substitute_items(items, texts, (n - 1) as nat).push(
                items[n - 1].substitute(texts.skip(before as int)),
            )
        }
    }

    /// The first `n` entries of an object after the replacement; keys stay.
    pub open spec fn substitute_entries(
        entries: Seq<(Seq<char>, Tree)>,
        texts: Seq<Seq<char>>,
        n: nat,
    ) -> Seq<(Seq<char>, Tree)>
        decreases entries, n,
    {
        if n == 0 || n > entries.len() {
            Seq::empty()
        } else {
            let before = Self::entry_leaves(entries, (n - 1) as nat).len();
            Self::substitute_entries(entries, texts, (n - 1) as nat).push(
                (entries[n - 1].0, entries[n - 1].1.substitute(texts.skip(before as int))),
            )
        }
    }
}

/// The first `i` items of an array have no more leaves than its first `j`,
/// where `i` is no more than `j`.
pub proof fn lemma_item_leaves_grow(items: Seq<Tree>, i: nat, j: nat)
    requires
        i <= j <= items.len(),
    ensures
        Tree::item_leaves(items, i).len() <= Tree::item_leaves(items, j).len(),
    decreases j,
{
    if i < j {
        lemma_item_leaves_grow(items, i, (j - 1) as nat);
    }
}

/// The first `i` entries of an object have no more leaves than its first
/// `j`, where `i` is no more than `j`.
pub proof fn lemma_entry_leaves_grow(entries: Seq<(Seq<char>, Tree)>, i: nat, j: nat)
    requires
        i <= j <= entries.len(),
    ensures
        Tree::entry_leaves(entries, i).len() <= Tree::entry_leaves(entries, j).len(),
    decreases j,
{
    if i < j {
        lemma_entry_leaves_grow(entries, i, (j - 1) as nat);
    }
}

/// The values of a sequence of documents.
pub open spec fn trees(docs: Seq<Document>) -> Seq<Tree> {
    Seq::new(docs.len(), |i: int| docs[i]@)
}

/// The keys and values of a sequence of object entries.
pub open spec fn entry_trees(entries: Seq<(String, Document)>) -> Seq<(Seq<char>, Tree)> {
    Seq::new(entries.len(), |i: int| (entries[i].0@, entries[i].1@))
}

impl View for Document {
    type V = Tree;

    open spec fn view(&self) -> Tree {
        self.tree()
    }
}

impl Document {
    /// The value that the document stands for: `self@`.
    pub open spec fn tree(self) -> Tree
        decreases self,
    {
        match self {
            Document::Null => Tree::Null,
            Document::Bool(b) => Tree::Bool(b),
            Document::Number(n) => Tree::Number(n),
            Document::Text(s) => Tree::Text(s@),
            Document::Array(items) => Tree::Array(
                Seq::new(
                    items@.len(),
                    |i: int|
                        if 0 <= i < items@.len() {
                            items@[i].tree()
                        } else {
                            Tree::Null
                        },
                ),
            ),
            Document::Object(entries) => Tree::Object(
                Seq::new(
                    entries@.len(),
                    |i: int|
                        if 0 <= i < entries@.len() {
                            (entries@[i].0@, entries@[i].1.tree())
                        } else {
                            (Seq::empty(), Tree::Null)
                        },
                ),
            ),
        }
    }

    /// Appends the non-empty string leaves of the document to `out`, in
    /// document order.
    fn collect_leaves(&self, out: &mut Vec<String>)
        ensures
            final(out).deep_view() == old(out).deep_view() + self@.leaves(),
        decreases self,
    {
        match self {
            Document::Text(s) => {
                if !s.as_str().is_empty() {
                    out.push(s.clone());
                    assert(out.deep_view() =~= old(out).deep_view() + seq![s@]);
                } else {
                    assert(out.deep_view() =~= old(out).deep_view() + Seq::<Seq<char>>::empty());
                }
            },
            Document::Array(items) => {
                let ghost kids = self@->Array_0;
                let mut i: usize = 0;
                assert(out.deep_view() =~= old(out).deep_view() + Seq::<Seq<char>>::empty());
                while i < items.len()
                    invariant
                        i <= items.len(),
                        *self == Document::Array(*items),
                        self@ == Tree::Array(kids),
                        kids.len() == items.len(),
                        forall|j: int| 0 <= j < kids.len() ==> #[trigger] kids[j] == items@[j]@,
                        out.deep_view() == old(out).deep_view() + Tree::item_leaves(
                            kids,
                            i as nat,
                        ),
                    decreases items.len() - i,
                {
                    items[i].collect_leaves(out);
                    assert(out.deep_view() =~= old(out).deep_view() + Tree::item_leaves(
                        kids,
                        (i + 1) as nat,
                    ));
                    i += 1;
                }
            },
            Document::Object(entries) => {
                let ghost kids = self@->Object_0;
                let mut i: usize = 0;
                assert(out.deep_view() =~= old(out).deep_view() + Seq::<Seq<char>>::empty());
                while i < entries.len()
                    invariant
                        i <= entries.len(),
                        *self == Document::Object(*entries),
                        self@ == Tree::Object(kids),
                        kids.len() == entries.len(),
                        forall|j: int|
                            0 <= j < kids.len() ==> (#[trigger] kids[j]).1 == entries@[j].1@,
                        out.deep_view() == old(out).deep_view() + Tree::entry_leaves(
                            kids,
                            i as nat,
                        ),
                    decreases entries.len() - i,
                {
                    entries[i].1.collect_leaves(out);
                    assert(out.deep_view() =~= old(out).deep_view() + Tree::entry_leaves(
                        kids,
                        (i + 1) as nat,
                    ));
                    i += 1;
                }
            },
            _ => {
                assert(out.deep_view() =~= old(out).deep_view() + Seq::<Seq<char>>::empty());
            },
        }
    }

    /// Replaces the leaves from `texts[start]` on. `None` when `texts` ends
    /// before the leaves do; else the new document and the index after the
    /// last text used.
    fn substitute_from(self, texts: &Vec<String>, start: usize) -> (r: Option<(Document, usize)>)
        requires
            start <= texts.len(),
        ensures
            match r {
                Some((doc, next)) => {
                    &&& next == start + self@.leaves().len()
                    &&& next <= texts.len()
                    &&& doc@ == self@.substitute(texts.deep_view().skip(start as int))
                },
                None => start + self@.leaves().len() > texts.len(),
            },
        decreases self,
    {
        match self {
            Document::Text(s) => {
                if s.as_str().is_empty() {
                    Some((Document::Text(s), start))
                } else if start < texts.len() {
                    Some((Document::Text(texts[start].clone()), start + 1))
                } else {
                    None
                }
            },
            Document::Array(items) => {
                let ghost kids = self@->Array_0;
                let ghost all = texts.deep_view();
                let mut out: Vec<Document> = Vec::new();
                let mut cursor = start;
                for item in it: items
                    invariant
                        self == Document::Array(items),
                        self@ == Tree::Array(kids),
                        kids.len() == items.len(),
                        forall|j: int| 0 <= j < kids.len() ==> #[trigger] kids[j] == items@[j]@,
                        it.seq() == items@,
                        all == texts.deep_view(),
                        start <= cursor <= texts.len(),
                        cursor == start + Tree::item_leaves(kids, it.index() as nat).len(),
                        trees(out@) == Tree::substitute_items(
                            kids,
                            all.skip(start as int),
                            it.index() as nat,
                        ),
                {
                    let ghost idx = it.index();
                    let ghost before = Tree::item_leaves(kids, idx as nat).len();
                    assert(item == items@[idx]);
                    match item.substitute_from(texts, cursor) {
                        Some((doc, next)) => {
                            proof {
                                assert(all.skip(start as int).skip(before as int) =~= all.skip(
                                    cursor as int,
                                ));
                                assert(trees(out@.push(doc)) =~= trees(out@).push(doc@));
                            }
                            out.push(doc);
                            cursor = next;
                        },
                        None => {
                            proof {
                                lemma_item_leaves_grow(kids, (idx + 1) as nat, kids.len());
                            }
                            return None;
                        },
                    }
                }
                proof {
                    assert(Document::Array(out)@->Array_0 =~= trees(out@));
                }
                Some((Document::Array(out), cursor))
            },
            Document::Object(entries) => {
                let ghost kids = self@->Object_0;
                let ghost all = texts.deep_view();
                let mut out: Vec<(String, Document)> = Vec::new();
                let mut cursor = start;
                for entry in it: entries
                    invariant
                        self == Document::Object(entries),
                        self@ == Tree::Object(kids),
                        kids.len() == entries.len(),
                        forall|j: int|
                            0 <= j < kids.len() ==> #[trigger] kids[j] == (
                                entries@[j].0@,
                                entries@[j].1@,
                            ),
                        it.seq() == entries@,
                        all == texts.deep_view(),
                        start <= cursor <= texts.len(),
                        cursor == start + Tree::entry_leaves(kids, it.index() as nat).len(),
                        entry_trees(out@) == Tree::substitute_entries(
                            kids,
                            all.skip(start as int),
                            it.index() as nat,
                        ),
                {
                    let ghost idx = it.index();
                    let ghost before = Tree::entry_leaves(kids, idx as nat).len();
                    assert(entry == entries@[idx]);
                    let (key, value) = entry;
                    match value.substitute_from(texts, cursor) {
                        Some((doc, next)) => {
                            proof {
                                assert(all.skip(start as int).skip(before as int) =~= all.skip(
                                    cursor as int,
                                ));
                                assert(entry_trees(out@.push((key, doc))) =~= entry_trees(
                                    out@,
                                ).push((key@, doc@)));
                            }
                            out.push((key, doc));
                            cursor = next;
                        },
                        None => {
                            proof {
                                lemma_entry_leaves_grow(kids, (idx + 1) as nat, kids.len());
                            }
                            return None;
                        },
                    }
                }
                proof {
                    assert(Document::Object(out)@->Object_0 =~= entry_trees(out@));
                }
                Some((Document::Object(out), cursor))
            },
            other => Some((other, start)),
        }
    }

    /// The document with its non-empty string leaves replaced, in document
    /// order, by `texts`. `None` where `texts` does not hold one text for
    /// each of them.
    pub fn substitute(self, texts: &Vec<String>) -> (r: Option<Document>)
        ensures
            match r {
                Some(doc) => texts.len() == self@.leaves().len() && doc@ == self@.substitute(
                    texts.deep_view(),
                ),
                None => texts.len() != self@.leaves().len(),
            },
    {
        match self.substitute_from(texts, 0) {
            Some((doc, next)) => {
                if next == texts.len() {
                    proof {
                        assert(texts.deep_view().skip(0) =~= texts.deep_view());
                    }
                    Some(doc)
                } else {
                    None
                }
            },
            None => None,
        }
    }

    /// The texts to translate: the non-empty string leaves, in document order.
    pub fn leaves(&self) -> (texts: Vec<String>)
        ensures
            texts.deep_view() == self@.leaves(),
    {
        let mut texts: Vec<String> = Vec::new();
        self.collect_leaves(&mut texts);
        assert(texts.deep_view() =~= self@.leaves());
        texts
    }
}

} // verus!
