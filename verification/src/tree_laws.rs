//! What holds of the leaves of a tree and of their replacement.

use crate::document::Tree;
use vstd::prelude::*;

verus! {

/// The items of an array after the replacement, one by one: item `i` takes
/// its texts where the leaves of the items before it end.
pub proof fn lemma_substitute_items(items: Seq<Tree>, texts: Seq<Seq<char>>, n: nat)
    requires
        n <= items.len(),
    ensures
        Tree::substitute_items(items, texts, n).len() == n,
        forall|i: int|
            0 <= i < n ==> #[trigger] Tree::substitute_items(items, texts, n)[i]
                == items[i].substitute(
                texts.skip(Tree::item_leaves(items, i as nat).len() as int),
            ),
    decreases n,
{
    if n > 0 {
        lemma_substitute_items(items, texts, (n - 1) as nat);
    }
}

/// The entries of an object after the replacement, one by one: the keys
/// stay, and entry `i` takes its texts where the leaves of the entries
/// before it end.
pub proof fn lemma_substitute_entries(
    entries: Seq<(Seq<char>, Tree)>,
    texts: Seq<Seq<char>>,
    n: nat,
)
    requires
        n <= entries.len(),
    ensures
        Tree::substitute_entries(entries, texts, n).len() == n,
        forall|i: int|
            0 <= i < n ==> #[trigger] Tree::substitute_entries(entries, texts, n)[i] == (
                entries[i].0,
                entries[i].1.substitute(
                    texts.skip(Tree::entry_leaves(entries, i as nat).len() as int),
                ),
            ),
    decreases n,
{
    if n > 0 {
        lemma_substitute_entries(entries, texts, (n - 1) as nat);
    }
}

/// A tree whose leaves stand at the head of `texts` is what comes of
/// putting `texts` in.
proof fn lemma_own_leaves(tree: Tree, texts: Seq<Seq<char>>)
    requires
        tree.leaves().is_prefix_of(texts),
    ensures
        tree.substitute(texts) == tree,
    decreases tree, 0nat,
{
    match tree {
        Tree::Text(s) => {
            if s.len() > 0 {
                assert(tree.leaves()[0] == s);
            }
        },
        Tree::Array(items) => {
            lemma_own_item_leaves(items, texts, items.len());
            assert(Tree::substitute_items(items, texts, items.len()) =~= items);
        },
        Tree::Object(entries) => {
            lemma_own_entry_leaves(entries, texts, entries.len());
            assert(Tree::substitute_entries(entries, texts, entries.len()) =~= entries);
        },
        _ => {},
    }
}

proof fn lemma_own_item_leaves(items: Seq<Tree>, texts: Seq<Seq<char>>, n: nat)
    requires
        n <= items.len(),
        Tree::item_leaves(items, n).is_prefix_of(texts),
    ensures
        Tree::substitute_items(items, texts, n) == items.take(n as int),
    decreases items, n,
{
    if n > 0 {
        let before = Tree::item_leaves(items, (n - 1) as nat);
        let own = items[n - 1].leaves();
        assert(Tree::item_leaves(items, n) == before + own);
        assert(before.is_prefix_of(texts));
        assert(own.is_prefix_of(texts.skip(before.len() as int))) by {
            assert forall|i: int| 0 <= i < own.len() implies own[i] == texts.skip(
                before.len() as int,
            )[i] by {
                assert(own[i] == (before + own)[before.len() + i]);
            }
        }
        lemma_own_item_leaves(items, texts, (n - 1) as nat);
        lemma_own_leaves(items[n - 1], texts.skip(before.len() as int));
        assert(Tree::substitute_items(items, texts, n) =~= items.take(n as int));
    } else {
        assert(Tree::substitute_items(items, texts, n) =~= items.take(n as int));
    }
}

proof fn lemma_own_entry_leaves(entries: Seq<(Seq<char>, Tree)>, texts: Seq<Seq<char>>, n: nat)
    requires
        n <= entries.len(),
        Tree::entry_leaves(entries, n).is_prefix_of(texts),
    ensures
        Tree::substitute_entries(entries, texts, n) == entries.take(n as int),
    decreases entries, n,
{
    if n > 0 {
        let before = Tree::entry_leaves(entries, (n - 1) as nat);
        let own = entries[n - 1].1.leaves();
        assert(Tree::entry_leaves(entries, n) == before + own);
        assert(before.is_prefix_of(texts));
        assert(own.is_prefix_of(texts.skip(before.len() as int))) by {
            assert forall|i: int| 0 <= i < own.len() implies own[i] == texts.skip(
                before.len() as int,
            )[i] by {
                assert(own[i] == (before + own)[before.len() + i]);
            }
        }
        lemma_own_entry_leaves(entries, texts, (n - 1) as nat);
        lemma_own_leaves(entries[n - 1].1, texts.skip(before.len() as int));
        assert(Tree::substitute_entries(entries, texts, n) =~= entries.take(n as int));
    } else {
        assert(Tree::substitute_entries(entries, texts, n) =~= entries.take(n as int));
    }
}

/// Structure preservation under the identity: a document whose every leaf
/// is answered with the leaf itself comes back as it was.
pub proof fn law_identity_translation(tree: Tree)
    ensures
        tree.substitute(tree.leaves()) == tree,
{
    lemma_own_leaves(tree, tree.leaves());
}

/// Structure preservation: whatever the answers are, the translated
/// document has the shape of the document it was made from, with the same
/// keys, nesting, positions and non-string values.
pub proof fn law_translation_keeps_shape(tree: Tree, texts: Seq<Seq<char>>)
    ensures
        tree.substitute(texts).skeleton() == tree.skeleton(),
    decreases tree,
{
    match tree {
        Tree::Array(items) => {
            lemma_substitute_items(items, texts, items.len());
            let out = Tree::substitute_items(items, texts, items.len());
            assert forall|i: int| 0 <= i < items.len() implies (#[trigger] out[i]).skeleton()
                == items[i].skeleton() by {
                law_translation_keeps_shape(
                    items[i],
                    texts.skip(Tree::item_leaves(items, i as nat).len() as int),
                );
            }
            assert(tree.substitute(texts).skeleton()->Array_0 =~= tree.skeleton()->Array_0);
        },
        Tree::Object(entries) => {
            lemma_substitute_entries(entries, texts, entries.len());
            let out = Tree::substitute_entries(entries, texts, entries.len());
            assert forall|i: int| 0 <= i < entries.len() implies (#[trigger] out[i]).1.skeleton()
                == entries[i].1.skeleton() && out[i].0 == entries[i].0 by {
                law_translation_keeps_shape(
                    entries[i].1,
                    texts.skip(Tree::entry_leaves(entries, i as nat).len() as int),
                );
            }
            assert(tree.substitute(texts).skeleton()->Object_0 =~= tree.skeleton()->Object_0);
        },
        _ => {},
    }
}

/// A document that gives no key twice is translated into one that gives
/// none twice.
pub proof fn law_translation_keeps_keys(tree: Tree, texts: Seq<Seq<char>>)
    requires
        tree.unique_keys(),
    ensures
        tree.substitute(texts).unique_keys(),
    decreases tree,
{
    match tree {
        Tree::Array(items) => {
            lemma_substitute_items(items, texts, items.len());
            let out = Tree::substitute_items(items, texts, items.len());
            assert forall|i: int| 0 <= i < out.len() implies (#[trigger] out[i]).unique_keys() by {
                assert(items[i].unique_keys());
                law_translation_keeps_keys(
                    items[i],
                    texts.skip(Tree::item_leaves(items, i as nat).len() as int),
                );
            }
        },
        Tree::Object(entries) => {
            lemma_substitute_entries(entries, texts, entries.len());
            let out = Tree::substitute_entries(entries, texts, entries.len());
            assert forall|i: int| 0 <= i < out.len() implies (
            #[trigger] out[i]).1.unique_keys() by {
                assert(entries[i].1.unique_keys());
                law_translation_keeps_keys(
                    entries[i].1,
                    texts.skip(Tree::entry_leaves(entries, i as nat).len() as int),
                );
            }
            assert forall|i: int, j: int| 0 <= i < j < out.len() implies (#[trigger] out[i]).0 != (
            #[trigger] out[j]).0 by {
                assert(entries[i].0 != entries[j].0);
            }
        },
        _ => {},
    }
}

/// Whether every text holds at least one character.
pub open spec fn no_empty(texts: Seq<Seq<char>>) -> bool {
    forall|i: int| 0 <= i < texts.len() ==> (#[trigger] texts[i]).len() > 0
}

proof fn lemma_no_empty_joined(texts: Seq<Seq<char>>, more: Seq<Seq<char>>)
    requires
        no_empty(texts),
        no_empty(more),
    ensures
        no_empty(texts + more),
{
    assert forall|i: int| 0 <= i < (texts + more).len() implies (#[trigger] (texts + more)[i]).len()
        > 0 by {
        if i < texts.len() {
            assert(texts[i].len() > 0);
        } else {
            assert(more[i - texts.len()].len() > 0);
        }
    }
}

/// No empty string is ever sent for translation: every leaf to translate
/// holds at least one character.
pub proof fn law_no_empty_request(tree: Tree)
    ensures
        no_empty(tree.leaves()),
    decreases tree, 0nat,
{
    match tree {
        Tree::Array(items) => lemma_no_empty_item_request(items, items.len()),
        Tree::Object(entries) => lemma_no_empty_entry_request(entries, entries.len()),
        _ => {},
    }
}

proof fn lemma_no_empty_item_request(items: Seq<Tree>, n: nat)
    requires
        n <= items.len(),
    ensures
        no_empty(Tree::item_leaves(items, n)),
    decreases items, n,
{
    if n > 0 {
        lemma_no_empty_item_request(items, (n - 1) as nat);
        law_no_empty_request(items[n - 1]);
        lemma_no_empty_joined(Tree::item_leaves(items, (n - 1) as nat), items[n - 1].leaves());
    }
}

proof fn lemma_no_empty_entry_request(entries: Seq<(Seq<char>, Tree)>, n: nat)
    requires
        n <= entries.len(),
    ensures
        no_empty(Tree::entry_leaves(entries, n)),
    decreases entries, n,
{
    if n > 0 {
        lemma_no_empty_entry_request(entries, (n - 1) as nat);
        law_no_empty_request(entries[n - 1].1);
        lemma_no_empty_joined(
            Tree::entry_leaves(entries, (n - 1) as nat),
            entries[n - 1].1.leaves(),
        );
    }
}

/// The test for a string that is sent for translation: it is not empty.
pub open spec fn to_translate() -> spec_fn(Seq<char>) -> bool {
    |s: Seq<char>| s.len() > 0
}

/// The leaves to translate are the string leaves that are not empty, in
/// their order.
pub proof fn law_leaves_are_nonempty_strings(tree: Tree)
    ensures
        tree.leaves() == tree.strings().filter(to_translate()),
    decreases tree, 0nat,
{
    reveal_with_fuel(Seq::filter, 2);
    match tree {
        Tree::Text(s) => {
            assert(seq![s].drop_last() =~= Seq::empty());
            assert(tree.leaves() =~= tree.strings().filter(to_translate()));
        },
        Tree::Array(items) => lemma_item_leaves_are_nonempty_strings(items, items.len()),
        Tree::Object(entries) => lemma_entry_leaves_are_nonempty_strings(entries, entries.len()),
        _ => {},
    }
}

proof fn lemma_item_leaves_are_nonempty_strings(items: Seq<Tree>, n: nat)
    requires
        n <= items.len(),
    ensures
        Tree::item_leaves(items, n) == Tree::item_strings(items, n).filter(to_translate()),
    decreases items, n,
{
    reveal_with_fuel(Seq::filter, 1);
    if n > 0 {
        lemma_item_leaves_are_nonempty_strings(items, (n - 1) as nat);
        law_leaves_are_nonempty_strings(items[n - 1]);
        Seq::filter_distributes_over_add(
            Tree::item_strings(items, (n - 1) as nat),
            items[n - 1].strings(),
            to_translate(),
        );
    }
}

proof fn lemma_entry_leaves_are_nonempty_strings(entries: Seq<(Seq<char>, Tree)>, n: nat)
    requires
        n <= entries.len(),
    ensures
        Tree::entry_leaves(entries, n) == Tree::entry_strings(entries, n).filter(to_translate()),
    decreases entries, n,
{
    reveal_with_fuel(Seq::filter, 1);
    if n > 0 {
        lemma_entry_leaves_are_nonempty_strings(entries, (n - 1) as nat);
        law_leaves_are_nonempty_strings(entries[n - 1].1);
        Seq::filter_distributes_over_add(
            Tree::entry_strings(entries, (n - 1) as nat),
            entries[n - 1].1.strings(),
            to_translate(),
        );
    }
}

/// Whether `after` has a string for each one of `before`, and an empty one
/// wherever `before` has an empty one.
pub open spec fn empties_stay(before: Seq<Seq<char>>, after: Seq<Seq<char>>) -> bool {
    &&& before.len() == after.len()
    &&& forall|i: int|
        0 <= i < before.len() && (#[trigger] before[i]).len() == 0 ==> after[i].len() == 0
}

proof fn lemma_empties_stay_joined(
    before: Seq<Seq<char>>,
    after: Seq<Seq<char>>,
    more_before: Seq<Seq<char>>,
    more_after: Seq<Seq<char>>,
)
    requires
        empties_stay(before, after),
        empties_stay(more_before, more_after),
    ensures
        empties_stay(before + more_before, after + more_after),
{
    assert forall|i: int|
        0 <= i < (before + more_before).len() && (#[trigger] (before + more_before)[i]).len()
            == 0 implies (after + more_after)[i].len() == 0 by {
        if i < before.len() {
            assert(before[i].len() == 0);
        } else {
            assert(more_before[i - before.len()].len() == 0);
        }
    }
}

/// Empty strings are left alone: the translated document has a string leaf
/// wherever the document had one before, and an empty one wherever it had
/// an empty one.
pub proof fn law_empty_strings_stay(tree: Tree, texts: Seq<Seq<char>>)
    ensures
        empties_stay(tree.strings(), tree.substitute(texts).strings()),
    decreases tree, 0nat,
{
    match tree {
        Tree::Array(items) => {
            lemma_substitute_items(items, texts, items.len());
            lemma_empty_item_strings_stay(
                items,
                Tree::substitute_items(items, texts, items.len()),
                texts,
                items.len(),
            );
        },
        Tree::Object(entries) => {
            lemma_substitute_entries(entries, texts, entries.len());
            lemma_empty_entry_strings_stay(
                entries,
                Tree::substitute_entries(entries, texts, entries.len()),
                texts,
                entries.len(),
            );
        },
        _ => {},
    }
}

proof fn lemma_empty_item_strings_stay(
    items: Seq<Tree>,
    out: Seq<Tree>,
    texts: Seq<Seq<char>>,
    n: nat,
)
    requires
        n <= items.len() == out.len(),
        forall|i: int|
            0 <= i < items.len() ==> #[trigger] out[i] == items[i].substitute(
                texts.skip(Tree::item_leaves(items, i as nat).len() as int),
            ),
    ensures
        empties_stay(Tree::item_strings(items, n), Tree::item_strings(out, n)),
    decreases items, n,
{
    if n > 0 {
        lemma_empty_item_strings_stay(items, out, texts, (n - 1) as nat);
        law_empty_strings_stay(
            items[n - 1],
            texts.skip(Tree::item_leaves(items, (n - 1) as nat).len() as int),
        );
        lemma_empties_stay_joined(
            Tree::item_strings(items, (n - 1) as nat),
            Tree::item_strings(out, (n - 1) as nat),
            items[n - 1].strings(),
            out[n - 1].strings(),
        );
    }
}

proof fn lemma_empty_entry_strings_stay(
    entries: Seq<(Seq<char>, Tree)>,
    out: Seq<(Seq<char>, Tree)>,
    texts: Seq<Seq<char>>,
    n: nat,
)
    requires
        n <= entries.len() == out.len(),
        forall|i: int|
            0 <= i < entries.len() ==> #[trigger] out[i] == (
                entries[i].0,
                entries[i].1.substitute(
                    texts.skip(Tree::entry_leaves(entries, i as nat).len() as int),
                ),
            ),
    ensures
        empties_stay(Tree::entry_strings(entries, n), Tree::entry_strings(out, n)),
    decreases entries, n,
{
    if n > 0 {
        lemma_empty_entry_strings_stay(entries, out, texts, (n - 1) as nat);
        law_empty_strings_stay(
            entries[n - 1].1,
            texts.skip(Tree::entry_leaves(entries, (n - 1) as nat).len() as int),
        );
        lemma_empties_stay_joined(
            Tree::entry_strings(entries, (n - 1) as nat),
            Tree::entry_strings(out, (n - 1) as nat),
            entries[n - 1].1.strings(),
            out[n - 1].1.strings(),
        );
    }
}

} // verus!
