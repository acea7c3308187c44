//! A search tree drawn as text, one line for each level: every value is written out and
//! centred in a column, and the columns of a level stand side by side.
//!
//! The columns are sized from the widest level that a tree of this height can have, which
//! is `2^(height - 1)` slots wide: a label takes that many columns for each of its bytes,
//! shared among the slots of its own level.

use crate::binary_tree::{referents, BinarySearchTree};
use std::fmt::Display;
use vstd::arithmetic::power2::{lemma_pow2_strictly_increases, lemma_pow2_unfold, pow2};
use vstd::prelude::*;
use vstd::string::{to_string_from_display_ensures, StrSliceExecFns, StringExecFns};
use vstd::utf8::encode_utf8;

verus! {

/// Each of `labels` is what writing out the value at the same index of `values` gave.
pub open spec fn labelled<T: Display>(values: Seq<T>, labels: Seq<String>) -> bool {
    &&& labels.len() == values.len()
    &&& forall|i: int|
        0 <= i < values.len() ==> to_string_from_display_ensures::<T>(
            &values[i],
            #[trigger] labels[i],
        )
}

/// `labels` holds, level by level, the values of `tree` written out.
pub open spec fn labels_of<T: Ord + Display>(
    tree: BinarySearchTree<T>,
    labels: Vec<Vec<String>>,
) -> bool {
    &&& labels@.len() == tree.height_spec()
    &&& forall|d: int|
        0 <= d < labels@.len() ==> labelled(tree.level_values(d as nat), #[trigger] labels@[d]@)
}

/// The most nodes that a level can hold, the root's level being level 1.
pub open spec fn slots(level: nat) -> nat {
    if level <= 1 {
        1
    } else {
        pow2((level - 1) as nat)
    }
}

/// The width of the column of a label of `len` bytes, on a level that shares a width of
/// `widest` slots among `share` slots of its own.
pub open spec fn column_width(widest: nat, share: nat, len: nat) -> nat {
    (widest * len / share) as nat
}

/// `count` spaces.
pub open spec fn spaces(count: nat) -> Seq<char> {
    Seq::new(count, |i: int| ' ')
}

/// `label` centred in `width` characters: the spaces that are missing are put half before
/// it and half after it, the odd one after it. A label that is too long stays as it is.
pub open spec fn centered_text(label: Seq<char>, width: nat) -> Seq<char> {
    let missing = if width > label.len() {
        (width - label.len()) as nat
    } else {
        0
    };
    spaces(missing / 2) + label + spaces((missing - missing / 2) as nat)
}

/// The line of one level: its labels from left to right, each centred in its column.
pub open spec fn line_text(labels: Seq<Seq<char>>, widest: nat, share: nat) -> Seq<char>
    decreases labels.len(),
{
    if labels.len() == 0 {
        Seq::empty()
    } else {
        line_text(labels.drop_last(), widest, share) + centered_text(
            labels.last(),
            column_width(widest, share, encode_utf8(labels.last()).len()),
        )
    }
}

/// The widest level, and each label stretched over it, can be counted in a `usize`.
pub open spec fn widths_fit(labels: Seq<Seq<Seq<char>>>) -> bool {
    &&& slots(labels.len()) <= usize::MAX
    &&& forall|d: int, i: int|
        0 <= d < labels.len() && 0 <= i < labels[d].len() ==> slots(labels.len()) * encode_utf8(
            #[trigger] labels[d][i],
        ).len() <= usize::MAX
}

/// `lines` draws the levels whose labels are `labels`: one line for each level, whose
/// columns share the width of the widest level among the slots of their own.
pub open spec fn lines_of(labels: Seq<Seq<Seq<char>>>, lines: Seq<String>) -> bool {
    &&& lines.len() == labels.len()
    &&& forall|d: int|
        0 <= d < labels.len() ==> (#[trigger] lines[d])@ == line_text(
            labels[d],
            slots(labels.len()),
            slots((d + 1) as nat),
        )
}

/// Writes out the values of one level.
fn label_level<T: Display>(values: &Vec<&T>) -> (labels: Vec<String>)
    ensures
        labelled(referents(values@), labels@),
{
    let mut labels: Vec<String> = Vec::new();
    let mut i: usize = 0;
    while i < values.len()
        invariant
            i <= values.len(),
            labelled(referents(values@).take(i as int), labels@),
        decreases values.len() - i,
    {
        labels.push(values[i].to_string());
        i += 1;
    }
    assert(referents(values@).take(i as int) == referents(values@));
    labels
}

/// Writes out the values of a tree level by level.
pub fn label_levels<T: Ord + Display>(tree: &BinarySearchTree<T>) -> (labels: Vec<Vec<String>>)
    ensures
        labels_of(*tree, labels),
{
    let levels = tree.levels();
    let mut labels: Vec<Vec<String>> = Vec::new();
    let mut d: usize = 0;
    while d < levels.len()
        invariant
            d <= levels.len(),
            labels@.len() == d,
            levels@.len() == tree.height_spec(),
            forall|k: int|
                0 <= k < levels@.len() ==> referents(#[trigger] levels@[k]@) == tree.level_values(
                    k as nat,
                ),
            forall|k: int|
                0 <= k < d ==> labelled(tree.level_values(k as nat), #[trigger] labels@[k]@),
        decreases levels.len() - d,
    {
        let level = label_level(&levels[d]);
        labels.push(level);
        d += 1;
    }
    labels
}

/// Each level can hold twice what the level above it can, and at least one node.
pub proof fn lemma_slots(level: nat, below: nat)
    ensures
        slots(level) >= 1,
        level >= 1 ==> slots(level + 1) == 2 * slots(level),
        level <= below ==> slots(level + 1) <= slots(below + 1),
{
    vstd::arithmetic::power2::lemma2_to64();
    vstd::arithmetic::power2::lemma_pow2_pos((level - 1) as nat);
    if level >= 1 {
        lemma_pow2_unfold(level);
    }
    if level < below {
        lemma_pow2_strictly_increases(level, below);
    }
}

/// The most nodes that level `level` can hold, or `None` where that is more than a `usize`
/// can count.
fn slots_of(level: usize) -> (count: Option<usize>)
    ensures
        match count {
            Some(count) => count == slots(level as nat),
            None => slots(level as nat) > usize::MAX,
        },
{
    let mut count: usize = 1;
    let mut reached: usize = 1;
    while reached < level
        invariant
            1 <= reached,
            reached <= level || reached == 1,
            count == slots(reached as nat),
        decreases level - reached,
    {
        proof {
            lemma_slots(reached as nat, (level - 1) as nat);
        }
        match count.checked_mul(2) {
            Some(doubled) => {
                count = doubled;
            },
            None => {
                return None;
            },
        }
        reached += 1;
    }
    Some(count)
}

/// `label` centred in `width` characters, with spaces on either side.
pub fn centered(label: &str, width: usize) -> (text: String)
    ensures
        text@ == centered_text(label@, width as nat),
{
    let len = label.unicode_len();
    let missing = if width > len {
        width - len
    } else {
        0
    };
    let before = missing / 2;
    let after = missing - before;
    let mut text = String::new();
    proof {
        reveal_strlit(" ");
    }
    let mut i: usize = 0;
    while i < before
        invariant
            i <= before,
            " "@ == seq![' '],
            text@ == spaces(i as nat),
        decreases before - i,
    {
        text.append(" ");
        i += 1;
        assert(text@ == spaces(i as nat));
    }
    text.append(label);
    let mut j: usize = 0;
    while j < after
        invariant
            j <= after,
            " "@ == seq![' '],
            text@ == spaces(before as nat) + label@ + spaces(j as nat),
        decreases after - j,
    {
        text.append(" ");
        j += 1;
        assert(text@ == spaces(before as nat) + label@ + spaces(j as nat));
    }
    text
}

/// The line of one level, or `None` where the width of a column cannot be counted.
fn render_line(labels: &Vec<String>, widest: usize, share: usize) -> (line: Option<String>)
    requires
        share > 0,
    ensures
        line is Some <==> forall|i: int|
            0 <= i < labels@.len() ==> widest * encode_utf8((#[trigger] labels@[i])@).len()
                <= usize::MAX,
        line matches Some(text) ==> text@ == line_text(
            labels.deep_view(),
            widest as nat,
            share as nat,
        ),
{
    let mut line = String::new();
    let mut i: usize = 0;
    while i < labels.len()
        invariant
            i <= labels.len(),
            share > 0,
            forall|k: int|
                0 <= k < i ==> widest * encode_utf8((#[trigger] labels@[k])@).len() <= usize::MAX,
            line@ == line_text(labels.deep_view().take(i as int), widest as nat, share as nat),
        decreases labels.len() - i,
    {
        let label = labels[i].as_str();
        let ghost len = encode_utf8(labels@[i as int]@).len();
        let width = match widest.checked_mul(label.as_bytes().len()) {
            Some(stretched) => stretched / share,
            None => {
                assert(widest * len > usize::MAX);
                return None;
            },
        };
        let column = centered(label, width);
        line.append(column.as_str());
        proof {
            let seen = labels.deep_view().take(i + 1);
            assert(seen.drop_last() == labels.deep_view().take(i as int));
            assert(seen.last() == label@);
            assert(width == column_width(widest as nat, share as nat, len));
        }
        i += 1;
    }
    assert(labels.deep_view().take(i as int) == labels.deep_view());
    Some(line)
}

/// Draws levels of labels as lines of text, the first level first: each label is centred in
/// its column and the columns of a level are joined. Gives `None` where the width of the
/// widest level, or of a label stretched over it, is more than a `usize` can count.
pub fn render_levels(labels: &Vec<Vec<String>>) -> (lines: Option<Vec<String>>)
    ensures
        lines is Some <==> widths_fit(labels.deep_view()),
        lines matches Some(lines) ==> lines_of(labels.deep_view(), lines@),
{
    let height = labels.len();
    let widest = match slots_of(height) {
        Some(widest) => widest,
        None => {
            return None;
        },
    };
    let mut lines: Vec<String> = Vec::new();
    let mut share: usize = 1;
    let mut d: usize = 0;
    while d < height
        invariant
            d <= height,
            height == labels@.len(),
            widest == slots(height as nat),
            d < height ==> share == slots((d + 1) as nat),
            lines@.len() == d,
            forall|k: int, i: int|
                0 <= k < d && 0 <= i < labels.deep_view()[k].len() ==> widest * encode_utf8(
                    #[trigger] labels.deep_view()[k][i],
                ).len() <= usize::MAX,
            forall|k: int|
                0 <= k < d ==> (#[trigger] lines@[k])@ == line_text(
                    labels.deep_view()[k],
                    widest as nat,
                    slots((k + 1) as nat),
                ),
        decreases height - d,
    {
        proof {
            lemma_slots(d as nat, (height - 1) as nat);
        }
        let line = match render_line(&labels[d], widest, share) {
            Some(line) => line,
            None => {
                proof {
                    let i = choose|i: int|
                        0 <= i < labels@[d as int]@.len() && widest * encode_utf8(
                            (#[trigger] labels@[d as int]@[i])@,
                        ).len() > usize::MAX;
                    assert(labels.deep_view()[d as int][i] == labels@[d as int]@[i]@);
                }
                return None;
            },
        };
        proof {
            assert forall|i: int| 0 <= i < labels.deep_view()[d as int].len() implies widest
                * encode_utf8(#[trigger] labels.deep_view()[d as int][i]).len() <= usize::MAX by {
                assert(labels.deep_view()[d as int][i] == labels@[d as int]@[i]@);
            }
        }
        lines.push(line);
        d += 1;
        if d < height {
            proof {
                lemma_slots(d as nat, (height - 1) as nat);
            }
            share = share * 2;
        }
    }
    Some(lines)
}

/// `lines` is what drawing `tree` gives, for some writing-out of its values: the lines of
/// its levels, or `None` where the widths cannot be counted.
pub open spec fn drawing_of<T: Ord + Display>(
    tree: BinarySearchTree<T>,
    lines: Option<Vec<String>>,
) -> bool {
    exists|labels: Vec<Vec<String>>|
        {
            &&& #[trigger] labels_of(tree, labels)
            &&& lines is Some <==> widths_fit(labels.deep_view())
            &&& lines matches Some(lines) ==> lines_of(labels.deep_view(), lines@)
        }
}

/// Draws the tree as lines of text, one for each level from the root's down, with the values
/// of a level from left to right, each centred in its column.
pub fn render<T: Ord + Display>(tree: &BinarySearchTree<T>) -> (lines: Option<Vec<String>>)
    ensures
        drawing_of(*tree, lines),
        lines matches Some(lines) ==> lines@.len() == tree.height_spec(),
{
    let labels = label_levels(tree);
    render_levels(&labels)
}

} // verus!
