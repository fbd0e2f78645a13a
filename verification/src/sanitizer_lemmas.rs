//! How the passes over program text treat a text that is put together from parts. The laws
//! of the passes are proved from these.

use crate::sanitizer::{
    block_comment_at, first_marker, first_occurrence, is_instruction, is_whitespace,
    lemma_first_marker_bounds, lemma_first_occurrence_bounds, marker_at, without_block_comments,
    without_line_comments, without_whitespace,
};
use crate::sanitizer_laws::{ends_in_line_comment, free_of, is_plain, visible};
use vstd::prelude::*;

verus! {

/// Where `c` stands at `at` and nowhere from `from` up to there, `at` is its first occurrence.
pub(crate) proof fn lemma_first_occurrence_is(text: Seq<char>, c: char, from: int, at: int)
    requires
        0 <= from <= at < text.len(),
        text[at] == c,
        forall|j: int| from <= j < at ==> text[j] != c,
    ensures
        first_occurrence(text, c, from) == at,
    decreases at - from,
{
    if from < at {
        lemma_first_occurrence_is(text, c, from + 1, at);
    }
}

/// Looking for `c` in `x + y` from within `x` finds what is found in `x`, where `x` holds one.
pub(crate) proof fn lemma_first_occurrence_in_front(x: Seq<char>, y: Seq<char>, c: char, from: int)
    requires
        0 <= from <= x.len(),
        first_occurrence(x, c, from) < x.len(),
    ensures
        first_occurrence(x + y, c, from) == first_occurrence(x, c, from),
    decreases x.len() - from,
{
    if from < x.len() && x[from] != c {
        assert((x + y)[from] == x[from]);
        lemma_first_occurrence_in_front(x, y, c, from + 1);
    }
}

/// Looking for `c` in `x + y` from within `y` finds what is found in `y`, moved by the length
/// of `x`.
pub(crate) proof fn lemma_first_occurrence_behind(x: Seq<char>, y: Seq<char>, c: char, from: int)
    requires
        0 <= from <= y.len(),
    ensures
        first_occurrence(x + y, c, x.len() + from) == x.len() + first_occurrence(y, c, from),
    decreases y.len() - from,
{
    if from < y.len() {
        assert((x + y)[x.len() + from] == y[from]);
        if y[from] != c {
            lemma_first_occurrence_behind(x, y, c, from + 1);
        }
    }
}

/// Where a marker stands at `at` and nowhere from `from` up to there, `at` is where it is
/// first found.
pub(crate) proof fn lemma_first_marker_is(
    text: Seq<char>,
    first: char,
    second: char,
    from: int,
    at: int,
)
    requires
        0 <= from <= at,
        marker_at(text, at, first, second),
        forall|j: int| from <= j < at ==> !marker_at(text, j, first, second),
    ensures
        first_marker(text, first, second, from) == at,
    decreases at - from,
{
    if from < at {
        lemma_first_marker_is(text, first, second, from + 1, at);
    }
}

/// Looking for a marker in `x + y` from within `x` finds what is found in `x`, where `x` holds
/// one.
pub(crate) proof fn lemma_first_marker_in_front(
    x: Seq<char>,
    y: Seq<char>,
    first: char,
    second: char,
    from: int,
)
    requires
        0 <= from <= x.len(),
        first_marker(x, first, second, from) < x.len(),
    ensures
        first_marker(x + y, first, second, from) == first_marker(x, first, second, from),
    decreases x.len() - from,
{
    lemma_first_marker_bounds(x, first, second, from);
    if from < x.len() {
        if marker_at(x, from, first, second) {
            assert((x + y)[from] == x[from]);
            assert((x + y)[from + 1] == x[from + 1]);
        } else {
            lemma_first_marker_bounds(x, first, second, from + 1);
            assert(from + 1 < x.len());
            assert((x + y)[from] == x[from]);
            assert((x + y)[from + 1] == x[from + 1]);
            lemma_first_marker_in_front(x, y, first, second, from + 1);
        }
    }
}

/// Looking for a marker in `x + y` from within `y` finds what is found in `y`, moved by the
/// length of `x`.
pub(crate) proof fn lemma_first_marker_behind(
    x: Seq<char>,
    y: Seq<char>,
    first: char,
    second: char,
    from: int,
)
    requires
        0 <= from <= y.len(),
    ensures
        first_marker(x + y, first, second, x.len() + from) == x.len() + first_marker(
            y,
            first,
            second,
            from,
        ),
    decreases y.len() - from,
{
    if from < y.len() {
        assert((x + y)[x.len() + from] == y[from]);
        if from + 1 < y.len() {
            assert((x + y)[x.len() + from + 1] == y[from + 1]);
        }
        if !marker_at(y, from, first, second) {
            lemma_first_marker_behind(x, y, first, second, from + 1);
        }
    }
}

/// A text that holds `first` nowhere holds no marker that starts with it.
pub(crate) proof fn lemma_no_marker_without_first(
    text: Seq<char>,
    first: char,
    second: char,
    from: int,
)
    requires
        0 <= from <= text.len(),
        free_of(text, first),
    ensures
        first_marker(text, first, second, from) == text.len(),
    decreases text.len() - from,
{
    if from < text.len() {
        lemma_no_marker_without_first(text, first, second, from + 1);
    }
}

/// A text that holds `second` nowhere holds no marker that ends in it.
pub(crate) proof fn lemma_no_marker_without_second(
    text: Seq<char>,
    first: char,
    second: char,
    from: int,
)
    requires
        0 <= from <= text.len(),
        free_of(text, second),
    ensures
        first_marker(text, first, second, from) == text.len(),
    decreases text.len() - from,
{
    if from < text.len() {
        lemma_no_marker_without_second(text, first, second, from + 1);
    }
}

/// Text made of instructions and whitespace holds no `/`.
pub(crate) proof fn lemma_plain_text_holds_no_slash(text: Seq<char>)
    requires
        is_plain(text),
    ensures
        free_of(text, '/'),
{
    assert forall|i: int| 0 <= i < text.len() implies text[i] != '/' by {
        assert(is_instruction(text[i]) || is_whitespace(text[i]));
    }
}

/// Text made of instructions holds no whitespace.
pub(crate) proof fn lemma_instructions_hold_no_whitespace(text: Seq<char>)
    requires
        forall|i: int| 0 <= i < text.len() ==> is_instruction(text[i]),
    ensures
        is_plain(text),
        text.filter(visible()) == text,
{
    assert forall|i: int| 0 <= i < text.len() implies !is_whitespace(text[i]) by {
        assert(is_instruction(text[i]));
    }
    lemma_whitespace_pass_filters(text, 0);
    lemma_whitespace_pass_extremes(text, 0);
    assert(text.skip(0) =~= text);
}

/// A text in which `//` stands nowhere from `from` on is left as it is by the line pass, and
/// no line comment is open at its end.
pub(crate) proof fn lemma_line_pass_without_marker(text: Seq<char>, from: int)
    requires
        0 <= from <= text.len(),
        forall|i: int| from <= i < text.len() ==> !marker_at(text, i, '/', '/'),
    ensures
        without_line_comments(text, text, from) == text.skip(from),
        !ends_in_line_comment(text, from),
    decreases text.len() - from,
{
    if from < text.len() {
        lemma_line_pass_without_marker(text, from + 1);
        assert(seq![text[from]] + text.skip(from + 1) =~= text.skip(from));
    } else {
        assert(text.skip(from) =~= Seq::<char>::empty());
    }
}

/// The line pass leaves a text without `/` as it is.
pub(crate) proof fn lemma_line_pass_without_slash(text: Seq<char>, from: int)
    requires
        0 <= from <= text.len(),
        free_of(text, '/'),
    ensures
        without_line_comments(text, text, from) == text.skip(from),
    decreases text.len() - from,
{
    if from < text.len() {
        lemma_line_pass_without_slash(text, from + 1);
        assert(seq![text[from]] + text.skip(from + 1) =~= text.skip(from));
    } else {
        assert(text.skip(from) =~= Seq::<char>::empty());
    }
}

/// The line pass over the back part of `x + y` does what it does over `y` alone.
pub(crate) proof fn lemma_line_pass_behind(x: Seq<char>, y: Seq<char>, from: int)
    requires
        0 <= from <= y.len(),
    ensures
        without_line_comments(x + y, x + y, x.len() + from) == without_line_comments(y, y, from),
    decreases y.len() - from,
{
    if from < y.len() {
        assert((x + y)[x.len() + from] == y[from]);
        if from + 1 < y.len() {
            assert((x + y)[x.len() + from + 1] == y[from + 1]);
        }
        if marker_at(y, from, '/', '/') {
            lemma_first_occurrence_behind(x, y, '\n', from + 2);
            lemma_first_occurrence_bounds(y, '\n', from + 2);
            lemma_line_pass_behind(x, y, first_occurrence(y, '\n', from + 2));
        } else {
            lemma_line_pass_behind(x, y, from + 1);
        }
    }
}

/// The line pass keeps a front part that holds no `/`, and goes on behind it as if it began
/// there.
pub(crate) proof fn lemma_line_pass_keeps_front(x: Seq<char>, y: Seq<char>, from: int)
    requires
        0 <= from <= x.len(),
        free_of(x, '/'),
    ensures
        without_line_comments(x + y, x + y, from) == x.skip(from) + without_line_comments(y, y, 0),
    decreases x.len() - from,
{
    if from < x.len() {
        assert((x + y)[from] == x[from]);
        lemma_line_pass_keeps_front(x, y, from + 1);
        assert(seq![x[from]] + (x.skip(from + 1) + without_line_comments(y, y, 0)) =~= x.skip(from)
            + without_line_comments(y, y, 0));
    } else {
        lemma_line_pass_behind(x, y, 0);
        assert(x.skip(from) + without_line_comments(y, y, 0) =~= without_line_comments(y, y, 0));
    }
}

/// Where no line comment of `c` is open at its end and `y` holds no `/`, the line pass over
/// `c + y` does to `c` what it does to `c` alone, and keeps `y`.
pub(crate) proof fn lemma_line_pass_closed_front(c: Seq<char>, y: Seq<char>, from: int)
    requires
        0 <= from <= c.len(),
        !ends_in_line_comment(c, from),
        free_of(y, '/'),
    ensures
        without_line_comments(c + y, c + y, from) == without_line_comments(c, c, from) + y,
    decreases c.len() - from,
{
    if from < c.len() {
        assert((c + y)[from] == c[from]);
        if from + 1 < c.len() {
            assert((c + y)[from + 1] == c[from + 1]);
        } else if y.len() > 0 {
            assert((c + y)[from + 1] == y[0]);
        }
        if marker_at(c, from, '/', '/') {
            lemma_first_occurrence_bounds(c, '\n', from + 2);
            lemma_first_occurrence_in_front(c, y, '\n', from + 2);
            lemma_line_pass_closed_front(c, y, first_occurrence(c, '\n', from + 2));
        } else {
            lemma_line_pass_closed_front(c, y, from + 1);
            assert(seq![c[from]] + (without_line_comments(c, c, from + 1) + y) =~= (seq![c[from]]
                + without_line_comments(c, c, from + 1)) + y);
        }
    } else {
        lemma_line_pass_behind(c, y, 0);
        lemma_line_pass_without_slash(y, 0);
        assert(y.skip(0) =~= y);
        assert(without_line_comments(c, c, from) + y =~= y);
    }
}

/// The whitespace pass keeps exactly the characters that are no whitespace.
pub(crate) proof fn lemma_whitespace_pass_filters(text: Seq<char>, from: int)
    requires
        0 <= from <= text.len(),
    ensures
        without_whitespace(text, text, from) == text.skip(from).filter(visible()),
    decreases text.len() - from,
{
    if from < text.len() {
        lemma_whitespace_pass_filters(text, from + 1);
        text.skip(from + 1).lemma_filter_prepend(text[from], visible());
        assert(seq![text[from]] + text.skip(from + 1) =~= text.skip(from));
        if is_whitespace(text[from]) {
            assert(Seq::<char>::empty() + text.skip(from + 1).filter(visible()) =~= text.skip(
                from + 1,
            ).filter(visible()));
        }
    } else {
        assert(text.skip(from) =~= Seq::<char>::empty());
        reveal(Seq::filter);
    }
}

/// The whitespace pass leaves nothing of a text that is whitespace throughout, and leaves a
/// text without whitespace as it is.
pub(crate) proof fn lemma_whitespace_pass_extremes(text: Seq<char>, from: int)
    requires
        0 <= from <= text.len(),
    ensures
        (forall|i: int| 0 <= i < text.len() ==> is_whitespace(text[i])) ==> without_whitespace(
            text,
            text,
            from,
        ).len() == 0,
        (forall|i: int| 0 <= i < text.len() ==> !is_whitespace(text[i])) ==> without_whitespace(
            text,
            text,
            from,
        ) == text.skip(from),
    decreases text.len() - from,
{
    if from < text.len() {
        lemma_whitespace_pass_extremes(text, from + 1);
        assert(seq![text[from]] + text.skip(from + 1) =~= text.skip(from));
    } else {
        assert(text.skip(from) =~= Seq::<char>::empty());
    }
}

/// The whitespace pass leaves no whitespace.
pub(crate) proof fn lemma_whitespace_pass_leaves_none(text: Seq<char>, from: int)
    requires
        0 <= from <= text.len(),
    ensures
        forall|k: int|
            0 <= k < without_whitespace(text, text, from).len() ==> !is_whitespace(
                #[trigger] without_whitespace(text, text, from)[k],
            ),
    decreases text.len() - from,
{
    if from < text.len() {
        lemma_whitespace_pass_leaves_none(text, from + 1);
        let rest = without_whitespace(text, text, from + 1);
        assert forall|k: int| 0 <= k < without_whitespace(text, text, from).len() implies
            !is_whitespace(#[trigger] without_whitespace(text, text, from)[k]) by {
            if !is_whitespace(text[from]) && k > 0 {
                assert(without_whitespace(text, text, from)[k] == rest[k - 1]);
            }
        }
    }
}

/// What the whitespace pass leaves is free of every character that the text was free of.
pub(crate) proof fn lemma_whitespace_pass_keeps_free_of(text: Seq<char>, c: char, from: int)
    requires
        0 <= from <= text.len(),
        free_of(text, c),
    ensures
        free_of(without_whitespace(text, text, from), c),
    decreases text.len() - from,
{
    if from < text.len() {
        lemma_whitespace_pass_keeps_free_of(text, c, from + 1);
    }
}

/// The whitespace pass over `x + y` is the pass over `x` followed by the pass over `y`.
pub(crate) proof fn lemma_whitespace_pass_of_sum(x: Seq<char>, y: Seq<char>)
    ensures
        without_whitespace(x + y, x + y, 0) == without_whitespace(x, x, 0) + without_whitespace(
            y,
            y,
            0,
        ),
{
    lemma_whitespace_pass_filters(x + y, 0);
    lemma_whitespace_pass_filters(x, 0);
    lemma_whitespace_pass_filters(y, 0);
    assert((x + y).skip(0) =~= x + y);
    assert(x.skip(0) =~= x);
    assert(y.skip(0) =~= y);
    Seq::filter_distributes_over_add(x, y, visible());
}

/// The block pass leaves a text without `/` as it is.
pub(crate) proof fn lemma_block_pass_without_slash(text: Seq<char>, from: int)
    requires
        0 <= from <= text.len(),
        free_of(text, '/'),
    ensures
        without_block_comments(text, text, from) == text.skip(from),
    decreases text.len() - from,
{
    if from < text.len() {
        lemma_block_pass_without_slash(text, from + 1);
        assert(seq![text[from]] + text.skip(from + 1) =~= text.skip(from));
    } else {
        assert(text.skip(from) =~= Seq::<char>::empty());
    }
}

/// What the block pass leaves is free of every character that the text was free of.
pub(crate) proof fn lemma_block_pass_keeps_free_of(text: Seq<char>, c: char, from: int)
    requires
        0 <= from <= text.len(),
        free_of(text, c),
    ensures
        free_of(without_block_comments(text, text, from), c),
    decreases text.len() - from,
{
    if from < text.len() {
        if block_comment_at(text, from) {
            lemma_first_marker_bounds(text, '*', '/', from + 2);
            lemma_block_pass_keeps_free_of(text, c, first_marker(text, '*', '/', from + 2) + 2);
        } else {
            lemma_block_pass_keeps_free_of(text, c, from + 1);
        }
    }
}

/// The block pass over the back part of `x + y` does what it does over `y` alone.
pub(crate) proof fn lemma_block_pass_behind(x: Seq<char>, y: Seq<char>, from: int)
    requires
        0 <= from <= y.len(),
    ensures
        without_block_comments(x + y, x + y, x.len() + from) == without_block_comments(y, y, from),
    decreases y.len() - from,
{
    if from < y.len() {
        assert((x + y)[x.len() + from] == y[from]);
        if from + 1 < y.len() {
            assert((x + y)[x.len() + from + 1] == y[from + 1]);
            lemma_first_marker_behind(x, y, '*', '/', from + 2);
            lemma_first_marker_bounds(y, '*', '/', from + 2);
        }
        if block_comment_at(y, from) {
            lemma_block_pass_behind(x, y, first_marker(y, '*', '/', from + 2) + 2);
        } else {
            lemma_block_pass_behind(x, y, from + 1);
        }
    }
}

/// The block pass keeps a front part that holds no `/`, and goes on behind it as if it began
/// there.
pub(crate) proof fn lemma_block_pass_keeps_front(x: Seq<char>, y: Seq<char>, from: int)
    requires
        0 <= from <= x.len(),
        free_of(x, '/'),
    ensures
        without_block_comments(x + y, x + y, from) == x.skip(from) + without_block_comments(
            y,
            y,
            0,
        ),
    decreases x.len() - from,
{
    if from < x.len() {
        assert((x + y)[from] == x[from]);
        lemma_block_pass_keeps_front(x, y, from + 1);
        assert(seq![x[from]] + (x.skip(from + 1) + without_block_comments(y, y, 0)) =~= x.skip(
            from,
        ) + without_block_comments(y, y, 0));
    } else {
        lemma_block_pass_behind(x, y, 0);
        assert(x.skip(from) + without_block_comments(y, y, 0) =~= without_block_comments(
            y,
            y,
            0,
        ));
    }
}

/// Where the block pass leaves nothing of `c` and `y` holds no `/`, it leaves of `c + y`
/// exactly `y`.
pub(crate) proof fn lemma_block_pass_consumed_front(c: Seq<char>, y: Seq<char>, from: int)
    requires
        0 <= from <= c.len(),
        without_block_comments(c, c, from).len() == 0,
        free_of(y, '/'),
    ensures
        without_block_comments(c + y, c + y, from) == y,
    decreases c.len() - from,
{
    if from < c.len() {
        assert(block_comment_at(c, from));
        assert((c + y)[from] == c[from]);
        assert((c + y)[from + 1] == c[from + 1]);
        lemma_first_marker_bounds(c, '*', '/', from + 2);
        lemma_first_marker_in_front(c, y, '*', '/', from + 2);
        lemma_block_pass_consumed_front(c, y, first_marker(c, '*', '/', from + 2) + 2);
    } else {
        lemma_block_pass_behind(c, y, 0);
        lemma_block_pass_without_slash(y, 0);
        assert(y.skip(0) =~= y);
    }
}

} // verus!
