//! What holds of the passes over program text: whitespace and comments between instructions
//! change nothing, a text with more `[` than `]`, or fewer, is turned down, and what is
//! accepted is clean.

use crate::error::{BfError, ErrorKind};
use crate::interpreter::execution_of;
use crate::sanitizer::{
    balanced, first_marker, first_occurrence, is_instruction, is_whitespace, last_occurrence,
    lemma_first_marker_bounds, lemma_first_occurrence_bounds, lemma_last_occurrence_bounds,
    lemma_occurrence_witness, lemma_stripped_is_drawn_from_source, marker_at, occurrences,
    sanitised, stripped, without_block_comments, without_line_comments, without_whitespace,
};
use crate::sanitizer_lemmas::{
    lemma_block_pass_consumed_front, lemma_block_pass_keeps_free_of, lemma_block_pass_keeps_front,
    lemma_block_pass_without_slash, lemma_first_marker_is, lemma_first_occurrence_is,
    lemma_instructions_hold_no_whitespace, lemma_line_pass_closed_front,
    lemma_line_pass_keeps_front, lemma_line_pass_without_marker, lemma_line_pass_without_slash,
    lemma_no_marker_without_first, lemma_no_marker_without_second,
    lemma_plain_text_holds_no_slash, lemma_whitespace_pass_extremes,
    lemma_whitespace_pass_filters, lemma_whitespace_pass_keeps_free_of,
    lemma_whitespace_pass_leaves_none, lemma_whitespace_pass_of_sum,
};
use vstd::prelude::*;

verus! {

/// The test that whitespace fails.
pub open spec fn visible() -> spec_fn(char) -> bool {
    |c: char| !is_whitespace(c)
}

/// Whether `text` holds `c` nowhere.
pub open spec fn free_of(text: Seq<char>, c: char) -> bool {
    forall|i: int| 0 <= i < text.len() ==> text[i] != c
}

/// Whether `text` is made of instructions and whitespace alone.
pub open spec fn is_plain(text: Seq<char>) -> bool {
    forall|i: int| 0 <= i < text.len() ==> is_instruction(text[i]) || is_whitespace(text[i])
}

/// Whether a line comment that starts in `text` at or after `from` is still open where `text`
/// ends: no line feed closes it.
pub open spec fn ends_in_line_comment(text: Seq<char>, from: int) -> bool
    decreases text.len() - from,
{
    if from < 0 || from >= text.len() {
        false
    } else if marker_at(text, from, '/', '/') {
        proof {
            lemma_first_occurrence_bounds(text, '\n', from + 2);
        }
        if first_occurrence(text, '\n', from + 2) >= text.len() {
            true
        } else {
            ends_in_line_comment(text, first_occurrence(text, '\n', from + 2))
        }
    } else {
        ends_in_line_comment(text, from + 1)
    }
}

/// Whether `text` is filler: text that the passes remove whole and that closes every line
/// comment it opens. Whitespace is filler, and so is a comment.
pub open spec fn is_filler(text: Seq<char>) -> bool {
    !ends_in_line_comment(text, 0) && stripped(text).text.len() == 0
}

/// Of a text that holds no `/`, the three passes leave what is no whitespace.
pub proof fn lemma_stripping_text_without_slash(text: Seq<char>)
    requires
        free_of(text, '/'),
    ensures
        stripped(text).text == text.filter(visible()),
{
    lemma_line_pass_without_slash(text, 0);
    assert(text.skip(0) =~= text);
    lemma_whitespace_pass_filters(text, 0);
    let shown = text.filter(visible());
    lemma_whitespace_pass_keeps_free_of(text, '/', 0);
    lemma_block_pass_without_slash(shown, 0);
    assert(shown.skip(0) =~= shown);
}

/// A text that holds no `/` is accepted exactly when what is no whitespace in it is balanced,
/// and that is then its instruction stream.
pub proof fn lemma_sanitising_text_without_slash(source: Seq<char>)
    requires
        free_of(source, '/'),
    ensures
        stripped(source).text == source.filter(visible()),
        sanitised(source) is Ok <==> balanced(source.filter(visible())),
        sanitised(source) is Ok ==> sanitised(source) == Ok::<Seq<char>, BfError>(
            source.filter(visible()),
        ),
{
    lemma_stripping_text_without_slash(source);
    let text = stripped(source).text;
    lemma_whitespace_pass_filters(source, 0);
    assert(source.skip(0) =~= source);
    lemma_whitespace_pass_keeps_free_of(source, '/', 0);
    lemma_no_marker_without_first(text, '/', '*', 0);
    lemma_no_marker_without_second(text, '*', '/', 0);
}

/// Whitespace between instructions is irrelevant. Where `spaced` is the program `program`
/// with whitespace put in anywhere, the passes leave `program` of both; so either both are
/// turned down, or both give the instruction stream `program`, and then run alike.
pub proof fn lemma_whitespace_between_instructions_is_irrelevant(
    program: Seq<char>,
    spaced: Seq<char>,
)
    requires
        forall|i: int| 0 <= i < program.len() ==> is_instruction(program[i]),
        is_plain(spaced),
        spaced.filter(visible()) == program,
    ensures
        stripped(spaced).text == program,
        stripped(program).text == program,
        sanitised(spaced) is Ok <==> sanitised(program) is Ok,
        sanitised(program) is Ok ==> sanitised(program) == Ok::<Seq<char>, BfError>(program)
            && sanitised(spaced) == sanitised(program),
        sanitised(program) is Ok ==> forall|show: bool, input: Seq<char>, max_steps: nat|
            #[trigger] execution_of(spaced, show, input, max_steps) == execution_of(
                program,
                show,
                input,
                max_steps,
            ),
{
    lemma_instructions_hold_no_whitespace(program);
    lemma_plain_text_holds_no_slash(program);
    lemma_plain_text_holds_no_slash(spaced);
    lemma_sanitising_text_without_slash(program);
    lemma_sanitising_text_without_slash(spaced);
}

/// Comments between instructions are irrelevant, and so is any filler between two texts
/// that hold no `/`: the passes leave of `before + filler + after` what they leave of
/// `before + after`, which is what is no whitespace in it. So either both texts are turned
/// down, or both give the same instruction stream, and then run alike.
pub proof fn lemma_filler_between_instructions_is_irrelevant(
    before: Seq<char>,
    filler: Seq<char>,
    after: Seq<char>,
)
    requires
        free_of(before, '/'),
        free_of(after, '/'),
        is_filler(filler),
    ensures
        stripped(before + filler + after).text == stripped(before + after).text,
        stripped(before + after).text == (before + after).filter(visible()),
        sanitised(before + filler + after) is Ok <==> sanitised(before + after) is Ok,
        sanitised(before + after) is Ok ==> sanitised(before + filler + after) == sanitised(
            before + after,
        ),
        sanitised(before + after) is Ok ==> forall|show: bool, input: Seq<char>, max_steps: nat|
            #[trigger] execution_of(before + filler + after, show, input, max_steps)
                == execution_of(before + after, show, input, max_steps),
{
    let whole = before + filler + after;
    assert(whole =~= before + (filler + after));
    // The line pass.
    lemma_line_pass_keeps_front(before, filler + after, 0);
    lemma_line_pass_closed_front(filler, after, 0);
    assert(before.skip(0) =~= before);
    let filler1 = without_line_comments(filler, filler, 0);
    let whole1 = without_line_comments(whole, whole, 0);
    assert(whole1 == before + (filler1 + after));
    // The whitespace pass.
    lemma_whitespace_pass_of_sum(before, filler1 + after);
    lemma_whitespace_pass_of_sum(filler1, after);
    let before2 = without_whitespace(before, before, 0);
    let filler2 = without_whitespace(filler1, filler1, 0);
    let after2 = without_whitespace(after, after, 0);
    let whole2 = without_whitespace(whole1, whole1, 0);
    assert(whole2 == before2 + (filler2 + after2));
    lemma_whitespace_pass_keeps_free_of(before, '/', 0);
    lemma_whitespace_pass_keeps_free_of(after, '/', 0);
    // The block pass.
    lemma_block_pass_keeps_front(before2, filler2 + after2, 0);
    lemma_block_pass_consumed_front(filler2, after2, 0);
    assert(before2.skip(0) =~= before2);
    assert(stripped(whole).text == before2 + after2);
    // The same text without the filler.
    assert(free_of(before + after, '/'));
    lemma_stripping_text_without_slash(before + after);
    lemma_whitespace_pass_of_sum(before, after);
    lemma_whitespace_pass_filters(before + after, 0);
    assert((before + after).skip(0) =~= before + after);
    // Neither text leaves a comment marker, so the balance of the loops decides for both.
    let text = stripped(whole).text;
    lemma_whitespace_pass_keeps_free_of(before + after, '/', 0);
    lemma_no_marker_without_first(text, '/', '*', 0);
    lemma_no_marker_without_second(text, '*', '/', 0);
}

/// Whitespace is filler.
pub proof fn lemma_whitespace_is_filler(text: Seq<char>)
    requires
        forall|i: int| 0 <= i < text.len() ==> is_whitespace(text[i]),
    ensures
        is_filler(text),
{
    lemma_line_pass_without_marker(text, 0);
    assert(text.skip(0) =~= text);
    lemma_whitespace_pass_extremes(text, 0);
}

/// A line comment is filler: `//`, then any text without a line feed, then a line feed.
pub proof fn lemma_line_comment_is_filler(body: Seq<char>)
    requires
        free_of(body, '\n'),
    ensures
        is_filler(seq!['/', '/'] + body + seq!['\n']),
{
    let comment = seq!['/', '/'] + body + seq!['\n'];
    let end = comment.len() - 1;
    assert(comment[0] == '/' && comment[1] == '/');
    assert(comment[end] == '\n');
    assert forall|j: int| 2 <= j < end implies comment[j] != '\n' by {
        assert(comment[j] == body[j - 2]);
    }
    lemma_first_occurrence_is(comment, '\n', 2, end);
    reveal_with_fuel(without_line_comments, 3);
    reveal_with_fuel(ends_in_line_comment, 3);
    let rest = without_line_comments(comment, comment, 0);
    assert(rest == without_line_comments(comment, comment, end));
    assert(rest =~= seq!['\n']);
    assert(!ends_in_line_comment(comment, 0));
    reveal_with_fuel(without_whitespace, 2);
    assert(without_whitespace(rest, rest, 0) =~= Seq::<char>::empty());
}

/// A block comment is filler: `/*`, then a body, then `*/`, where the body holds no `//`
/// and, once its whitespace is removed, no `*/`.
pub proof fn lemma_block_comment_is_filler(body: Seq<char>)
    requires
        forall|i: int| !marker_at(body, i, '/', '/'),
        forall|i: int| !marker_at(without_whitespace(body, body, 0), i, '*', '/'),
    ensures
        is_filler(seq!['/', '*'] + body + seq!['*', '/']),
{
    let comment = seq!['/', '*'] + body + seq!['*', '/'];
    assert forall|i: int| 0 <= i < comment.len() implies !marker_at(comment, i, '/', '/') by {
        if 2 <= i < comment.len() - 3 {
            assert(comment[i] == body[i - 2]);
            assert(comment[i + 1] == body[i - 1]);
            assert(!marker_at(body, i - 2, '/', '/'));
        }
    }
    lemma_line_pass_without_marker(comment, 0);
    assert(comment.skip(0) =~= comment);
    // The whitespace pass works on the three parts one by one.
    let open = seq!['/', '*'];
    let close = seq!['*', '/'];
    lemma_whitespace_pass_of_sum(open + body, close);
    lemma_whitespace_pass_of_sum(open, body);
    lemma_whitespace_pass_extremes(open, 0);
    lemma_whitespace_pass_extremes(close, 0);
    assert(open.skip(0) =~= open);
    assert(close.skip(0) =~= close);
    let inner = without_whitespace(body, body, 0);
    let shown = without_whitespace(comment, comment, 0);
    assert(shown == open + inner + close);
    // The block pass finds the comment closed by its last two characters.
    let end = shown.len() - 2;
    assert(shown[0] == '/' && shown[1] == '*');
    assert(shown[end] == '*' && shown[end + 1] == '/');
    assert forall|j: int| 2 <= j < end implies !marker_at(shown, j, '*', '/') by {
        assert(shown[j] == inner[j - 2]);
        if j + 1 < end {
            assert(shown[j + 1] == inner[j - 1]);
            assert(!marker_at(inner, j - 2, '*', '/'));
        }
    }
    lemma_first_marker_is(shown, '*', '/', 2, end);
    reveal_with_fuel(without_block_comments, 2);
    assert(without_block_comments(shown, shown, 0) =~= Seq::<char>::empty());
}

/// A text in which, once the passes are over, `[` and `]` differ in number is turned down with
/// a syntax error. Where no comment marker is left to report first, the fault points at the
/// first `[` of the source if there are too many `[`, and at its last `]` if there are too
/// many `]`.
pub proof fn lemma_unbalanced_loops_are_rejected(source: Seq<char>)
    requires
        source.len() <= usize::MAX,
        !balanced(stripped(source).text),
    ensures
        sanitised(source) is Err,
        sanitised(source)->Err_0.spec_kind() == ErrorKind::SyntaxError,
        ({
            let text = stripped(source).text;
            let entries = occurrences(text, '[', text.len() as int);
            let exits = occurrences(text, ']', text.len() as int);
            let clean = first_marker(text, '/', '*', 0) == text.len() && first_marker(
                text,
                '*',
                '/',
                0,
            ) == text.len();
            &&& clean && entries > exits ==> exists|at: int|
                {
                    &&& 0 <= at < source.len()
                    &&& source[at] == '['
                    &&& forall|j: int| 0 <= j < at ==> source[j] != '['
                    &&& sanitised(source) == Err::<Seq<char>, BfError>(
                        BfError::UnterminatedLoop { position: at as usize },
                    )
                }
            &&& clean && entries < exits ==> exists|at: int|
                {
                    &&& 0 <= at < source.len()
                    &&& source[at] == ']'
                    &&& forall|j: int| at < j < source.len() ==> source[j] != ']'
                    &&& sanitised(source) == Err::<Seq<char>, BfError>(
                        BfError::UnmatchedLoopExit { position: at as usize },
                    )
                }
        }),
{
    let rest = stripped(source);
    let text = rest.text;
    let entries = occurrences(text, '[', text.len() as int);
    let exits = occurrences(text, ']', text.len() as int);
    lemma_stripped_is_drawn_from_source(source);
    lemma_first_marker_bounds(text, '/', '*', 0);
    lemma_first_marker_bounds(text, '*', '/', 0);
    if first_marker(text, '/', '*', 0) == text.len() && first_marker(text, '*', '/', 0)
        == text.len() {
        if entries > exits {
            let k = lemma_occurrence_witness(text, '[', text.len() as int);
            assert(source[rest.origin[k] as int] == '[');
            lemma_first_occurrence_bounds(source, '[', 0);
            let at = first_occurrence(source, '[', 0);
            assert(at < source.len());
            assert(source[at] == '[');
        } else {
            let k = lemma_occurrence_witness(text, ']', text.len() as int);
            assert(source[rest.origin[k] as int] == ']');
            lemma_last_occurrence_bounds(source, ']', source.len() as int);
            let at = last_occurrence(source, ']', source.len() as int);
            assert(at >= 0);
            assert(source[at] == ']');
        }
    }
}

/// An instruction stream that is accepted is what the passes left of the source. It holds no
/// whitespace and no comment marker, and as many `[` as `]`.
pub proof fn lemma_accepted_stream_is_clean(source: Seq<char>)
    requires
        sanitised(source) is Ok,
    ensures
        ({
            let stream = sanitised(source)->Ok_0;
            &&& stream == stripped(source).text
            &&& forall|i: int| 0 <= i < stream.len() ==> !is_whitespace(#[trigger] stream[i])
            &&& forall|i: int| !marker_at(stream, i, '/', '*') && !marker_at(stream, i, '*', '/')
            &&& balanced(stream)
        }),
{
    let stream = sanitised(source)->Ok_0;
    let text1 = without_line_comments(source, source, 0);
    let text2 = without_whitespace(text1, text1, 0);
    lemma_whitespace_pass_leaves_none(text1, 0);
    assert(free_of(text2, ' ') && free_of(text2, '\t') && free_of(text2, '\n') && free_of(
        text2,
        '\r',
    ));
    lemma_block_pass_keeps_free_of(text2, ' ', 0);
    lemma_block_pass_keeps_free_of(text2, '\t', 0);
    lemma_block_pass_keeps_free_of(text2, '\n', 0);
    lemma_block_pass_keeps_free_of(text2, '\r', 0);
    lemma_first_marker_bounds(stream, '/', '*', 0);
    lemma_first_marker_bounds(stream, '*', '/', 0);
}

} // verus!
