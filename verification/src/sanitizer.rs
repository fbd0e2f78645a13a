//! From program text as it was written to a stream of instructions.
//!
//! Three passes remove what carries no meaning: line comments (`//` to the end of the line),
//! then whitespace, then block comments (`/*` to the next `*/`). Every character that is left
//! remembers where it stood in the text as written, so that a fault can point there. What is
//! left is then checked: no comment marker may remain, and there must be as many `[` as `]`.

use crate::error::BfError;
use crate::text::{chars_of, string_of};
use vstd::prelude::*;

verus! {

/// Whether `c` is one of the eight instructions.
pub open spec fn is_instruction(c: char) -> bool {
    c == '>' || c == '<' || c == '+' || c == '-' || c == '[' || c == ']' || c == '.' || c == ','
}

/// Whether `c` is a space, a tab, a line feed or a carriage return.
pub open spec fn is_whitespace(c: char) -> bool {
    c == ' ' || c == '\t' || c == '\n' || c == '\r'
}

/// Whether `first` stands at `i` in `text` and `second` right behind it.
pub open spec fn marker_at(text: Seq<char>, i: int, first: char, second: char) -> bool {
    0 <= i && i + 1 < text.len() && text[i] == first && text[i + 1] == second
}

/// The first index at or after `from` at which `c` stands in `text`; the length of `text`
/// where there is none.
pub open spec fn first_occurrence(text: Seq<char>, c: char, from: int) -> int
    decreases text.len() - from,
{
    if from >= text.len() {
        text.len() as int
    } else if 0 <= from && text[from] == c {
        from
    } else {
        first_occurrence(text, c, from + 1)
    }
}

/// The last index before `upto` at which `c` stands in `text`; -1 where there is none.
pub open spec fn last_occurrence(text: Seq<char>, c: char, upto: int) -> int
    decreases upto,
{
    if upto <= 0 {
        -1
    } else if upto <= text.len() && text[upto - 1] == c {
        upto - 1
    } else {
        last_occurrence(text, c, upto - 1)
    }
}

/// How often `c` stands among the first `upto` characters of `text`.
pub open spec fn occurrences(text: Seq<char>, c: char, upto: int) -> nat
    decreases upto,
{
    if upto <= 0 {
        0
    } else {
        occurrences(text, c, upto - 1) + if text[upto - 1] == c {
            1nat
        } else {
            0nat
        }
    }
}

/// Whether `text` holds as many `[` as `]`.
pub open spec fn balanced(text: Seq<char>) -> bool {
    occurrences(text, '[', text.len() as int) == occurrences(text, ']', text.len() as int)
}

/// The first index at or after `from` at which the marker `first`, `second` stands in `text`;
/// the length of `text` where there is none.
pub open spec fn first_marker(text: Seq<char>, first: char, second: char, from: int) -> int
    decreases text.len() - from,
{
    if from >= text.len() {
        text.len() as int
    } else if marker_at(text, from, first, second) {
        from
    } else {
        first_marker(text, first, second, from + 1)
    }
}

/// `first_occurrence` answers with an index between `from` and the length of the text.
pub proof fn lemma_first_occurrence_bounds(text: Seq<char>, c: char, from: int)
    requires
        0 <= from <= text.len(),
    ensures
        from <= first_occurrence(text, c, from) <= text.len(),
        first_occurrence(text, c, from) < text.len() ==> text[first_occurrence(text, c, from)]
            == c,
        forall|j: int| from <= j < first_occurrence(text, c, from) ==> text[j] != c,
    decreases text.len() - from,
{
    if from < text.len() && text[from] != c {
        lemma_first_occurrence_bounds(text, c, from + 1);
    }
}

/// `first_marker` answers with an index between `from` and the length of the text.
pub proof fn lemma_first_marker_bounds(text: Seq<char>, first: char, second: char, from: int)
    requires
        0 <= from <= text.len(),
    ensures
        from <= first_marker(text, first, second, from) <= text.len(),
        first_marker(text, first, second, from) < text.len() ==> marker_at(
            text,
            first_marker(text, first, second, from),
            first,
            second,
        ),
        forall|j: int|
            from <= j < first_marker(text, first, second, from) ==> !marker_at(
                text,
                j,
                first,
                second,
            ),
    decreases text.len() - from,
{
    if from < text.len() && !marker_at(text, from, first, second) {
        lemma_first_marker_bounds(text, first, second, from + 1);
    }
}

/// `last_occurrence` answers with the largest index before `upto` at which `c` stands.
pub proof fn lemma_last_occurrence_bounds(text: Seq<char>, c: char, upto: int)
    requires
        0 <= upto <= text.len(),
    ensures
        -1 <= last_occurrence(text, c, upto) < upto,
        last_occurrence(text, c, upto) >= 0 ==> text[last_occurrence(text, c, upto)] == c,
        forall|j: int| last_occurrence(text, c, upto) < j < upto ==> text[j] != c,
    decreases upto,
{
    if upto > 0 && text[upto - 1] != c {
        lemma_last_occurrence_bounds(text, c, upto - 1);
    }
}

/// Where `c` is counted at least once among the first `upto` characters, it stands at one of
/// them.
pub proof fn lemma_occurrence_witness(text: Seq<char>, c: char, upto: int) -> (at: int)
    requires
        0 <= upto <= text.len(),
        occurrences(text, c, upto) > 0,
    ensures
        0 <= at < upto,
        text[at] == c,
    decreases upto,
{
    if text[upto - 1] == c {
        upto - 1
    } else {
        lemma_occurrence_witness(text, c, upto - 1)
    }
}

/// What is left of `items` from index `from` on, once those are dropped that stand where
/// `text` holds a line comment: `//` and all that follows up to, and without, the next line
/// feed.
pub open spec fn without_line_comments<A>(text: Seq<char>, items: Seq<A>, from: int) -> Seq<A>
    decreases text.len() - from,
{
    if from < 0 || from >= text.len() {
        Seq::empty()
    } else if marker_at(text, from, '/', '/') {
        proof {
            lemma_first_occurrence_bounds(text, '\n', from + 2);
        }
        without_line_comments(text, items, first_occurrence(text, '\n', from + 2))
    } else {
        seq![items[from]] + without_line_comments(text, items, from + 1)
    }
}

/// What is left of `items` from index `from` on, once those are dropped that stand where
/// `text` holds whitespace.
pub open spec fn without_whitespace<A>(text: Seq<char>, items: Seq<A>, from: int) -> Seq<A>
    decreases text.len() - from,
{
    if from < 0 || from >= text.len() {
        Seq::empty()
    } else if is_whitespace(text[from]) {
        without_whitespace(text, items, from + 1)
    } else {
        seq![items[from]] + without_whitespace(text, items, from + 1)
    }
}

/// Whether a block comment starts at `from` in `text`: `/*` stands there, and a `*/` follows
/// behind it.
pub open spec fn block_comment_at(text: Seq<char>, from: int) -> bool {
    marker_at(text, from, '/', '*') && first_marker(text, '*', '/', from + 2) < text.len()
}

/// What is left of `items` from index `from` on, once those are dropped that stand where
/// `text` holds a block comment: `/*` and all that follows up to, and with, the next `*/`.
/// A `/*` that no `*/` follows is no comment and stays.
pub open spec fn without_block_comments<A>(text: Seq<char>, items: Seq<A>, from: int) -> Seq<A>
    decreases text.len() - from,
{
    if from < 0 || from >= text.len() {
        Seq::empty()
    } else if block_comment_at(text, from) {
        proof {
            lemma_first_marker_bounds(text, '*', '/', from + 2);
        }
        without_block_comments(text, items, first_marker(text, '*', '/', from + 2) + 2)
    } else {
        seq![items[from]] + without_block_comments(text, items, from + 1)
    }
}

/// The positions `0`, `1`, ... of a text of `length` characters.
pub open spec fn positions(length: nat) -> Seq<usize> {
    Seq::new(length, |i: int| i as usize)
}

/// Text, and for each of its characters the position that it had in the source.
pub struct TracedText {
    /// The characters.
    pub text: Seq<char>,
    /// For each character, its position in the source.
    pub origin: Seq<usize>,
}

/// What the three passes leave of `source`.
pub open spec fn stripped(source: Seq<char>) -> TracedText {
    let text1 = without_line_comments(source, source, 0);
    let origin1 = without_line_comments(source, positions(source.len()), 0);
    let text2 = without_whitespace(text1, text1, 0);
    let origin2 = without_whitespace(text1, origin1, 0);
    TracedText {
        text: without_block_comments(text2, text2, 0),
        origin: without_block_comments(text2, origin2, 0),
    }
}

/// Whether `text` with `origin` is drawn from `source`: every character of `text` stands in
/// `source` at its origin, and the origins ascend.
pub open spec fn drawn_from(source: Seq<char>, text: Seq<char>, origin: Seq<usize>) -> bool {
    &&& text.len() == origin.len()
    &&& forall|k: int|
        0 <= k < text.len() ==> (#[trigger] origin[k]) < source.len() && source[origin[k] as int]
            == text[k]
    &&& forall|j: int, k: int| 0 <= j < k < text.len() ==> origin[j] < origin[k]
}

/// Removing line comments from a text drawn from `source` leaves a text drawn from `source`.
pub proof fn lemma_line_pass_draws(
    source: Seq<char>,
    text: Seq<char>,
    origin: Seq<usize>,
    from: int,
)
    requires
        drawn_from(source, text, origin),
        0 <= from <= text.len(),
    ensures
        drawn_from(
            source,
            without_line_comments(text, text, from),
            without_line_comments(text, origin, from),
        ),
        forall|k: int|
            0 <= k < without_line_comments(text, origin, from).len() ==> origin[from]
                <= #[trigger] without_line_comments(text, origin, from)[k],
    decreases text.len() - from,
{
    if from < text.len() {
        if marker_at(text, from, '/', '/') {
            lemma_first_occurrence_bounds(text, '\n', from + 2);
            lemma_line_pass_draws(source, text, origin, first_occurrence(text, '\n', from + 2));
        } else {
            lemma_line_pass_draws(source, text, origin, from + 1);
        }
    }
}

/// Removing whitespace from a text drawn from `source` leaves a text drawn from `source`.
pub proof fn lemma_whitespace_pass_draws(
    source: Seq<char>,
    text: Seq<char>,
    origin: Seq<usize>,
    from: int,
)
    requires
        drawn_from(source, text, origin),
        0 <= from <= text.len(),
    ensures
        drawn_from(
            source,
            without_whitespace(text, text, from),
            without_whitespace(text, origin, from),
        ),
        forall|k: int|
            0 <= k < without_whitespace(text, origin, from).len() ==> origin[from]
                <= #[trigger] without_whitespace(text, origin, from)[k],
    decreases text.len() - from,
{
    if from < text.len() {
        lemma_whitespace_pass_draws(source, text, origin, from + 1);
    }
}

/// Removing block comments from a text drawn from `source` leaves a text drawn from `source`.
pub proof fn lemma_block_pass_draws(
    source: Seq<char>,
    text: Seq<char>,
    origin: Seq<usize>,
    from: int,
)
    requires
        drawn_from(source, text, origin),
        0 <= from <= text.len(),
    ensures
        drawn_from(
            source,
            without_block_comments(text, text, from),
            without_block_comments(text, origin, from),
        ),
        forall|k: int|
            0 <= k < without_block_comments(text, origin, from).len() ==> origin[from]
                <= #[trigger] without_block_comments(text, origin, from)[k],
    decreases text.len() - from,
{
    if from < text.len() {
        if block_comment_at(text, from) {
            lemma_first_marker_bounds(text, '*', '/', from + 2);
            lemma_block_pass_draws(
                source,
                text,
                origin,
                first_marker(text, '*', '/', from + 2) + 2,
            );
        } else {
            lemma_block_pass_draws(source, text, origin, from + 1);
        }
    }
}

/// What the three passes leave of a source is drawn from it: every character that is left
/// stands in the source at the position kept for it, and the characters keep their order.
pub proof fn lemma_stripped_is_drawn_from_source(source: Seq<char>)
    requires
        source.len() <= usize::MAX,
    ensures
        drawn_from(source, stripped(source).text, stripped(source).origin),
{
    let origin0 = positions(source.len());
    assert(drawn_from(source, source, origin0));
    lemma_line_pass_draws(source, source, origin0, 0);
    let text1 = without_line_comments(source, source, 0);
    let origin1 = without_line_comments(source, origin0, 0);
    lemma_whitespace_pass_draws(source, text1, origin1, 0);
    let text2 = without_whitespace(text1, text1, 0);
    let origin2 = without_whitespace(text1, origin1, 0);
    lemma_block_pass_draws(source, text2, origin2, 0);
}

/// The verdict on what the passes left: the first fault, or none.
///
/// `source` is the text as written, `text` what is left of it, and `origin` holds for each
/// character of `text` its position in `source`.
pub open spec fn structure_fault(source: Seq<char>, text: Seq<char>, origin: Seq<usize>) -> Option<
    BfError,
> {
    let open = first_marker(text, '/', '*', 0);
    let close = first_marker(text, '*', '/', 0);
    let entries = occurrences(text, '[', text.len() as int);
    let exits = occurrences(text, ']', text.len() as int);
    if open < text.len() {
        Some(BfError::UnterminatedComment { position: origin[open] })
    } else if close < text.len() {
        Some(BfError::StrayCommentClose { position: origin[close] })
    } else if entries > exits {
        Some(BfError::UnterminatedLoop { position: first_occurrence(source, '[', 0) as usize })
    } else if entries < exits {
        Some(
            BfError::UnmatchedLoopExit {
                position: last_occurrence(source, ']', source.len() as int) as usize,
            },
        )
    } else {
        None
    }
}

/// The instruction stream that `source` stands for, or the fault in it.
pub open spec fn sanitised(source: Seq<char>) -> Result<Seq<char>, BfError> {
    let rest = stripped(source);
    match structure_fault(source, rest.text, rest.origin) {
        Some(fault) => Err(fault),
        None => Ok(rest.text),
    }
}

/// Whether `c` is a space, a tab, a line feed or a carriage return.
fn whitespace(c: char) -> (r: bool)
    ensures
        r == is_whitespace(c),
{
    c == ' ' || c == '\t' || c == '\n' || c == '\r'
}

/// The first index at or after `from` at which `c` stands in `text`; the length of `text`
/// where there is none.
fn find_char(text: &Vec<char>, c: char, from: usize) -> (index: usize)
    requires
        from <= text.len(),
    ensures
        index == first_occurrence(text@, c, from as int),
        from <= index <= text.len(),
        index < text.len() ==> text@[index as int] == c,
{
    let mut i: usize = from;
    while i < text.len() && text[i] != c
        invariant
            from <= i <= text.len(),
            first_occurrence(text@, c, from as int) == first_occurrence(text@, c, i as int),
        decreases text.len() - i,
    {
        i += 1;
    }
    i
}

/// The last index at which `c` stands in `text`, or `None` where there is none.
fn find_last_char(text: &Vec<char>, c: char) -> (index: Option<usize>)
    ensures
        match index {
            Some(i) => i == last_occurrence(text@, c, text.len() as int),
            None => last_occurrence(text@, c, text.len() as int) == -1,
        },
{
    let mut i: usize = text.len();
    while i > 0 && text[i - 1] != c
        invariant
            i <= text.len(),
            last_occurrence(text@, c, text.len() as int) == last_occurrence(text@, c, i as int),
        decreases i,
    {
        i -= 1;
    }
    if i == 0 {
        None
    } else {
        Some(i - 1)
    }
}

/// How often `c` stands in `text`.
fn count_char(text: &Vec<char>, c: char) -> (count: usize)
    ensures
        count == occurrences(text@, c, text.len() as int),
{
    let mut count: usize = 0;
    let mut i: usize = 0;
    while i < text.len()
        invariant
            i <= text.len(),
            count <= i,
            count == occurrences(text@, c, i as int),
        decreases text.len() - i,
    {
        if text[i] == c {
            count += 1;
        }
        i += 1;
    }
    count
}

/// The first index at or after `from` at which the marker `first`, `second` stands in `text`;
/// the length of `text` where there is none.
fn find_marker(text: &Vec<char>, first: char, second: char, from: usize) -> (index: usize)
    requires
        from <= text.len(),
    ensures
        index == first_marker(text@, first, second, from as int),
        from <= index <= text.len(),
        index < text.len() ==> marker_at(text@, index as int, first, second),
{
    let mut i: usize = from;
    while i < text.len() && !(i + 1 < text.len() && text[i] == first && text[i + 1] == second)
        invariant
            from <= i <= text.len(),
            first_marker(text@, first, second, from as int) == first_marker(
                text@,
                first,
                second,
                i as int,
            ),
        decreases text.len() - i,
    {
        i += 1;
    }
    i
}

/// Program text in which every character remembers where it stood in the source.
#[derive(Debug, PartialEq, Eq)]
pub struct Traced {
    /// The characters.
    pub text: Vec<char>,
    /// For each character, its position in the source.
    pub origin: Vec<usize>,
}

impl View for Traced {
    type V = TracedText;

    open spec fn view(&self) -> TracedText {
        TracedText { text: self.text@, origin: self.origin@ }
    }
}

impl Traced {
    /// Whether every character has its position.
    pub open spec fn wf(&self) -> bool {
        self.text.len() == self.origin.len()
    }

    /// The text `source` as written: each character at its own position.
    pub fn of_source(source: &str) -> (traced: Traced)
        ensures
            traced.wf(),
            traced.text@ == source@,
            traced.origin@ == positions(source@.len()),
    {
        let text = chars_of(source);
        let mut origin: Vec<usize> = Vec::new();
        let mut i: usize = 0;
        while i < text.len()
            invariant
                i <= text.len(),
                origin@ == positions(i as nat),
            decreases text.len() - i,
        {
            origin.push(i);
            i += 1;
            assert(origin@ =~= positions(i as nat));
        }
        Traced { text, origin }
    }

    /// This text without its line comments.
    pub fn without_line_comments(&self) -> (rest: Traced)
        requires
            self.wf(),
        ensures
            rest.wf(),
            rest.text@ == without_line_comments(self.text@, self.text@, 0),
            rest.origin@ == without_line_comments(self.text@, self.origin@, 0),
    {
        let mut text: Vec<char> = Vec::new();
        let mut origin: Vec<usize> = Vec::new();
        let mut i: usize = 0;
        while i < self.text.len()
            invariant
                self.wf(),
                i <= self.text.len(),
                text.len() == origin.len(),
                text@ + without_line_comments(self.text@, self.text@, i as int)
                    == without_line_comments(self.text@, self.text@, 0),
                origin@ + without_line_comments(self.text@, self.origin@, i as int)
                    == without_line_comments(self.text@, self.origin@, 0),
            decreases self.text.len() - i,
        {
            if i + 1 < self.text.len() && self.text[i] == '/' && self.text[i + 1] == '/' {
                i = find_char(&self.text, '\n', i + 2);
            } else {
                let ghost kept_text = text@;
                let ghost kept_origin = origin@;
                text.push(self.text[i]);
                origin.push(self.origin[i]);
                i += 1;
                proof {
                    let rest_text = without_line_comments(self.text@, self.text@, i as int);
                    let rest_origin = without_line_comments(self.text@, self.origin@, i as int);
                    assert(kept_text + (seq![self.text@[i - 1]] + rest_text) =~= text@
                        + rest_text);
                    assert(kept_origin + (seq![self.origin@[i - 1]] + rest_origin) =~= origin@
                        + rest_origin);
                }
            }
        }
        assert(text@ + Seq::<char>::empty() =~= text@);
        assert(origin@ + Seq::<usize>::empty() =~= origin@);
        Traced { text, origin }
    }

    /// This text without its whitespace.
    pub fn without_whitespace(&self) -> (rest: Traced)
        requires
            self.wf(),
        ensures
            rest.wf(),
            rest.text@ == without_whitespace(self.text@, self.text@, 0),
            rest.origin@ == without_whitespace(self.text@, self.origin@, 0),
    {
        let mut text: Vec<char> = Vec::new();
        let mut origin: Vec<usize> = Vec::new();
        let mut i: usize = 0;
        while i < self.text.len()
            invariant
                self.wf(),
                i <= self.text.len(),
                text.len() == origin.len(),
                text@ + without_whitespace(self.text@, self.text@, i as int) == without_whitespace(
                    self.text@,
                    self.text@,
                    0,
                ),
                origin@ + without_whitespace(self.text@, self.origin@, i as int)
                    == without_whitespace(self.text@, self.origin@, 0),
            decreases self.text.len() - i,
        {
            let ghost kept_text = text@;
            let ghost kept_origin = origin@;
            if !whitespace(self.text[i]) {
                text.push(self.text[i]);
                origin.push(self.origin[i]);
            }
            i += 1;
            proof {
                let rest_text = without_whitespace(self.text@, self.text@, i as int);
                let rest_origin = without_whitespace(self.text@, self.origin@, i as int);
                assert(kept_text + (seq![self.text@[i - 1]] + rest_text) =~= kept_text.push(
                    self.text@[i - 1],
                ) + rest_text);
                assert(kept_origin + (seq![self.origin@[i - 1]] + rest_origin)
                    =~= kept_origin.push(self.origin@[i - 1]) + rest_origin);
            }
        }
        assert(text@ + Seq::<char>::empty() =~= text@);
        assert(origin@ + Seq::<usize>::empty() =~= origin@);
        Traced { text, origin }
    }

    /// This text without its block comments.
    pub fn without_block_comments(&self) -> (rest: Traced)
        requires
            self.wf(),
        ensures
            rest.wf(),
            rest.text@ == without_block_comments(self.text@, self.text@, 0),
            rest.origin@ == without_block_comments(self.text@, self.origin@, 0),
    {
        let mut text: Vec<char> = Vec::new();
        let mut origin: Vec<usize> = Vec::new();
        let mut i: usize = 0;
        // Once no `*/` is found behind some `/*`, none will be found behind a later one.
        let mut may_close = true;
        while i < self.text.len()
            invariant
                self.wf(),
                i <= self.text.len(),
                text.len() == origin.len(),
                !may_close ==> first_marker(self.text@, '*', '/', i + 2) == self.text.len(),
                text@ + without_block_comments(self.text@, self.text@, i as int)
                    == without_block_comments(self.text@, self.text@, 0),
                origin@ + without_block_comments(self.text@, self.origin@, i as int)
                    == without_block_comments(self.text@, self.origin@, 0),
            decreases self.text.len() - i,
        {
            let mut close: usize = self.text.len();
            if may_close && i + 1 < self.text.len() && self.text[i] == '/' && self.text[i + 1]
                == '*' {
                close = find_marker(&self.text, '*', '/', i + 2);
                may_close = close < self.text.len();
            }
            assert(block_comment_at(self.text@, i as int) <==> close < self.text.len());
            if close < self.text.len() {
                i = close + 2;
            } else {
                let ghost kept_text = text@;
                let ghost kept_origin = origin@;
                text.push(self.text[i]);
                origin.push(self.origin[i]);
                i += 1;
                proof {
                    let rest_text = without_block_comments(self.text@, self.text@, i as int);
                    let rest_origin = without_block_comments(self.text@, self.origin@, i as int);
                    assert(kept_text + (seq![self.text@[i - 1]] + rest_text) =~= text@
                        + rest_text);
                    assert(kept_origin + (seq![self.origin@[i - 1]] + rest_origin) =~= origin@
                        + rest_origin);
                }
            }
        }
        assert(text@ + Seq::<char>::empty() =~= text@);
        assert(origin@ + Seq::<usize>::empty() =~= origin@);
        Traced { text, origin }
    }

    /// What the three passes leave of the text `source`.
    pub fn strip(source: &str) -> (rest: Traced)
        ensures
            rest.wf(),
            rest@ == stripped(source@),
            drawn_from(source@, rest.text@, rest.origin@),
    {
        let written = Traced::of_source(source);
        proof {
            lemma_stripped_is_drawn_from_source(source@);
        }
        written.without_line_comments().without_whitespace().without_block_comments()
    }
}

/// Checks what the passes left of `source`: no comment marker may remain, and there must be as
/// many `[` as `]`.
pub fn check_structure(source: &Vec<char>, rest: &Traced) -> (r: Result<(), BfError>)
    requires
        drawn_from(source@, rest.text@, rest.origin@),
    ensures
        match r {
            Ok(_) => structure_fault(source@, rest.text@, rest.origin@) is None,
            Err(fault) => structure_fault(source@, rest.text@, rest.origin@) == Some(fault),
        },
{
    let open = find_marker(&rest.text, '/', '*', 0);
    if open < rest.text.len() {
        return Err(BfError::UnterminatedComment { position: rest.origin[open] });
    }
    let close = find_marker(&rest.text, '*', '/', 0);
    if close < rest.text.len() {
        return Err(BfError::StrayCommentClose { position: rest.origin[close] });
    }
    let entries = count_char(&rest.text, '[');
    let exits = count_char(&rest.text, ']');
    if entries > exits {
        return Err(BfError::UnterminatedLoop { position: find_char(source, '[', 0) });
    }
    if entries < exits {
        proof {
            let k = lemma_occurrence_witness(rest.text@, ']', rest.text.len() as int);
            assert(source@[rest.origin@[k] as int] == ']');
            lemma_last_occurrence_bounds(source@, ']', source.len() as int);
        }
        match find_last_char(source, ']') {
            Some(position) => {
                return Err(BfError::UnmatchedLoopExit { position });
            },
            None => {},
        }
    }
    Ok(())
}

/// Turns program text as written into a stream of instructions: without comments and
/// whitespace, and checked for stray comment markers and for as many `[` as `]`.
pub fn sanitise_code(code: &str) -> (r: Result<String, BfError>)
    ensures
        match r {
            Ok(stream) => sanitised(code@) == Ok::<Seq<char>, BfError>(stream@),
            Err(fault) => sanitised(code@) == Err::<Seq<char>, BfError>(fault),
        },
{
    let source = chars_of(code);
    let rest = Traced::strip(code);
    match check_structure(&source, &rest) {
        Ok(_) => Ok(string_of(&rest.text)),
        Err(fault) => Err(fault),
    }
}

} // verus!
