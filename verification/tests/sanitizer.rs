use brainfuck::error::{BfError, ErrorKind};
use brainfuck::sanitizer::{check_structure, sanitise_code, Traced};
use regex::Regex;

fn text_of(rest: &Traced) -> String {
    rest.text.iter().collect()
}

fn patterns() -> [Regex; 3] {
    [
        Regex::new(r"//[^\n]*").unwrap(),
        Regex::new(r"\n|\r| |\t").unwrap(),
        Regex::new(r"/\*.*?\*/").unwrap(),
    ]
}

fn by_patterns(patterns: &[Regex; 3], source: &str) -> String {
    let first = patterns[0].replace_all(source, "");
    let second = patterns[1].replace_all(&first, "");
    patterns[2].replace_all(&second, "").into_owned()
}

#[test]
fn empty_source_gives_empty_stream() {
    assert_eq!(sanitise_code(""), Ok(String::new()));
}

#[test]
fn instructions_pass_unchanged() {
    assert_eq!(sanitise_code("+-<>[],."), Ok(String::from("+-<>[],.")));
}

#[test]
fn whitespace_is_removed() {
    assert_eq!(sanitise_code("+ +\n\t-\r\n"), Ok(String::from("++-")));
}

#[test]
fn whitespace_between_instructions_changes_nothing() {
    let program = "+[->+<]";
    let spaced = " + [ - >\n\t+ <\r\n ]  ";
    assert_eq!(sanitise_code(program), Ok(String::from(program)));
    assert_eq!(sanitise_code(spaced), sanitise_code(program));
}

#[test]
fn line_comment_is_removed() {
    assert_eq!(sanitise_code("+ // add one\n-"), Ok(String::from("+-")));
}

#[test]
fn every_line_comment_is_removed() {
    assert_eq!(sanitise_code("+ // one\n- // two\n. // three"), Ok(String::from("+-.")));
}

#[test]
fn line_comment_without_text_is_removed() {
    assert_eq!(sanitise_code("+//\n-"), Ok(String::from("+-")));
}

#[test]
fn line_comment_runs_to_the_end_of_the_source() {
    assert_eq!(sanitise_code("+// no line feed behind this ]"), Ok(String::from("+")));
}

#[test]
fn line_comment_does_not_end_at_a_carriage_return() {
    assert_eq!(sanitise_code("+// one\r- two\n."), Ok(String::from("+.")));
}

#[test]
fn instructions_in_a_line_comment_are_ignored() {
    assert_eq!(sanitise_code("+ // [[[ ]\n-"), Ok(String::from("+-")));
}

#[test]
fn block_comment_is_removed_with_its_text() {
    assert_eq!(sanitise_code("+/* note */-"), Ok(String::from("+-")));
}

#[test]
fn instructions_in_a_block_comment_are_ignored() {
    assert_eq!(sanitise_code("+/* [ ] ] */-"), Ok(String::from("+-")));
}

#[test]
fn block_comment_may_span_lines() {
    assert_eq!(sanitise_code("+/* one\n   two */-"), Ok(String::from("+-")));
}

#[test]
fn empty_block_comment_is_removed() {
    assert_eq!(sanitise_code("+/**/-"), Ok(String::from("+-")));
}

#[test]
fn block_comment_ends_at_the_first_close_marker() {
    assert_eq!(
        sanitise_code("+/* a */-/* b */."),
        Ok(String::from("+-."))
    );
}

#[test]
fn slash_star_slash_is_no_comment() {
    assert_eq!(
        sanitise_code("/*/"),
        Err(BfError::UnterminatedComment { position: 0 })
    );
}

#[test]
fn comment_between_instructions_changes_nothing() {
    assert_eq!(sanitise_code("+/* any text */-"), sanitise_code("+-"));
    assert_eq!(sanitise_code("+// any text\n-"), sanitise_code("+-"));
    assert_eq!(sanitise_code("[/* x */-/* y */]"), sanitise_code("[-]"));
}

#[test]
fn characters_that_are_no_instructions_stay() {
    assert_eq!(sanitise_code("+a-"), Ok(String::from("+a-")));
}

#[test]
fn unterminated_block_comment_is_reported_where_it_opens() {
    assert_eq!(
        sanitise_code("++ /* oops"),
        Err(BfError::UnterminatedComment { position: 3 })
    );
}

#[test]
fn comment_position_counts_what_was_removed_before_it() {
    assert_eq!(
        sanitise_code("// first line\n\n  /* open"),
        Err(BfError::UnterminatedComment { position: 17 })
    );
}

#[test]
fn stray_close_marker_is_reported_where_it_stands() {
    assert_eq!(
        sanitise_code("+ */ -"),
        Err(BfError::StrayCommentClose { position: 2 })
    );
}

#[test]
fn open_marker_is_reported_before_a_close_marker() {
    assert_eq!(
        sanitise_code("*/ /*"),
        Err(BfError::UnterminatedComment { position: 3 })
    );
}

#[test]
fn marker_may_be_split_by_whitespace() {
    assert_eq!(
        sanitise_code("+ / * -"),
        Err(BfError::UnterminatedComment { position: 2 })
    );
}

#[test]
fn marker_may_form_around_a_removed_comment() {
    assert_eq!(
        sanitise_code("/ /*x*/ *"),
        Err(BfError::UnterminatedComment { position: 0 })
    );
}

#[test]
fn line_comment_may_take_the_end_of_a_block_comment() {
    assert_eq!(
        sanitise_code("/**///x\n+"),
        Err(BfError::UnterminatedComment { position: 0 })
    );
}

#[test]
fn unterminated_loop_is_reported_at_the_first_entry() {
    assert_eq!(
        sanitise_code("+[[-]"),
        Err(BfError::UnterminatedLoop { position: 1 })
    );
}

#[test]
fn first_entry_is_looked_for_in_the_source_as_written() {
    assert_eq!(
        sanitise_code("// [\n[+"),
        Err(BfError::UnterminatedLoop { position: 3 })
    );
}

#[test]
fn unmatched_loop_exit_is_reported_at_the_last_exit() {
    assert_eq!(
        sanitise_code("+]-] +"),
        Err(BfError::UnmatchedLoopExit { position: 3 })
    );
}

#[test]
fn loop_faults_are_syntax_errors() {
    let too_many_entries = sanitise_code("[[]").unwrap_err();
    let too_many_exits = sanitise_code("[]]").unwrap_err();
    assert_eq!(too_many_entries.kind(), ErrorKind::SyntaxError);
    assert_eq!(too_many_exits.kind(), ErrorKind::SyntaxError);
    assert_eq!(too_many_entries.position(), Some(0));
    assert_eq!(too_many_exits.position(), Some(2));
}

#[test]
fn comment_faults_come_before_loop_faults() {
    assert_eq!(
        sanitise_code("[ */"),
        Err(BfError::StrayCommentClose { position: 2 })
    );
}

#[test]
fn equal_counts_pass_whatever_the_order() {
    assert_eq!(sanitise_code("]["), Ok(String::from("][")));
    assert_eq!(sanitise_code("]+[[-]"), Ok(String::from("]+[[-]")));
}

#[test]
fn positions_count_characters() {
    assert_eq!(
        sanitise_code("\u{e9}\u{e9}]"),
        Err(BfError::UnmatchedLoopExit { position: 2 })
    );
}

#[test]
fn source_as_written_has_each_character_at_its_place() {
    let written = Traced::of_source("+ -");
    assert_eq!(written.text, vec!['+', ' ', '-']);
    assert_eq!(written.origin, vec![0, 1, 2]);
}

#[test]
fn line_pass_keeps_the_line_feed() {
    let rest = Traced::of_source("+//x\n-").without_line_comments();
    assert_eq!(rest.text, vec!['+', '\n', '-']);
    assert_eq!(rest.origin, vec![0, 4, 5]);
}

#[test]
fn whitespace_pass_keeps_the_origins() {
    let rest = Traced::of_source(" +\t\n-\r.").without_whitespace();
    assert_eq!(rest.text, vec!['+', '-', '.']);
    assert_eq!(rest.origin, vec![1, 4, 6]);
}

#[test]
fn block_pass_keeps_the_origins() {
    let rest = Traced::of_source("+/*a*/-/*b").without_block_comments();
    assert_eq!(rest.text, vec!['+', '-', '/', '*', 'b']);
    assert_eq!(rest.origin, vec![0, 6, 7, 8, 9]);
}

#[test]
fn passes_follow_each_other() {
    let rest = Traced::strip("+ // one\n /* two */ - ");
    assert_eq!(rest.text, vec!['+', '-']);
    assert_eq!(rest.origin, vec![0, 20]);
}

#[test]
fn structure_check_accepts_balanced_rest() {
    let source: Vec<char> = "[ + ]".chars().collect();
    let rest = Traced::strip("[ + ]");
    assert_eq!(check_structure(&source, &rest), Ok(()));
}

#[test]
fn structure_check_reports_the_first_fault() {
    let source: Vec<char> = "] /* [".chars().collect();
    let rest = Traced::strip("] /* [");
    assert_eq!(
        check_structure(&source, &rest),
        Err(BfError::UnterminatedComment { position: 2 })
    );
}

#[test]
fn passes_agree_with_the_patterns_of_the_grammar() {
    let sources = [
        "",
        "+-<>[],.",
        " + [ - >\n\t+ <\r\n ]  ",
        "+ // one\n- // two\n. // three",
        "+//\n-",
        "+// one\r- two\n.",
        "+/* note */-/* [ ] */.",
        "+/* one\n   two */-",
        "/*/",
        "/**/",
        "/***/",
        "/*/*/",
        "++ /* oops",
        "+ */ -",
        "*/ /*",
        "+ / * -",
        "/ /*x*/ *",
        "/**///x\n+",
        "a /* b // c */ d\n e */ f",
        "/* a // b \n c */ +",
        "// /* \n */",
        "/ / not a comment\n+",
        "\u{e9} /* \u{4e2d} */ \u{e9}",
    ];
    let patterns = patterns();
    for source in sources {
        assert_eq!(text_of(&Traced::strip(source)), by_patterns(&patterns, source));
    }
}

#[test]
fn whitespace_pass_agrees_with_its_pattern() {
    let whitespace = Regex::new(r"\n|\r| |\t").unwrap();
    let sources = ["", " ", "\t+\n", "a b\tc\nd\re", "\u{a0}+\u{b}-\u{c}", "+ /* */ -"];
    for source in sources {
        let rest = Traced::of_source(source).without_whitespace();
        assert_eq!(text_of(&rest), whitespace.replace_all(source, "").into_owned());
    }
}

#[test]
fn passes_agree_with_the_patterns_on_many_sources() {
    let alphabet = ['/', '*', ' ', '\n', '\r', '+', '[', ']', 'a'];
    let patterns = patterns();
    let mut seed: u64 = 0x2545_f491_4f6c_dd1d;
    for _ in 0..3_000 {
        let mut source = String::new();
        seed = seed.wrapping_mul(6364136223846793005).wrapping_add(1442695040888963407);
        let length = (seed >> 33) % 14;
        for _ in 0..length {
            seed = seed.wrapping_mul(6364136223846793005).wrapping_add(1442695040888963407);
            source.push(alphabet[((seed >> 33) % 9) as usize]);
        }
        let rest = Traced::strip(&source);
        assert_eq!(text_of(&rest), by_patterns(&patterns, &source), "source {:?}", source);
        let written: Vec<char> = source.chars().collect();
        assert_eq!(rest.text.len(), rest.origin.len());
        for (character, origin) in rest.text.iter().zip(rest.origin.iter()) {
            assert_eq!(written[*origin], *character, "source {:?}", source);
        }
    }
}
