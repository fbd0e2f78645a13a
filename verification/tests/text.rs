use brainfuck::text::{chars_of, string_of};
use brainfuck::{execute_code, sanitise_code, BfError};

#[test]
fn characters_of_a_text_come_in_order() {
    assert_eq!(chars_of(""), Vec::<char>::new());
    assert_eq!(chars_of("+-"), vec!['+', '-']);
    assert_eq!(chars_of("a\u{e9}\u{4e2d}"), vec!['a', '\u{e9}', '\u{4e2d}']);
}

#[test]
fn text_of_characters_holds_them_in_order() {
    assert_eq!(string_of(&Vec::new()), "");
    assert_eq!(string_of(&vec!['+', '-']), "+-");
    assert_eq!(string_of(&vec!['a', '\u{e9}', '\u{4e2d}']), "a\u{e9}\u{4e2d}");
}

#[test]
fn text_survives_the_round_trip() {
    let text = "++[>+<-] \u{e9} // done";
    assert_eq!(string_of(&chars_of(text)), text);
}

#[test]
fn main_items_are_at_the_root() {
    assert_eq!(sanitise_code("+ ."), Ok(String::from("+.")));
    let result = execute_code("<", false, &Vec::new(), 10);
    assert_eq!(result.fault, Some(BfError::LeftBound));
}
