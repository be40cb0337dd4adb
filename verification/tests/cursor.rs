use miniscript::cursor::Cursor;
use miniscript::keywords::{function_keyword, is_declaration_keyword, is_undefined_keyword};
use miniscript::operators::{Operator, OP_ADD, OP_DIV, OP_EQ, OP_MUL, OP_SUB};
use miniscript::scan::Class;
use miniscript::stop::Stop;
use miniscript::table::Table;
use miniscript::text::{append_text, copy_text, is_alpha, is_alphanum, is_digit, same_text};

fn chars(text: &str) -> Vec<char> {
    text.chars().collect()
}

fn cursor(text: &str) -> Cursor {
    Cursor::new(chars(text))
}

#[test]
fn peek_does_not_move() {
    let c = cursor("ab");
    assert_eq!(c.peek(), Some('a'));
    assert_eq!(c.peek(), Some('a'));
    assert_eq!(c.position(), 0);
    assert_eq!(c.len(), 2);
    assert!(!c.at_end());
}

#[test]
fn advance_returns_the_committed_character() {
    let mut c = cursor("ab");
    assert_eq!(c.advance(), Some('a'));
    assert_eq!(c.position(), 1);
    assert_eq!(c.peek(), Some('b'));
    assert_eq!(c.advance(), Some('b'));
    assert_eq!(c.position(), 2);
    assert!(c.at_end());
    assert_eq!(c.peek(), None);
    assert_eq!(c.advance(), None);
    assert_eq!(c.position(), 2);
}

#[test]
fn an_empty_buffer_is_at_its_end() {
    let mut c = cursor("");
    assert!(c.at_end());
    assert_eq!(c.peek(), None);
    assert_eq!(c.advance(), None);
    assert_eq!(c.take(Class::Word), chars(""));
    c.skip_spaces();
    assert!(!c.found_in_line('='));
    assert!(c.line_contains(&chars("")));
    assert!(!c.line_contains(&chars("a")));
    assert_eq!(c.position(), 0);
}

#[test]
fn expect_takes_the_character_or_fails() {
    let mut c = cursor("(x");
    assert_eq!(c.expect('('), Ok(()));
    assert_eq!(c.position(), 1);
    assert_eq!(c.expect(')'), Err(Stop::SyntaxError { expected: ')', found: Some('x') }));
    assert_eq!(c.position(), 2);
    assert_eq!(c.expect(';'), Err(Stop::SyntaxError { expected: ';', found: None }));
    assert_eq!(c.position(), 2);
}

#[test]
fn checks_look_at_the_next_character() {
    let c = cursor("+1");
    assert!(c.check_ahead('+'));
    assert!(!c.check_ahead('-'));
    assert!(c.check_any_ahead(&['-', '+']));
    assert!(!c.check_any_ahead(&['*', '/']));
    assert!(!c.check_any_ahead(&[]));
    let end = cursor("");
    assert!(!end.check_ahead('+'));
    assert!(!end.check_any_ahead(&['+']));
}

#[test]
fn skip_spaces_takes_spaces_only() {
    let mut c = cursor("   \t x");
    c.skip_spaces();
    assert_eq!(c.position(), 3);
    assert_eq!(c.peek(), Some('\t'));
    c.skip_spaces();
    assert_eq!(c.position(), 3);
    let mut lines = cursor(" \n x");
    lines.skip_spaces();
    assert_eq!(lines.peek(), Some('\n'));
    let mut all = cursor("    ");
    all.skip_spaces();
    assert!(all.at_end());
}

#[test]
fn take_reads_the_longest_run() {
    let mut c = cursor("123abc \"q\" }");
    assert_eq!(c.take(Class::Digit), chars("123"));
    assert_eq!(c.position(), 3);
    assert_eq!(c.take(Class::Digit), chars(""));
    assert_eq!(c.take(Class::Word), chars("abc"));
    assert_eq!(c.take(Class::Space), chars(" "));
    assert_eq!(c.take(Class::Quoted), chars(""));
    assert_eq!(c.advance(), Some('"'));
    assert_eq!(c.take(Class::Quoted), chars("q"));
    assert_eq!(c.advance(), Some('"'));
    assert_eq!(c.take(Class::Body), chars(" "));
    assert_eq!(c.peek(), Some('}'));
    let mut words = cursor("abc123");
    assert_eq!(words.take(Class::Word), chars("abc123"));
    assert!(words.at_end());
    let mut line = cursor("a b;c\nd");
    assert_eq!(line.take(Class::Line), chars("a b"));
    assert_eq!(line.advance(), Some(';'));
    assert_eq!(line.take(Class::Line), chars("c"));
}

#[test]
fn classes_hold_their_characters() {
    assert!(Class::Space.holds(' '));
    assert!(!Class::Space.holds('\t'));
    assert!(!Class::Space.holds('\n'));
    assert!(Class::Digit.holds('0'));
    assert!(Class::Digit.holds('9'));
    assert!(!Class::Digit.holds('a'));
    assert!(Class::Word.holds('a'));
    assert!(Class::Word.holds('7'));
    assert!(!Class::Word.holds('_'));
    assert!(Class::Quoted.holds('\''));
    assert!(!Class::Quoted.holds('"'));
    assert!(Class::Body.holds('{'));
    assert!(!Class::Body.holds('}'));
    assert!(Class::Line.holds(' '));
    assert!(!Class::Line.holds(';'));
    assert!(!Class::Line.holds('\n'));
}

#[test]
fn a_line_is_scanned_to_its_terminator() {
    let mut c = cursor("a = 1; b");
    assert!(c.found_in_line('='));
    assert!(c.found_in_line('1'));
    assert!(!c.found_in_line('b'));
    assert!(!c.found_in_line(';'));
    assert_eq!(c.position(), 0);
    assert_eq!(c.peek(), Some('a'));
    let mut lines = cursor("a\nb = 1");
    assert!(!lines.found_in_line('='));
    assert_eq!(lines.advance(), Some('a'));
    assert!(!lines.found_in_line('='));
    assert_eq!(lines.advance(), Some('\n'));
    assert!(lines.found_in_line('='));
    assert_eq!(lines.position(), 2);
    let mut open = cursor("abc");
    assert!(open.found_in_line('c'));
    assert!(!open.found_in_line('d'));
}

#[test]
fn a_word_is_looked_for_in_the_line() {
    let mut c = cursor("  function f() {\nfunction");
    assert!(c.line_contains(&chars("function")));
    assert!(c.line_contains(&chars("f() {")));
    assert!(c.line_contains(&chars("")));
    assert!(!c.line_contains(&chars("functions")));
    assert!(!c.line_contains(&chars("{\n")));
    assert_eq!(c.position(), 0);
    let mut short = cursor("func;tion");
    assert!(!short.line_contains(&chars("function")));
    assert!(short.line_contains(&chars("func")));
    assert!(!short.line_contains(&chars("tion")));
    let mut exact = cursor("function");
    assert!(exact.line_contains(&chars("function")));
    assert!(exact.line_contains(&chars("n")));
    assert!(!exact.line_contains(&chars("functionn")));
}

#[test]
fn reset_settles_the_cursor() {
    let mut c = cursor("ab");
    assert_eq!(c.advance(), Some('a'));
    c.reset();
    assert_eq!(c.position(), 1);
    assert_eq!(c.peek(), Some('b'));
}

#[test]
fn characters_are_classified() {
    assert!(is_digit('0'));
    assert!(is_digit('5'));
    assert!(is_digit('9'));
    assert!(!is_digit('/'));
    assert!(!is_digit(':'));
    assert!(!is_digit('a'));
    assert!(!is_digit('٣'));
    assert!(is_alpha('a'));
    assert!(is_alpha('Z'));
    assert!(is_alpha('é'));
    assert!(is_alpha('京'));
    assert!(!is_alpha('1'));
    assert!(!is_alpha(' '));
    assert!(!is_alpha('_'));
    assert!(!is_alpha('💝'));
    assert!(is_alphanum('a'));
    assert!(is_alphanum('1'));
    assert!(!is_alphanum('-'));
}

#[test]
fn texts_are_copied_compared_and_joined() {
    let a = chars("abc");
    assert_eq!(copy_text(&a), a);
    assert!(same_text(&a, &chars("abc")));
    assert!(!same_text(&a, &chars("abd")));
    assert!(!same_text(&a, &chars("ab")));
    assert!(!same_text(&a, &chars("abcd")));
    assert!(same_text(&chars(""), &chars("")));
    let mut head = chars("ab");
    append_text(&mut head, &chars("cd"));
    assert_eq!(head, chars("abcd"));
    append_text(&mut head, &chars(""));
    assert_eq!(head, chars("abcd"));
}

#[test]
fn keywords_are_recognised() {
    assert!(is_declaration_keyword(&chars("var")));
    assert!(is_declaration_keyword(&chars("let")));
    assert!(is_declaration_keyword(&chars("const")));
    assert!(!is_declaration_keyword(&chars("Var")));
    assert!(!is_declaration_keyword(&chars("vat")));
    assert!(!is_declaration_keyword(&chars("lets")));
    assert!(!is_declaration_keyword(&chars("cons")));
    assert!(!is_declaration_keyword(&chars("conzt")));
    assert!(!is_declaration_keyword(&chars("")));
    assert!(!is_declaration_keyword(&chars("function")));
    assert!(is_undefined_keyword(&chars("undefined")));
    assert!(!is_undefined_keyword(&chars("undefinee")));
    assert!(!is_undefined_keyword(&chars("Undefined")));
    assert!(!is_undefined_keyword(&chars("undefine")));
    assert_eq!(function_keyword(), chars("function"));
}

#[test]
fn operators_are_spelled() {
    assert_eq!(Operator::Add.to_char(), '+');
    assert_eq!(Operator::Sub.to_char(), '-');
    assert_eq!(Operator::Mul.to_char(), '*');
    assert_eq!(Operator::Div.to_char(), '/');
    assert_eq!((OP_ADD, OP_SUB, OP_MUL, OP_DIV, OP_EQ), ('+', '-', '*', '/', '='));
}

#[test]
fn a_table_binds_and_overwrites() {
    let mut table: Table<u32> = Table::new();
    assert_eq!(table.get(&chars("a")), None);
    table.insert(chars("a"), 1);
    table.insert(chars("b"), 2);
    assert_eq!(table.get(&chars("a")), Some(&1));
    assert_eq!(table.get(&chars("b")), Some(&2));
    assert_eq!(table.get(&chars("c")), None);
    table.insert(chars("a"), 3);
    assert_eq!(table.get(&chars("a")), Some(&3));
    assert_eq!(table.get(&chars("b")), Some(&2));
    table.insert(chars(""), 4);
    assert_eq!(table.get(&chars("")), Some(&4));
    assert_eq!(table.get(&chars("ab")), None);
}
