use faye::editor::{complete, typed, Typed};
use faye::highlighter::{classes, Class};
use faye::host::Host;
use faye::lexer::Symbol;

fn names(list: &[&str]) -> Vec<Symbol> {
    list.iter().map(|n| Symbol::from(n)).collect()
}

fn completed(buffer: &str, cursor: usize, list: &[&str]) -> Option<(usize, usize, Vec<String>)> {
    complete(buffer, cursor, &names(list)).map(|c| (c.start, c.end, c.results))
}

#[test]
fn typing_brackets() {
    let plain = Typed { insert: true, close: None };
    assert_eq!(typed(None, 'a'), plain);
    assert_eq!(typed(Some('b'), 'a'), plain);
    assert_eq!(typed(None, '('), Typed { insert: true, close: Some(')') });
    assert_eq!(typed(Some(' '), '['), Typed { insert: true, close: Some(']') });
    assert_eq!(typed(Some(')'), '('), Typed { insert: true, close: Some(')') });
    assert_eq!(typed(Some('a'), '('), plain);
    assert_eq!(typed(Some(')'), ')'), Typed { insert: false, close: None });
    assert_eq!(typed(Some(']'), ']'), Typed { insert: false, close: None });
    assert_eq!(typed(Some(']'), ')'), plain);
    assert_eq!(typed(None, ')'), plain);
}

#[test]
fn completing_words() {
    let all = ["and", "apple", "chars", "const", "\u{3bb}"];
    assert_eq!(
        completed("(co", 3, &all),
        Some((1, 3, vec!["const".to_string()]))
    );
    assert_eq!(
        completed("(a b", 2, &all),
        Some((1, 2, vec!["and".to_string(), "apple".to_string()]))
    );
    assert_eq!(
        completed("(a b", 1, &all),
        Some((1, 2, vec!["and".to_string(), "apple".to_string()]))
    );
    assert_eq!(completed("(x", 2, &all), Some((1, 2, vec![])));
    assert_eq!(
        completed("(", 1, &all),
        Some((1, 1, all.iter().map(|s| s.to_string()).collect()))
    );
    assert_eq!(
        completed("(\u{3bb}", 3, &all),
        Some((1, 3, vec!["\u{3bb}".to_string()]))
    );
    assert_eq!(completed("", 0, &all), None);
    assert_eq!(completed("  ", 1, &all), None);
    assert_eq!(completed("(a\n  ", 5, &all), None);
    assert_eq!(
        completed("(a\n  c", 6, &all),
        Some((5, 6, vec!["chars".to_string(), "const".to_string()]))
    );
    assert_eq!(
        completed(" an", 1, &all),
        Some((1, 3, vec!["and".to_string()]))
    );
}

struct Whole;

impl Host for Whole {
    fn parse_number(&self, text: &str) -> Option<u64> {
        text.parse::<u32>().ok().map(u64::from)
    }

    fn format_number(&self, number: u64) -> String {
        number.to_string()
    }

    fn sum(&self, numbers: &Vec<u64>) -> u64 {
        numbers.iter().sum()
    }

    fn product(&self, numbers: &Vec<u64>) -> u64 {
        numbers.iter().product()
    }

    fn subtract(&self, a: u64, b: u64) -> u64 {
        a.wrapping_sub(b)
    }

    fn divide(&self, a: u64, b: u64) -> u64 {
        a.checked_div(b).unwrap_or(0)
    }

    fn truncate(&self, number: u64) -> usize {
        number as usize
    }

    fn from_digit(&self, digit: u32) -> u64 {
        u64::from(digit)
    }

    fn print_line(&self, _text: &str) -> bool {
        false
    }
}

#[test]
fn classes_of_pieces() {
    let made: Vec<(String, &str)> = classes("(+ 1 2) x :k \"s\" 'c' nil true 1.5 ; c\n ", &Whole)
        .into_iter()
        .map(|p| (p.text, p.class.name()))
        .collect();
    let expected = [
        ("(", "faye-bracket"),
        ("+", "faye-symbol-call"),
        (" 1", "faye-number"),
        (" 2", "faye-number"),
        (")", "faye-bracket"),
        (" x", "faye-symbol"),
        (" :k", "faye-keyword"),
        (" \"s\"", "faye-string"),
        (" 'c'", "faye-string"),
        (" nil", "faye-nil"),
        (" true", "faye-bool"),
        (" 1.5", "faye-error"),
        (" ; c\n", "faye-comment"),
    ];
    assert_eq!(
        made,
        expected
            .iter()
            .map(|(t, c)| (t.to_string(), *c))
            .collect::<Vec<_>>()
    );
    assert_eq!(Class::Error.name(), "faye-error");
    assert!(classes("  ", &Whole).is_empty());
    let unclosed: Vec<String> = classes("a \"bc", &Whole)
        .into_iter()
        .map(|p| p.text)
        .collect();
    assert_eq!(unclosed, vec!["a", " \""]);
}
