use echcell::text::is_whitespace;
use echcell::text::join_texts;
use echcell::text::parse_numeral;
use echcell::text::spells;
use echcell::text::split_lines;
use echcell::text::split_text;
use echcell::text::to_chars;
use echcell::text::to_text;
use echcell::text::Separator;

fn strings(items: &[&str]) -> Vec<String> {
    items.iter().map(|s| s.to_string()).collect()
}

fn numeral(text: &str) -> Option<usize> {
    parse_numeral(&to_chars(text), 0)
}

#[test]
fn whitespace_is_what_the_standard_library_calls_whitespace() {
    for code in 0u32..=0x10FFFF {
        if let Some(c) = char::from_u32(code) {
            assert_eq!(is_whitespace(c), c.is_whitespace(), "U+{:04X}", code);
        }
    }
}

#[test]
fn to_chars_lists_the_characters_in_order() {
    assert_eq!(to_chars("aé1"), vec!['a', 'é', '1']);
    assert_eq!(to_chars(""), Vec::<char>::new());
}

#[test]
fn to_text_spells_a_part_of_the_characters() {
    let chars = to_chars("=é SUM");
    assert_eq!(to_text(&chars, 2, 6), " SUM");
    assert_eq!(to_text(&chars, 1, 2), "é");
    assert_eq!(to_text(&chars, 3, 3), "");
}

#[test]
fn spells_compares_whole_words() {
    assert!(spells(&to_chars("SUM"), "SUM"));
    assert!(!spells(&to_chars("SUM"), "SU"));
    assert!(!spells(&to_chars("SU"), "SUM"));
    assert!(!spells(&to_chars("sum"), "SUM"));
    assert!(spells(&to_chars(""), ""));
}

#[test]
fn split_keeps_empty_pieces() {
    assert_eq!(split_text("a,,b,", Separator::Comma), strings(&["a", "", "b", ""]));
    assert_eq!(split_text("", Separator::Comma), strings(&[""]));
    assert_eq!(split_text(",", Separator::Comma), strings(&["", ""]));
    assert_eq!(split_text("abc", Separator::Comma), strings(&["abc"]));
}

#[test]
fn split_at_commas_agrees_with_the_standard_library() {
    for text in ["", "a", "a,b", ",a,,b,", "1, 2 ,3", ",,,", "é,ü"] {
        let expected: Vec<String> = text.split(',').map(String::from).collect();
        assert_eq!(split_text(text, Separator::Comma), expected, "{:?}", text);
    }
}

#[test]
fn split_at_whitespace_without_empty_pieces_gives_the_words() {
    for text in ["", "  ", "SUM A1 A2", "  CALC\t3 +\u{a0}4  ", "a\u{3000}b\nc", "one"] {
        let words: Vec<String> = split_text(text, Separator::Whitespace)
            .into_iter()
            .filter(|w| !w.is_empty())
            .collect();
        let expected: Vec<String> = text.split_whitespace().map(String::from).collect();
        assert_eq!(words, expected, "{:?}", text);
    }
}

#[test]
fn lines_end_at_line_feeds() {
    assert_eq!(split_lines("A,B\n1,2\n"), strings(&["A,B", "1,2"]));
    assert_eq!(split_lines("A,B\n1,2"), strings(&["A,B", "1,2"]));
    assert_eq!(split_lines(""), Vec::<String>::new());
    assert_eq!(split_lines("\n"), strings(&[""]));
    assert_eq!(split_lines("a\n\nb"), strings(&["a", "", "b"]));
}

#[test]
fn lines_drop_a_carriage_return_before_a_line_feed_only() {
    assert_eq!(split_lines("a\r\nb\r\n"), strings(&["a", "b"]));
    assert_eq!(split_lines("a\rb\nc"), strings(&["a\rb", "c"]));
    assert_eq!(split_lines("a\r\r\nb"), strings(&["a\r", "b"]));
    assert_eq!(split_lines("\r\n"), strings(&[""]));
}

#[test]
fn lines_agree_with_the_standard_library() {
    for text in [
        "",
        "\n",
        "\n\n",
        "a",
        "a\n",
        "a\nb",
        "a\r\nb\r\n",
        "\r\n\r\n",
        "a\rb\n",
        "x\r\r\n",
        "A,B\n1,2\n3,4",
        "é\nü\n",
    ] {
        let expected: Vec<String> = text.lines().map(String::from).collect();
        assert_eq!(split_lines(text), expected, "{:?}", text);
    }
}

#[test]
fn join_puts_the_separator_between_neighbours() {
    assert_eq!(join_texts(&strings(&["a", "b", "c"]), ','), "a,b,c");
    assert_eq!(join_texts(&strings(&["a"]), ','), "a");
    assert_eq!(join_texts(&strings(&[]), ','), "");
    assert_eq!(join_texts(&strings(&["", ""]), ','), ",");
}

#[test]
fn join_undoes_split() {
    for text in ["", "a", "a,b", ",a,,b,", ",,,"] {
        assert_eq!(join_texts(&split_text(text, Separator::Comma), ','), text);
    }
}

#[test]
fn numerals_are_digits_after_at_most_one_plus() {
    assert_eq!(numeral("0"), Some(0));
    assert_eq!(numeral("7"), Some(7));
    assert_eq!(numeral("007"), Some(7));
    assert_eq!(numeral("12345"), Some(12345));
    assert_eq!(numeral("+5"), Some(5));
    assert_eq!(numeral(""), None);
    assert_eq!(numeral("+"), None);
    assert_eq!(numeral("++5"), None);
    assert_eq!(numeral("-5"), None);
    assert_eq!(numeral("5 "), None);
    assert_eq!(numeral(" 5"), None);
    assert_eq!(numeral("1a"), None);
    assert_eq!(numeral("1.0"), None);
    assert_eq!(numeral("٣"), None);
}

#[test]
fn numerals_that_do_not_fit_are_none() {
    let max = usize::MAX.to_string();
    assert_eq!(numeral(&max), Some(usize::MAX));
    let mut over = max.clone();
    over.push('0');
    assert_eq!(numeral(&over), None);
    assert_eq!(numeral("99999999999999999999999999999999999999999"), None);
    assert_eq!(numeral("18446744073709551616"), "18446744073709551616".parse::<usize>().ok());
}

#[test]
fn numerals_agree_with_the_standard_library() {
    for text in ["", "0", "1", "+1", "-1", "+", "00", "12x", "x12", "4294967296", "1_000", "１"] {
        assert_eq!(numeral(text), text.parse::<usize>().ok(), "{:?}", text);
    }
}

#[test]
fn numerals_start_where_they_are_told() {
    assert_eq!(parse_numeral(&to_chars("A12"), 1), Some(12));
    assert_eq!(parse_numeral(&to_chars("A"), 1), None);
    assert_eq!(parse_numeral(&to_chars("AB3"), 1), None);
}

/// A small deterministic generator of test texts.
struct Texts {
    state: u64,
}

impl Texts {
    fn next(&mut self) -> u64 {
        self.state = self.state.wrapping_mul(6364136223846793005).wrapping_add(1442695040888963407);
        self.state >> 33
    }

    fn text(&mut self, alphabet: &[char]) -> String {
        let len = (self.next() % 12) as usize;
        (0..len).map(|_| alphabet[(self.next() % alphabet.len() as u64) as usize]).collect()
    }
}

#[test]
fn splitting_agrees_with_the_standard_library_on_many_texts() {
    let alphabet = ['a', 'B', '1', ',', ' ', '\t', '\n', '\r', '+', 'é', '\u{a0}', '\u{2003}'];
    let mut texts = Texts { state: 7 };
    for _ in 0..20000 {
        let text = texts.text(&alphabet);
        let fields: Vec<String> = text.split(',').map(String::from).collect();
        assert_eq!(split_text(&text, Separator::Comma), fields, "{:?}", text);
        let lines: Vec<String> = text.lines().map(String::from).collect();
        assert_eq!(split_lines(&text), lines, "{:?}", text);
        let words: Vec<String> = text.split_whitespace().map(String::from).collect();
        let pieces: Vec<String> = split_text(&text, Separator::Whitespace)
            .into_iter()
            .filter(|w| !w.is_empty())
            .collect();
        assert_eq!(pieces, words, "{:?}", text);
        assert_eq!(join_texts(&fields, ','), text);
    }
}

#[test]
fn numerals_agree_with_the_standard_library_on_many_texts() {
    let alphabet = ['0', '1', '9', '+', '-', ' ', 'x', '7'];
    let mut texts = Texts { state: 11 };
    for _ in 0..20000 {
        let text = texts.text(&alphabet);
        assert_eq!(numeral(&text), text.parse::<usize>().ok(), "{:?}", text);
    }
}
