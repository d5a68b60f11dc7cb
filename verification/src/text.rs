//! Text primitives: characters of a string, splitting at separators, and
//! unsigned decimal numerals.
use vstd::prelude::*;

verus! {

/// `String::push` appends one character to the end of the string.
pub assume_specification[ String::push ](s: &mut String, c: char)
    ensures
        final(s)@ == old(s)@.push(c),
;

/// The characters with the Unicode `White_Space` property.
pub open spec fn is_space(c: char) -> bool {
    let u = c as u32;
    ||| 0x09 <= u <= 0x0D
    ||| u == 0x20
    ||| u == 0x85
    ||| u == 0xA0
    ||| u == 0x1680
    ||| 0x2000 <= u <= 0x200A
    ||| u == 0x2028
    ||| u == 0x2029
    ||| u == 0x202F
    ||| u == 0x205F
    ||| u == 0x3000
}

/// Whether `c` is white space.
pub fn is_whitespace(c: char) -> (r: bool)
    ensures
        r == is_space(c),
{
    let u: u32 = c as u32;
    (0x09 <= u && u <= 0x0D) || u == 0x20 || u == 0x85 || u == 0xA0 || u == 0x1680 || (0x2000 <= u
        && u <= 0x200A) || u == 0x2028 || u == 0x2029 || u == 0x202F || u == 0x205F || u == 0x3000
}

/// The views of a sequence of strings.
pub open spec fn texts(v: Seq<String>) -> Seq<Seq<char>> {
    v.map_values(|s: String| s@)
}

/// The characters of `s`, in order.
pub fn to_chars(s: &str) -> (v: Vec<char>)
    ensures
        v@ == s@,
{
    let mut v: Vec<char> = Vec::new();
    for c in it: s.chars()
        invariant
            it.seq() == s@,
            v@ == s@.take(it.index() as int),
    {
        v.push(c);
    }
    v
}

/// The string spelled by `chars[from..to]`.
pub fn to_text(chars: &Vec<char>, from: usize, to: usize) -> (s: String)
    requires
        from <= to <= chars.len(),
    ensures
        s@ == chars@.subrange(from as int, to as int),
{
    let mut s = String::new();
    let mut i: usize = from;
    while i < to
        invariant
            from <= i <= to <= chars.len(),
            s@ == chars@.subrange(from as int, i as int),
        decreases to - i,
    {
        s.push(chars[i]);
        i += 1;
    }
    s
}

/// Whether `chars` spells exactly `word`.
pub fn spells(chars: &Vec<char>, word: &str) -> (r: bool)
    ensures
        r == (chars@ == word@),
{
    let mut i: usize = 0;
    for c in it: word.chars()
        invariant
            it.seq() == word@,
            i == it.index(),
            i <= chars.len(),
            chars@.take(i as int) == word@.take(i as int),
    {
        if i >= chars.len() || chars[i] != c {
            return false;
        }
        i += 1;
    }
    assert(word@.take(word@.len() as int) =~= word@);
    assert(chars@.take(chars@.len() as int) =~= chars@);
    i == chars.len()
}

/// What separates the pieces of a text.
#[derive(Clone, Copy, Debug, PartialEq, Eq, Structural)]
pub enum Separator {
    /// Any white-space character.
    Whitespace,
    /// The comma between two fields of a line.
    Comma,
    /// The line feed that ends a line.
    LineFeed,
}

impl Separator {
    /// Whether `c` is a separator of this kind.
    pub open spec fn matches(self, c: char) -> bool {
        match self {
            Separator::Whitespace => is_space(c),
            Separator::Comma => c == ',',
            Separator::LineFeed => c == '\n',
        }
    }

    /// Tests whether `c` is a separator of this kind.
    pub fn test(&self, c: char) -> (r: bool)
        ensures
            r == self.matches(c),
    {
        match self {
            Separator::Whitespace => is_whitespace(c),
            Separator::Comma => c == ',',
            Separator::LineFeed => c == '\n',
        }
    }
}

/// The pieces of `text` between separators, empty pieces included: reading
/// from the left, a separator closes the current piece and opens an empty
/// one, and any other character extends the current piece. A text with `k`
/// separators has `k + 1` pieces.
pub open spec fn split(text: Seq<char>, by: Separator) -> Seq<Seq<char>>
    decreases text.len(),
{
    if text.len() == 0 {
        seq![Seq::empty()]
    } else {
        let before = split(text.drop_last(), by);
        if by.matches(text.last()) {
            before.push(Seq::empty())
        } else {
            before.drop_last().push(before.last().push(text.last()))
        }
    }
}

/// A text always has at least one piece.
pub proof fn lemma_split_nonempty(text: Seq<char>, by: Separator)
    ensures
        split(text, by).len() >= 1,
{
}

/// No piece of a text holds a separator.
pub proof fn law_pieces_hold_no_separator(text: Seq<char>, by: Separator)
    ensures
        forall|i: int, j: int|
            0 <= i < split(text, by).len() && 0 <= j < split(text, by)[i].len() ==> !by.matches(
                #[trigger] split(text, by)[i][j],
            ),
    decreases text.len(),
{
    if text.len() > 0 {
        law_pieces_hold_no_separator(text.drop_last(), by);
        lemma_split_nonempty(text.drop_last(), by);
    }
}

/// Splits `text` at every separator.
pub fn split_text(text: &str, by: Separator) -> (pieces: Vec<String>)
    ensures
        texts(pieces@) == split(text@, by),
{
    let mut pieces: Vec<String> = Vec::new();
    let mut current = String::new();
    for c in it: text.chars()
        invariant
            it.seq() == text@,
            texts(pieces@).push(current@) == split(text@.take(it.index() as int), by),
    {
        let ghost read = text@.take(it.index() as int);
        let ghost next = text@.take(it.index() + 1);
        assert(next.drop_last() =~= read);
        if by.test(c) {
            pieces.push(current);
            current = String::new();
        } else {
            current.push(c);
        }
    }
    assert(text@.take(text@.len() as int) =~= text@);
    pieces.push(current);
    pieces
}

/// The test for a piece that holds at least one character.
pub open spec fn filled() -> spec_fn(Seq<char>) -> bool {
    |piece: Seq<char>| piece.len() > 0
}

/// The words of `text`: its pieces between white space, without the empty ones.
pub open spec fn words(text: Seq<char>) -> Seq<Seq<char>> {
    split(text, Separator::Whitespace).filter(filled())
}

/// A line without the carriage return that may stand before its line feed.
pub open spec fn strip_return(line: Seq<char>) -> Seq<char> {
    if line.len() > 0 && line.last() == '\r' {
        line.drop_last()
    } else {
        line
    }
}

/// The lines of `text`. A line ends at a line feed, or at a carriage return
/// directly followed by a line feed; the end of the text ends the last line
/// too, so a line feed at the very end opens no further line.
pub open spec fn lines(text: Seq<char>) -> Seq<Seq<char>> {
    let pieces = split(text, Separator::LineFeed);
    let ended = pieces.drop_last().map_values(|l: Seq<char>| strip_return(l));
    if pieces.last().len() == 0 {
        ended
    } else {
        ended.push(pieces.last())
    }
}

/// Splits `text` into its lines.
pub fn split_lines(text: &str) -> (r: Vec<String>)
    ensures
        texts(r@) == lines(text@),
{
    let chars = to_chars(text);
    let mut r: Vec<String> = Vec::new();
    let mut start: usize = 0;
    let mut i: usize = 0;
    while i < chars.len()
        invariant
            chars@ == text@,
            start <= i <= chars.len(),
            texts(r@) == split(chars@.take(i as int), Separator::LineFeed).drop_last().map_values(
                |l: Seq<char>| strip_return(l),
            ),
            chars@.subrange(start as int, i as int) == split(
                chars@.take(i as int),
                Separator::LineFeed,
            ).last(),
        decreases chars.len() - i,
    {
        let ghost read = chars@.take(i as int);
        let ghost next = chars@.take(i + 1);
        assert(next.drop_last() =~= read);
        if chars[i] == '\n' {
            let mut end: usize = i;
            if end > start && chars[end - 1] == '\r' {
                end = end - 1;
            }
            let ghost before = r@;
            let line = to_text(&chars, start, end);
            assert(line@ =~= strip_return(chars@.subrange(start as int, i as int)));
            r.push(line);
            assert(texts(r@) =~= texts(before).push(line@));
            start = i + 1;
        }
        i += 1;
    }
    assert(chars@.take(chars@.len() as int) =~= chars@);
    if start < chars.len() {
        let line = to_text(&chars, start, chars.len());
        r.push(line);
    }
    r
}

/// The pieces written one after the other, with `sep` between neighbours.
pub open spec fn join(pieces: Seq<Seq<char>>, sep: char) -> Seq<char>
    decreases pieces.len(),
{
    if pieces.len() == 0 {
        Seq::empty()
    } else if pieces.len() == 1 {
        pieces[0]
    } else {
        join(pieces.drop_last(), sep).push(sep) + pieces.last()
    }
}

/// Joining the fields of a line with commas gives the line back.
pub proof fn law_join_undoes_split(line: Seq<char>)
    ensures
        join(split(line, Separator::Comma), ',') == line,
    decreases line.len(),
{
    if line.len() > 0 {
        let shorter = line.drop_last();
        let before = split(shorter, Separator::Comma);
        law_join_undoes_split(shorter);
        if line.last() == ',' {
            assert(before.push(Seq::empty()).drop_last() =~= before);
        } else {
            let grown = before.drop_last().push(before.last().push(line.last()));
            assert(grown.drop_last() =~= before.drop_last());
        }
        assert(shorter.push(line.last()) =~= line);
    }
}

/// Every word of a text holds at least one character, and none that is
/// white space.
pub proof fn law_words_are_filled(text: Seq<char>)
    ensures
        forall|i: int| 0 <= i < words(text).len() ==> (#[trigger] words(text)[i]).len() > 0,
        forall|i: int, j: int|
            0 <= i < words(text).len() && 0 <= j < words(text)[i].len() ==> !is_space(
                #[trigger] words(text)[i][j],
            ),
{
    let pieces = split(text, Separator::Whitespace);
    law_pieces_hold_no_separator(text, Separator::Whitespace);
    assert forall|i: int| 0 <= i < words(text).len() implies (#[trigger] words(text)[i]).len() > 0
        && forall|j: int| 0 <= j < words(text)[i].len() ==> !is_space(#[trigger] words(text)[i][j]) by {
        let word = words(text)[i];
        pieces.lemma_filter_pred(filled(), i);
        pieces.lemma_filter_contains_rev(filled(), word);
    }
}

/// Joins `pieces` with `sep` between neighbours.
pub fn join_texts(pieces: &Vec<String>, sep: char) -> (r: String)
    ensures
        r@ == join(texts(pieces@), sep),
{
    let mut r = String::new();
    let mut i: usize = 0;
    while i < pieces.len()
        invariant
            i <= pieces.len(),
            r@ == join(texts(pieces@).take(i as int), sep),
        decreases pieces.len() - i,
    {
        let ghost done = texts(pieces@).take(i as int);
        let ghost grown = texts(pieces@).take(i + 1);
        assert(grown.drop_last() =~= done);
        if i > 0 {
            r.push(sep);
        }
        r.append(pieces[i].as_str());
        i += 1;
    }
    assert(texts(pieces@).take(pieces@.len() as int) =~= texts(pieces@));
    r
}

/// Whether `c` is one of the digits `0` to `9`.
pub open spec fn is_digit(c: char) -> bool {
    '0' <= c <= '9'
}

/// The number that a digit writes.
pub open spec fn digit_value(c: char) -> nat {
    (c as u32 - '0' as u32) as nat
}

/// The number that a run of decimal digits writes.
pub open spec fn digits_value(digits: Seq<char>) -> nat
    decreases digits.len(),
{
    if digits.len() == 0 {
        0
    } else {
        10 * digits_value(digits.drop_last()) + digit_value(digits.last())
    }
}

/// The digits of an unsigned numeral: the text itself, or what follows its
/// one leading `+`.
pub open spec fn numeral_digits(text: Seq<char>) -> Seq<char> {
    if text.len() > 1 && text[0] == '+' {
        text.skip(1)
    } else {
        text
    }
}

/// The number that `text` writes as an unsigned decimal numeral: one or more
/// digits, after at most one `+`. No other text is a numeral.
pub open spec fn numeral(text: Seq<char>) -> Option<nat> {
    let digits = numeral_digits(text);
    if digits.len() > 0 && (forall|i: int| 0 <= i < digits.len() ==> is_digit(#[trigger] digits[i])) {
        Some(digits_value(digits))
    } else {
        None
    }
}

/// A numeral is worth at least what any of its prefixes is worth.
pub proof fn lemma_digits_value_grows(digits: Seq<char>, k: int)
    requires
        0 <= k <= digits.len(),
    ensures
        digits_value(digits.take(k)) <= digits_value(digits),
    decreases digits.len() - k,
{
    if k < digits.len() {
        lemma_digits_value_grows(digits, k + 1);
        assert(digits.take(k + 1).drop_last() =~= digits.take(k));
    } else {
        assert(digits.take(k) =~= digits);
    }
}

/// Reads `chars[from..]` as an unsigned decimal numeral that fits a `usize`.
pub fn parse_numeral(chars: &Vec<char>, from: usize) -> (r: Option<usize>)
    requires
        from <= chars.len(),
    ensures
        r == match numeral(chars@.skip(from as int)) {
            Some(n) if n <= usize::MAX => Some(n as usize),
            _ => None::<usize>,
        },
{
    let ghost text = chars@.skip(from as int);
    let mut i: usize = from;
    if chars.len() - from > 1 && chars[from] == '+' {
        i = from + 1;
    }
    let first: usize = i;
    let ghost digits = numeral_digits(text);
    if i == chars.len() {
        return None;
    }
    let mut value: usize = 0;
    while i < chars.len()
        invariant
            first <= i <= chars.len(),
            digits == chars@.skip(first as int),
            digits == numeral_digits(chars@.skip(from as int)),
            forall|j: int| 0 <= j < i - first ==> is_digit(#[trigger] digits[j]),
            value == digits_value(digits.take(i - first)),
        decreases chars.len() - i,
    {
        let c = chars[i];
        if c < '0' || c > '9' {
            assert(!is_digit(digits[i - first]));
            return None;
        }
        let d: usize = (c as u32 - '0' as u32) as usize;
        assert(digits.take(i - first + 1).drop_last() =~= digits.take(i - first));
        if value > (usize::MAX - d) / 10 {
            proof {
                lemma_digits_value_grows(digits, i - first + 1);
            }
            return None;
        }
        value = 10 * value + d;
        i += 1;
    }
    assert(digits.take(digits.len() as int) =~= digits);
    Some(value)
}

} // verus!
