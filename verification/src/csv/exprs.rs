//! Tokens of a formula, and the evaluation of one cell.
use vstd::prelude::*;
use crate::csv::funcs::call_value;
use crate::csv::funcs::func_caller;
use crate::csv::funcs::rest;
use crate::csv::Table;
use crate::csv::CSV;
use crate::number::NumberModel;
use crate::number::Numbers;
use crate::number::Relation;
use crate::text::spells;
use crate::text::split;
use crate::text::split_text;
use crate::text::texts;
use crate::text::filled;
use crate::text::to_chars;
use crate::text::to_text;
use crate::text::words;
use crate::text::Separator;

verus! {

/// The functions that a formula can call.
#[derive(Clone, Copy, Debug, PartialEq, Eq, Structural)]
pub enum Functions {
    Calc,
    Sum,
    Avg,
    If,
}

/// The binary operators of a `CALC` expression.
#[derive(Clone, Copy, Debug, PartialEq, Eq, Structural)]
pub enum BinaryOp {
    Plus,
    Minus,
    Mult,
    Div,
}

impl BinaryOp {
    /// Whether the operator binds tighter than another.
    pub open spec fn outranks(self, other: BinaryOp) -> bool {
        (self is Mult || self is Div) && (other is Plus || other is Minus)
    }

    /// Whether `self` has a strictly higher precedence than `op_cmp`.
    pub fn check_precendece(&self, op_cmp: &Self) -> (r: bool)
        ensures
            r == self.outranks(*op_cmp),
    {
        match (self, op_cmp) {
            (BinaryOp::Plus | BinaryOp::Minus, BinaryOp::Mult | BinaryOp::Div) => false,
            (BinaryOp::Mult | BinaryOp::Div, BinaryOp::Plus | BinaryOp::Minus) => true,
            _ => false,
        }
    }
}

/// The comparison operators of an `IF` condition.
#[derive(Clone, Copy, Debug, PartialEq, Eq, Structural)]
pub enum CmpOp {
    /// `==`
    Eq,
    /// `>`
    Gt,
    /// `<`
    Lt,
    /// `>=`
    Ge,
    /// `<=`
    Le,
}

impl CmpOp {
    /// Whether the comparison holds of two numbers that stand in `relation`.
    /// No comparison holds of unordered numbers.
    pub open spec fn holds(self, relation: Relation) -> bool {
        match self {
            CmpOp::Eq => relation is Equal,
            CmpOp::Gt => relation is Greater,
            CmpOp::Lt => relation is Less,
            CmpOp::Ge => relation is Greater || relation is Equal,
            CmpOp::Le => relation is Less || relation is Equal,
        }
    }

    /// Whether a left and a right number that stand in `relation` are equal.
    pub fn eq(relation: Relation) -> (r: bool)
        ensures
            r == CmpOp::Eq.holds(relation),
    {
        matches!(relation, Relation::Equal)
    }

    /// Whether the left number is greater than the right one.
    pub fn gt(relation: Relation) -> (r: bool)
        ensures
            r == CmpOp::Gt.holds(relation),
    {
        matches!(relation, Relation::Greater)
    }

    /// Whether the left number is smaller than the right one.
    pub fn lt(relation: Relation) -> (r: bool)
        ensures
            r == CmpOp::Lt.holds(relation),
    {
        matches!(relation, Relation::Less)
    }

    /// Whether the left number is greater than or equal to the right one.
    pub fn ge(relation: Relation) -> (r: bool)
        ensures
            r == CmpOp::Ge.holds(relation),
    {
        matches!(relation, Relation::Greater | Relation::Equal)
    }

    /// Whether the left number is smaller than or equal to the right one.
    pub fn le(relation: Relation) -> (r: bool)
        ensures
            r == CmpOp::Le.holds(relation),
    {
        matches!(relation, Relation::Less | Relation::Equal)
    }

    /// Decides the comparison of a left and a right number from how the left
    /// stands to the right.
    pub fn test(&self, relation: Relation) -> (r: bool)
        ensures
            r == self.holds(relation),
    {
        match self {
            CmpOp::Eq => CmpOp::eq(relation),
            CmpOp::Gt => CmpOp::gt(relation),
            CmpOp::Lt => CmpOp::lt(relation),
            CmpOp::Ge => CmpOp::ge(relation),
            CmpOp::Le => CmpOp::le(relation),
        }
    }
}

/// One word of a formula.
#[derive(Debug)]
pub enum Token<N> {
    /// A word that is nothing else: a cell pointer, or plain text.
    Cell(String),
    Number(N),
    Operator(BinaryOp),
    CmpOperator(CmpOp),
    Func(Functions),
    /// The word between the condition of an `IF` and its first branch.
    Then,
    /// The word between the two branches of an `IF`.
    Else,
}

/// A token with its text as a sequence of characters.
pub enum TokenView<N> {
    Cell(Seq<char>),
    Number(N),
    Operator(BinaryOp),
    CmpOperator(CmpOp),
    Func(Functions),
    Then,
    Else,
}

impl<N> View for Token<N> {
    type V = TokenView<N>;

    open spec fn view(&self) -> TokenView<N> {
        match self {
            Token::Cell(text) => TokenView::Cell(text@),
            Token::Number(n) => TokenView::Number(*n),
            Token::Operator(op) => TokenView::Operator(*op),
            Token::CmpOperator(op) => TokenView::CmpOperator(*op),
            Token::Func(f) => TokenView::Func(*f),
            Token::Then => TokenView::Then,
            Token::Else => TokenView::Else,
        }
    }
}

impl<N: Copy> Clone for Token<N> {
    fn clone(&self) -> (r: Self)
        ensures
            r@ == self@,
    {
        match self {
            Token::Cell(text) => Token::Cell(text.clone()),
            Token::Number(n) => Token::Number(*n),
            Token::Operator(op) => Token::Operator(*op),
            Token::CmpOperator(op) => Token::CmpOperator(*op),
            Token::Func(f) => Token::Func(*f),
            Token::Then => Token::Then,
            Token::Else => Token::Else,
        }
    }
}

/// The views of a sequence of tokens.
pub open spec fn token_views<N>(tokens: Seq<Token<N>>) -> Seq<TokenView<N>> {
    tokens.map_values(|t: Token<N>| t@)
}

impl<N> TokenView<N> {
    /// The pointer that the token gives as the end of a range: the text of a
    /// `Cell`, and a text that names no cell for any other token.
    pub open spec fn pointer(self) -> Seq<char> {
        match self {
            TokenView::Cell(text) => text,
            _ => "Unkown"@,
        }
    }
}

/// The token of a word that the formula language reserves.
pub open spec fn keyword<N>(word: Seq<char>) -> Option<TokenView<N>> {
    if word == "SUM"@ {
        Some(TokenView::Func(Functions::Sum))
    } else if word == "AVG"@ {
        Some(TokenView::Func(Functions::Avg))
    } else if word == "CALC"@ {
        Some(TokenView::Func(Functions::Calc))
    } else if word == "IF"@ {
        Some(TokenView::Func(Functions::If))
    } else if word == "THEN"@ {
        Some(TokenView::Then)
    } else if word == "ELSE"@ {
        Some(TokenView::Else)
    } else if word == "+"@ {
        Some(TokenView::Operator(BinaryOp::Plus))
    } else if word == "-"@ {
        Some(TokenView::Operator(BinaryOp::Minus))
    } else if word == "*"@ {
        Some(TokenView::Operator(BinaryOp::Mult))
    } else if word == "/"@ {
        Some(TokenView::Operator(BinaryOp::Div))
    } else if word == "=="@ {
        Some(TokenView::CmpOperator(CmpOp::Eq))
    } else if word == ">"@ {
        Some(TokenView::CmpOperator(CmpOp::Gt))
    } else if word == "<"@ {
        Some(TokenView::CmpOperator(CmpOp::Lt))
    } else if word == ">="@ {
        Some(TokenView::CmpOperator(CmpOp::Ge))
    } else if word == "<="@ {
        Some(TokenView::CmpOperator(CmpOp::Le))
    } else {
        None
    }
}

/// The token of one word: its keyword if it is reserved, else the number
/// that it writes, else a `Cell` with the word itself.
pub open spec fn word_token<N>(word: Seq<char>, m: NumberModel<N>) -> TokenView<N> {
    match keyword::<N>(word) {
        Some(token) => token,
        None => match (m.parse)(word) {
            Some(n) => TokenView::Number(n),
            None => TokenView::Cell(word),
        },
    }
}

/// A word that is not reserved and writes no number becomes a `Cell` that
/// holds the word; no other word becomes a `Cell`.
pub proof fn law_unrecognized_word_is_cell<N>(word: Seq<char>, m: NumberModel<N>)
    ensures
        word_token(word, m) is Cell <==> keyword::<N>(word) is None && (m.parse)(word) is None,
        word_token(word, m) is Cell ==> word_token(word, m) == TokenView::<N>::Cell(word),
{
}

/// The tokens of a formula: one for each of its words, in order.
pub open spec fn tokens_of<N>(text: Seq<char>, m: NumberModel<N>) -> Seq<TokenView<N>> {
    words(text).map_values(|word: Seq<char>| word_token(word, m))
}

impl<N: Copy> Token<N> {
    /// The token of one word.
    pub fn of_word<P, A, O, C, S>(word: &String, num: &Numbers<N, P, A, O, C, S>) -> (r: Self) where
        P: Fn(&str) -> Option<N>,
        A: Fn(BinaryOp, N, N) -> N,
        O: Fn(N, N) -> Relation,
        C: Fn(usize) -> N,
        S: Fn(N) -> String,

        requires
            num.wf(),
        ensures
            r@ == word_token(word@, num.model()),
    {
        let chars = to_chars(word.as_str());
        if spells(&chars, "SUM") {
            Token::Func(Functions::Sum)
        } else if spells(&chars, "AVG") {
            Token::Func(Functions::Avg)
        } else if spells(&chars, "CALC") {
            Token::Func(Functions::Calc)
        } else if spells(&chars, "IF") {
            Token::Func(Functions::If)
        } else if spells(&chars, "THEN") {
            Token::Then
        } else if spells(&chars, "ELSE") {
            Token::Else
        } else if spells(&chars, "+") {
            Token::Operator(BinaryOp::Plus)
        } else if spells(&chars, "-") {
            Token::Operator(BinaryOp::Minus)
        } else if spells(&chars, "*") {
            Token::Operator(BinaryOp::Mult)
        } else if spells(&chars, "/") {
            Token::Operator(BinaryOp::Div)
        } else if spells(&chars, "==") {
            Token::CmpOperator(CmpOp::Eq)
        } else if spells(&chars, ">") {
            Token::CmpOperator(CmpOp::Gt)
        } else if spells(&chars, "<") {
            Token::CmpOperator(CmpOp::Lt)
        } else if spells(&chars, ">=") {
            Token::CmpOperator(CmpOp::Ge)
        } else if spells(&chars, "<=") {
            Token::CmpOperator(CmpOp::Le)
        } else {
            match num.parse_text(word.as_str()) {
                Some(n) => Token::Number(n),
                None => Token::Cell(word.clone()),
            }
        }
    }

    /// Tokenizes a formula: every word becomes exactly one token.
    pub fn tokenize<P, A, O, C, S>(expr: &str, num: &Numbers<N, P, A, O, C, S>) -> (r: Vec<Self>) where
        P: Fn(&str) -> Option<N>,
        A: Fn(BinaryOp, N, N) -> N,
        O: Fn(N, N) -> Relation,
        C: Fn(usize) -> N,
        S: Fn(N) -> String,

        requires
            num.wf(),
        ensures
            token_views(r@) == tokens_of(expr@, num.model()),
            r.len() == words(expr@).len(),
            forall|i: int|
                0 <= i < r.len() ==> (#[trigger] r[i])@ == word_token(words(expr@)[i], num.model()),
    {
        let pieces = split_text(expr, Separator::Whitespace);
        let ghost all = split(expr@, Separator::Whitespace);
        let ghost token = |word: Seq<char>| word_token(word, num.model());
        let mut tokens: Vec<Self> = Vec::new();
        let mut i: usize = 0;
        while i < pieces.len()
            invariant
                num.wf(),
                i <= pieces.len(),
                texts(pieces@) == all,
                token == |word: Seq<char>| word_token(word, num.model()),
                token_views(tokens@) == all.take(i as int).filter(filled()).map_values(token),
            decreases pieces.len() - i,
        {
            let ghost done = all.take(i as int);
            let ghost grown = all.take(i + 1);
            proof {
                assert(grown =~= done.push(grown.last()));
                done.lemma_filter_push(grown.last(), filled());
            }
            if !pieces[i].as_str().is_empty() {
                let t = Token::of_word(&pieces[i], num);
                tokens.push(t);
                assert(grown.filter(filled()).map_values(token) =~= done.filter(filled()).map_values(
                    token,
                ).push(t@));
            }
            i += 1;
        }
        assert(all.take(all.len() as int) =~= all);
        assert forall|i: int| 0 <= i < tokens.len() implies (#[trigger] tokens[i])@ == word_token(
            words(expr@)[i],
            num.model(),
        ) by {
            assert(token_views(tokens@)[i] == tokens[i]@);
        }
        tokens
    }

    /// The pointer that the token gives as the end of a range.
    pub fn get_cell(&self) -> (r: String)
        ensures
            r@ == self@.pointer(),
    {
        match self {
            Token::Cell(val) => val.clone(),
            _ => "Unkown".to_owned(),
        }
    }
}

/// Whether the text of a cell is a formula: it starts with the marker, an
/// `=` followed by a space.
pub open spec fn is_formula(item: Seq<char>) -> bool {
    item.len() >= 2 && item[0] == '=' && item[1] == ' '
}

/// The formula of a cell: what follows the marker.
pub open spec fn formula_text(item: Seq<char>) -> Seq<char> {
    item.skip(2)
}

/// What stands in the output for a cell with the text `item`: a mark for
/// an empty cell; for a formula its value or the diagnostic of its failure;
/// any other text unchanged.
pub open spec fn cell_value<N>(t: Table, m: NumberModel<N>, item: Seq<char>) -> Seq<char> {
    if item.len() == 0 {
        "#[NULL]"@
    } else if is_formula(item) {
        let tokens = tokens_of(formula_text(item), m);
        if tokens.len() == 0 {
            "#[TOKEN ERROR]"@
        } else {
            match call_value(t, m, tokens[0], tokens.skip(1)) {
                Ok(value) => value,
                Err(e) => e.message(),
            }
        }
    } else {
        item
    }
}

/// Evaluates one cell. A formula that fails gives its diagnostic as the
/// cell's text, so one cell never stops the evaluation of a table.
pub fn eval<N, P, A, O, C, S>(item: &String, csv: &CSV, num: &Numbers<N, P, A, O, C, S>) -> (r:
    String) where
    N: Copy,
    P: Fn(&str) -> Option<N>,
    A: Fn(BinaryOp, N, N) -> N,
    O: Fn(N, N) -> Relation,
    C: Fn(usize) -> N,
    S: Fn(N) -> String,

    requires
        num.wf(),
    ensures
        r@ == cell_value(csv@, num.model(), item@),
        item@.len() == 0 ==> r@ == "#[NULL]"@,
        item@.len() > 0 && !is_formula(item@) ==> r@ == item@,
{
    let chars = to_chars(item.as_str());
    if chars.len() == 0 {
        return "#[NULL]".to_owned();
    }
    if chars.len() >= 2 && chars[0] == '=' && chars[1] == ' ' {
        let expr = to_text(&chars, 2, chars.len());
        let tokens = Token::tokenize(expr.as_str(), num);
        if tokens.len() == 0 {
            return "#[TOKEN ERROR]".to_owned();
        }
        let args = rest(&tokens);
        return match func_caller(csv, &tokens[0], &args, num) {
            Ok(val) => val,
            Err(err) => err.to_string(),
        };
    }
    item.clone()
}

} // verus!
