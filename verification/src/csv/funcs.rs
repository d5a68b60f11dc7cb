//! The functions of the formula language: `SUM`, `AVG`, `CALC` and `IF`.
use vstd::prelude::*;
use crate::csv::exprs::BinaryOp;
use crate::csv::exprs::CmpOp;
use crate::csv::exprs::Functions;
use crate::csv::exprs::Token;
use crate::csv::exprs::TokenView;
use crate::csv::exprs::token_views;
use crate::csv::text_view;
use crate::csv::Table;
use crate::csv::CSV;
use crate::error::failure_view;
use crate::error::CsvError;
use crate::error::ErrorView;
use crate::number::NumberModel;
use crate::number::Numbers;
use crate::number::Relation;
use crate::text::texts;

verus! {

/// The number in the cell that `pointer` names. A cell whose text writes no
/// number fails with `complaint`.
pub open spec fn cell_number<N>(
    t: Table,
    m: NumberModel<N>,
    pointer: Seq<char>,
    complaint: Seq<char>,
) -> Result<N, ErrorView> {
    match t.cell(pointer) {
        Err(e) => Err(e),
        Ok(text) => match (m.parse)(text) {
            Some(n) => Ok(n),
            None => Err(ErrorView::ExprError(complaint)),
        },
    }
}

/// Looks up a cell and reads its text as a number.
fn read_cell<N, P, A, O, C, S>(
    csv: &CSV,
    pointer: &String,
    complaint: &str,
    num: &Numbers<N, P, A, O, C, S>,
) -> (r: Result<N, CsvError>) where
    N: Copy,
    P: Fn(&str) -> Option<N>,
    A: Fn(BinaryOp, N, N) -> N,
    O: Fn(N, N) -> Relation,
    C: Fn(usize) -> N,
    S: Fn(N) -> String,

    requires
        num.wf(),
    ensures
        failure_view(r) == cell_number(csv@, num.model(), pointer@, complaint@),
{
    let text = match csv.get_cell_value(pointer.as_str()) {
        Ok(text) => text,
        Err(e) => return Err(e),
    };
    match num.parse_text(text.as_str()) {
        Some(n) => Ok(n),
        None => Err(CsvError::ExprError(complaint.to_owned())),
    }
}

/// One token of a `CALC` expression with its cell looked up: a number stays,
/// a cell becomes the number that it holds, an operator stays, and no other
/// token can stand in the expression.
pub open spec fn calc_item<N>(t: Table, m: NumberModel<N>, token: TokenView<N>) -> Result<
    TokenView<N>,
    ErrorView,
> {
    match token {
        TokenView::Number(n) => Ok(token),
        TokenView::Cell(pointer) => match cell_number(t, m, pointer, "NaN"@) {
            Ok(n) => Ok(TokenView::Number(n)),
            Err(e) => Err(e),
        },
        TokenView::Operator(op) => Ok(token),
        _ => Err(ErrorView::ExprError("NaN"@)),
    }
}

/// The tokens of a `CALC` expression with their cells looked up, or the
/// failure of the first token that has one.
pub open spec fn calc_items<N>(t: Table, m: NumberModel<N>, args: Seq<TokenView<N>>) -> Result<
    Seq<TokenView<N>>,
    ErrorView,
>
    decreases args.len(),
{
    if args.len() == 0 {
        Ok(Seq::empty())
    } else {
        match calc_items(t, m, args.drop_last()) {
            Err(e) => Err(e),
            Ok(items) => match calc_item(t, m, args.last()) {
                Err(e) => Err(e),
                Ok(item) => Ok(items.push(item)),
            },
        }
    }
}

/// The state of the conversion from infix to postfix: the tokens put out so
/// far, and the operators that wait, the last one on top.
pub struct Yard<N> {
    pub output: Seq<TokenView<N>>,
    pub stack: Seq<BinaryOp>,
}

impl<N> Yard<N> {
    /// Puts out the waiting operators, from the top down, that `op` does not
    /// outrank.
    pub open spec fn yield_to(self, op: BinaryOp) -> Yard<N>
        decreases self.stack.len(),
    {
        if self.stack.len() > 0 && !op.outranks(self.stack.last()) {
            (Yard {
                output: self.output.push(TokenView::Operator(self.stack.last())),
                stack: self.stack.drop_last(),
            }).yield_to(op)
        } else {
            self
        }
    }

    /// Takes in the next token: a number is put out at once; an operator
    /// first makes the waiting operators yield, then waits itself.
    pub open spec fn step(self, token: TokenView<N>) -> Yard<N> {
        match token {
            TokenView::Number(n) => Yard { output: self.output.push(token), stack: self.stack },
            TokenView::Operator(op) => {
                let yielded = self.yield_to(op);
                Yard { output: yielded.output, stack: yielded.stack.push(op) }
            },
            _ => self,
        }
    }

    /// The output once every waiting operator is put out, from the top down.
    pub open spec fn flush(self) -> Seq<TokenView<N>> {
        self.output + self.stack.reverse().map_values(|op: BinaryOp| TokenView::<N>::Operator(op))
    }
}

/// The state of the conversion after `items`.
pub open spec fn yard<N>(items: Seq<TokenView<N>>) -> Yard<N>
    decreases items.len(),
{
    if items.len() == 0 {
        Yard { output: Seq::empty(), stack: Seq::empty() }
    } else {
        yard(items.drop_last()).step(items.last())
    }
}

/// The postfix form of an infix sequence of numbers and operators.
pub open spec fn shunting_yard<N>(items: Seq<TokenView<N>>) -> Seq<TokenView<N>> {
    yard(items).flush()
}

/// The postfix form of a `CALC` expression.
pub open spec fn postfix<N>(t: Table, m: NumberModel<N>, args: Seq<TokenView<N>>) -> Result<
    Seq<TokenView<N>>,
    ErrorView,
> {
    match calc_items(t, m, args) {
        Ok(items) => Ok(shunting_yard(items)),
        Err(e) => Err(e),
    }
}

/// The view of a result that holds tokens.
pub open spec fn tokens_view<N>(r: Result<Vec<Token<N>>, CsvError>) -> Result<
    Seq<TokenView<N>>,
    ErrorView,
> {
    match r {
        Ok(tokens) => Ok(token_views(tokens@)),
        Err(e) => Err(e@),
    }
}

/// Converts the arguments of `CALC` from infix to postfix, looking up the
/// cells on the way.
pub fn infix_to_postfix<N, P, A, O, C, S>(
    csv: &CSV,
    args: &Vec<Token<N>>,
    num: &Numbers<N, P, A, O, C, S>,
) -> (r: Result<Vec<Token<N>>, CsvError>) where
    N: Copy,
    P: Fn(&str) -> Option<N>,
    A: Fn(BinaryOp, N, N) -> N,
    O: Fn(N, N) -> Relation,
    C: Fn(usize) -> N,
    S: Fn(N) -> String,

    requires
        num.wf(),
    ensures
        tokens_view(r) == postfix(csv@, num.model(), token_views(args@)),
{
    let ghost t = csv@;
    let ghost m = num.model();
    let ghost all = token_views(args@);
    let ghost mut items: Seq<TokenView<N>> = Seq::empty();
    let mut postfix: Vec<Token<N>> = Vec::new();
    let mut stack: Vec<BinaryOp> = Vec::new();
    let mut i: usize = 0;
    assert(token_views(postfix@) =~= Seq::<TokenView<N>>::empty());
    while i < args.len()
        invariant
            num.wf(),
            t == csv@,
            m == num.model(),
            all == token_views(args@),
            i <= args.len(),
            calc_items(t, m, all.take(i as int)) == Ok::<Seq<TokenView<N>>, ErrorView>(items),
            yard(items) == (Yard { output: token_views(postfix@), stack: stack@ }),
        decreases args.len() - i,
    {
        let ghost grown = all.take(i + 1);
        proof {
            assert(grown.drop_last() =~= all.take(i as int));
            if calc_items(t, m, grown) is Err {
                lemma_calc_items_fail(t, m, all, i + 1);
            }
        }
        match &args[i] {
            Token::Number(n) => {
                put_out(&mut postfix, Token::Number(*n));
            },
            Token::Cell(cell_ptr) => {
                let n = match read_cell(csv, cell_ptr, "NaN", num) {
                    Ok(n) => n,
                    Err(e) => {
                        return Err(e);
                    },
                };
                put_out(&mut postfix, Token::Number(n));
            },
            Token::Operator(op) => {
                while stack.len() > 0 && !op.check_precendece(&stack[stack.len() - 1])
                    invariant
                        (Yard { output: token_views(postfix@), stack: stack@ }).yield_to(*op) == yard(
                            items,
                        ).yield_to(*op),
                    decreases stack.len(),
                {
                    let top = stack.pop().unwrap();
                    put_out(&mut postfix, Token::Operator(top));
                }
                stack.push(*op);
            },
            _ => {
                return Err(CsvError::ExprError("NaN".to_owned()));
            },
        }
        proof {
            let item = calc_item(t, m, grown.last())->Ok_0;
            assert(items.push(item).drop_last() =~= items);
            items = items.push(item);
        }
        i += 1;
    }
    assert(all.take(args.len() as int) =~= all);
    let ghost waiting = yard(items);
    while stack.len() > 0
        invariant
            (Yard { output: token_views(postfix@), stack: stack@ }).flush() == waiting.flush(),
        decreases stack.len(),
    {
        let top = stack.pop().unwrap();
        put_out(&mut postfix, Token::Operator(top));
    }
    Ok(postfix)
}

/// Puts one more token out.
fn put_out<N>(output: &mut Vec<Token<N>>, token: Token<N>)
    ensures
        token_views(final(output)@) == token_views(old(output)@).push(token@),
{
    output.push(token);
    assert(token_views(output@) =~= token_views(old(output)@).push(token@));
}

/// A failure among the first tokens of a `CALC` expression is the failure of
/// the whole expression.
pub proof fn lemma_calc_items_fail<N>(t: Table, m: NumberModel<N>, args: Seq<TokenView<N>>, k: int)
    requires
        0 <= k <= args.len(),
        calc_items(t, m, args.take(k)) is Err,
    ensures
        calc_items(t, m, args) == calc_items(t, m, args.take(k)),
    decreases args.len() - k,
{
    if k < args.len() {
        assert(args.take(k + 1).drop_last() =~= args.take(k));
        lemma_calc_items_fail(t, m, args, k + 1);
    } else {
        assert(args.take(k) =~= args);
    }
}

/// The number stack after one more postfix token: a number is pushed; an
/// operator takes the right operand from the top, the left operand from
/// below it, and pushes `left op right`.
pub open spec fn push_token<N>(m: NumberModel<N>, stack: Seq<N>, token: TokenView<N>) -> Result<
    Seq<N>,
    ErrorView,
> {
    match token {
        TokenView::Number(n) => Ok(stack.push(n)),
        TokenView::Operator(op) => if stack.len() < 2 {
            Err(ErrorView::ExprError("Incorrect math expression..."@))
        } else {
            Ok(
                stack.take(stack.len() - 2).push(
                    (m.apply)(op, stack[stack.len() - 2], stack[stack.len() - 1]),
                ),
            )
        },
        _ => Err(ErrorView::ExprError("NaN"@)),
    }
}

/// The number stack after a walk over postfix tokens, or the failure of the
/// first token that has one.
pub open spec fn walk<N>(m: NumberModel<N>, tokens: Seq<TokenView<N>>) -> Result<Seq<N>, ErrorView>
    decreases tokens.len(),
{
    if tokens.len() == 0 {
        Ok(Seq::empty())
    } else {
        match walk(m, tokens.drop_last()) {
            Err(e) => Err(e),
            Ok(stack) => push_token(m, stack, tokens.last()),
        }
    }
}

/// The value of a postfix sequence: the one number that its walk leaves.
pub open spec fn postfix_value<N>(m: NumberModel<N>, tokens: Seq<TokenView<N>>) -> Result<
    N,
    ErrorView,
> {
    match walk(m, tokens) {
        Err(e) => Err(e),
        Ok(stack) => if stack.len() == 0 {
            Err(ErrorView::ExprError("Empty stack..."@))
        } else if stack.len() > 1 {
            Err(ErrorView::ExprError("Incorrect math expression..."@))
        } else {
            Ok(stack[0])
        },
    }
}

/// A failure among the first postfix tokens is the failure of the whole walk.
pub proof fn lemma_walk_fail<N>(m: NumberModel<N>, tokens: Seq<TokenView<N>>, k: int)
    requires
        0 <= k <= tokens.len(),
        walk(m, tokens.take(k)) is Err,
    ensures
        walk(m, tokens) == walk(m, tokens.take(k)),
    decreases tokens.len() - k,
{
    if k < tokens.len() {
        assert(tokens.take(k + 1).drop_last() =~= tokens.take(k));
        lemma_walk_fail(m, tokens, k + 1);
    } else {
        assert(tokens.take(k) =~= tokens);
    }
}

/// Evaluates a postfix sequence with a stack of numbers.
pub fn eval_postfix<N, P, A, O, C, S>(tokens: &Vec<Token<N>>, num: &Numbers<N, P, A, O, C, S>) -> (r:
    Result<N, CsvError>) where
    N: Copy,
    P: Fn(&str) -> Option<N>,
    A: Fn(BinaryOp, N, N) -> N,
    O: Fn(N, N) -> Relation,
    C: Fn(usize) -> N,
    S: Fn(N) -> String,

    requires
        num.wf(),
    ensures
        failure_view(r) == postfix_value(num.model(), token_views(tokens@)),
{
    let ghost m = num.model();
    let ghost all = token_views(tokens@);
    let mut stack: Vec<N> = Vec::new();
    let mut i: usize = 0;
    while i < tokens.len()
        invariant
            num.wf(),
            m == num.model(),
            all == token_views(tokens@),
            i <= tokens.len(),
            walk(m, all.take(i as int)) == Ok::<Seq<N>, ErrorView>(stack@),
        decreases tokens.len() - i,
    {
        let ghost grown = all.take(i + 1);
        let ghost before = stack@;
        proof {
            assert(grown.drop_last() =~= all.take(i as int));
            if walk(m, grown) is Err {
                lemma_walk_fail(m, all, i + 1);
            }
        }
        match &tokens[i] {
            Token::Number(n) => {
                stack.push(*n);
            },
            Token::Operator(op) => {
                let val1 = match stack.pop() {
                    Some(v) => v,
                    None => {
                        return Err(CsvError::ExprError("Incorrect math expression...".to_owned()));
                    },
                };
                let val2 = match stack.pop() {
                    Some(v) => v,
                    None => {
                        return Err(CsvError::ExprError("Incorrect math expression...".to_owned()));
                    },
                };
                let value = num.apply_op(*op, val2, val1);
                stack.push(value);
                assert(stack@ =~= before.take(before.len() - 2).push(value));
            },
            _ => {
                return Err(CsvError::ExprError("NaN".to_owned()));
            },
        }
        i += 1;
    }
    assert(all.take(tokens.len() as int) =~= all);
    if stack.len() == 0 {
        return Err(CsvError::ExprError("Empty stack...".to_owned()));
    } else if stack.len() > 1 {
        return Err(CsvError::ExprError("Incorrect math expression...".to_owned()));
    }
    Ok(stack[0])
}

/// The value of a `CALC` expression: the value of its postfix form.
pub open spec fn calc_value<N>(t: Table, m: NumberModel<N>, args: Seq<TokenView<N>>) -> Result<
    N,
    ErrorView,
> {
    match postfix(t, m, args) {
        Err(e) => Err(e),
        Ok(tokens) => postfix_value(m, tokens),
    }
}

/// Evaluates an arithmetic expression of numbers, cells and binary
/// operators, `*` and `/` before `+` and `-`, equal ranks from left to right.
pub fn func_calc<N, P, A, O, C, S>(
    csv: &CSV,
    args: &Vec<Token<N>>,
    num: &Numbers<N, P, A, O, C, S>,
) -> (r: Result<N, CsvError>) where
    N: Copy,
    P: Fn(&str) -> Option<N>,
    A: Fn(BinaryOp, N, N) -> N,
    O: Fn(N, N) -> Relation,
    C: Fn(usize) -> N,
    S: Fn(N) -> String,

    requires
        num.wf(),
    ensures
        failure_view(r) == calc_value(csv@, num.model(), token_views(args@)),
{
    let postfix_args = match infix_to_postfix(csv, args, num) {
        Ok(tokens) => tokens,
        Err(e) => return Err(e),
    };
    eval_postfix(&postfix_args, num)
}

/// The sum of the numbers that `texts` write, from the number of the count
/// zero on, or the failure of the first text that writes no number.
pub open spec fn total<N>(m: NumberModel<N>, texts: Seq<Seq<char>>) -> Result<N, ErrorView>
    decreases texts.len(),
{
    if texts.len() == 0 {
        Ok((m.count)(0))
    } else {
        match total(m, texts.drop_last()) {
            Err(e) => Err(e),
            Ok(sum) => match (m.parse)(texts.last()) {
                Some(n) => Ok((m.apply)(BinaryOp::Plus, sum, n)),
                None => Err(ErrorView::ExprError("NaN"@)),
            },
        }
    }
}

/// A failure among the first texts is the failure of the whole sum.
pub proof fn lemma_total_fail<N>(m: NumberModel<N>, texts: Seq<Seq<char>>, k: int)
    requires
        0 <= k <= texts.len(),
        total(m, texts.take(k)) is Err,
    ensures
        total(m, texts) == total(m, texts.take(k)),
    decreases texts.len() - k,
{
    if k < texts.len() {
        assert(texts.take(k + 1).drop_last() =~= texts.take(k));
        lemma_total_fail(m, texts, k + 1);
    } else {
        assert(texts.take(k) =~= texts);
    }
}

/// The value of `SUM`: the sum over the range between its two arguments.
pub open spec fn sum_value<N>(t: Table, m: NumberModel<N>, args: Seq<TokenView<N>>) -> Result<
    N,
    ErrorView,
> {
    if args.len() != 2 {
        Err(ErrorView::ArgError)
    } else {
        match t.range(args[0].pointer(), args[1].pointer()) {
            Err(e) => Err(e),
            Ok(texts) => total(m, texts),
        }
    }
}

/// Sums the cells of the range between two cell pointers.
pub fn func_sum<N, P, A, O, C, S>(
    csv: &CSV,
    args: &Vec<Token<N>>,
    num: &Numbers<N, P, A, O, C, S>,
) -> (r: Result<N, CsvError>) where
    N: Copy,
    P: Fn(&str) -> Option<N>,
    A: Fn(BinaryOp, N, N) -> N,
    O: Fn(N, N) -> Relation,
    C: Fn(usize) -> N,
    S: Fn(N) -> String,

    requires
        num.wf(),
    ensures
        failure_view(r) == sum_value(csv@, num.model(), token_views(args@)),
{
    if args.len() != 2 {
        return Err(CsvError::ArgError);
    }
    let arg1 = args[0].get_cell();
    let arg2 = args[1].get_cell();
    let range_values = match csv.get_range_values(arg1.as_str(), arg2.as_str()) {
        Ok(values) => values,
        Err(e) => return Err(e),
    };
    let ghost m = num.model();
    let ghost all = texts(range_values@);
    let mut sum = num.count_of(0);
    let mut i: usize = 0;
    while i < range_values.len()
        invariant
            num.wf(),
            m == num.model(),
            all == texts(range_values@),
            sum_value(csv@, m, token_views(args@)) == total(m, all),
            i <= range_values.len(),
            total(m, all.take(i as int)) == Ok::<N, ErrorView>(sum),
        decreases range_values.len() - i,
    {
        proof {
            let grown = all.take(i + 1);
            assert(grown.drop_last() =~= all.take(i as int));
            if total(m, grown) is Err {
                lemma_total_fail(m, all, i + 1);
            }
        }
        match num.parse_text(range_values[i].as_str()) {
            Some(val) => {
                sum = num.apply_op(BinaryOp::Plus, sum, val);
            },
            None => {
                return Err(CsvError::ExprError("NaN".to_owned()));
            },
        }
        i += 1;
    }
    assert(all.take(range_values.len() as int) =~= all);
    Ok(sum)
}

/// The value of `AVG`: the sum over the range, divided by the number of the
/// count of cells that the range spans.
pub open spec fn avg_value<N>(t: Table, m: NumberModel<N>, args: Seq<TokenView<N>>) -> Result<
    N,
    ErrorView,
> {
    if args.len() != 2 {
        Err(ErrorView::ArgError)
    } else {
        match t.range_len(args[0].pointer(), args[1].pointer()) {
            Err(e) => Err(e),
            Ok(len) => match sum_value(t, m, args) {
                Err(e) => Err(e),
                Ok(sum) => Ok((m.apply)(BinaryOp::Div, sum, (m.count)(len))),
            },
        }
    }
}

/// Averages the cells of the range between two cell pointers.
pub fn func_avg<N, P, A, O, C, S>(
    csv: &CSV,
    args: &Vec<Token<N>>,
    num: &Numbers<N, P, A, O, C, S>,
) -> (r: Result<N, CsvError>) where
    N: Copy,
    P: Fn(&str) -> Option<N>,
    A: Fn(BinaryOp, N, N) -> N,
    O: Fn(N, N) -> Relation,
    C: Fn(usize) -> N,
    S: Fn(N) -> String,

    requires
        num.wf(),
    ensures
        failure_view(r) == avg_value(csv@, num.model(), token_views(args@)),
{
    if args.len() != 2 {
        return Err(CsvError::ArgError);
    }
    let range_len = match csv.get_range_len(
        args[0].get_cell().as_str(),
        args[1].get_cell().as_str(),
    ) {
        Ok(len) => len,
        Err(e) => return Err(e),
    };
    let sum = match func_sum(csv, args, num) {
        Ok(sum) => sum,
        Err(e) => return Err(e),
    };
    Ok(num.apply_op(BinaryOp::Div, sum, num.count_of(range_len)))
}

/// Whether a token can stand on one side of a comparison.
pub open spec fn is_operand<N>(token: TokenView<N>) -> bool {
    token is Number || token is Cell
}

/// The number that stands on one side of a comparison: the number itself,
/// or the number that the cell holds.
pub open spec fn operand_value<N>(t: Table, m: NumberModel<N>, token: TokenView<N>) -> Result<
    N,
    ErrorView,
> {
    match token {
        TokenView::Number(n) => Ok(n),
        TokenView::Cell(pointer) => cell_number(t, m, pointer, "Uncomparable ypes..."@),
        _ => Err(ErrorView::ExprError("Uncomparable types..."@)),
    }
}

/// The two numbers of a comparison, the left one resolved first. Both
/// tokens must be operands before either is resolved.
pub open spec fn compared<N>(
    t: Table,
    m: NumberModel<N>,
    left: TokenView<N>,
    right: TokenView<N>,
) -> Result<(N, N), ErrorView> {
    if is_operand(left) && is_operand(right) {
        match operand_value(t, m, left) {
            Err(e) => Err(e),
            Ok(l) => match operand_value(t, m, right) {
                Err(e) => Err(e),
                Ok(r) => Ok((l, r)),
            },
        }
    } else {
        Err(ErrorView::ExprError("Uncomparable types..."@))
    }
}

/// Resolves one side of a comparison to its number.
fn operand_number<N, P, A, O, C, S>(csv: &CSV, token: &Token<N>, num: &Numbers<N, P, A, O, C, S>) -> (r:
    Result<N, CsvError>) where
    N: Copy,
    P: Fn(&str) -> Option<N>,
    A: Fn(BinaryOp, N, N) -> N,
    O: Fn(N, N) -> Relation,
    C: Fn(usize) -> N,
    S: Fn(N) -> String,

    requires
        num.wf(),
    ensures
        failure_view(r) == operand_value(csv@, num.model(), token@),
{
    match token {
        Token::Number(n) => Ok(*n),
        Token::Cell(pointer) => read_cell(csv, pointer, "Uncomparable ypes...", num),
        _ => Err(CsvError::ExprError("Uncomparable types...".to_owned())),
    }
}

/// The numbers on the two sides of a comparison, from number tokens or
/// from the cells that cell pointers name.
pub fn get_cmp_values<N, P, A, O, C, S>(
    csv: &CSV,
    left: &Token<N>,
    right: &Token<N>,
    num: &Numbers<N, P, A, O, C, S>,
) -> (r: Result<(N, N), CsvError>) where
    N: Copy,
    P: Fn(&str) -> Option<N>,
    A: Fn(BinaryOp, N, N) -> N,
    O: Fn(N, N) -> Relation,
    C: Fn(usize) -> N,
    S: Fn(N) -> String,

    requires
        num.wf(),
    ensures
        failure_view(r) == compared(csv@, num.model(), left@, right@),
{
    match (left, right) {
        (Token::Number(_) | Token::Cell(_), Token::Number(_) | Token::Cell(_)) => {
            let l = match operand_number(csv, left, num) {
                Ok(l) => l,
                Err(e) => return Err(e),
            };
            let r = match operand_number(csv, right, num) {
                Ok(r) => r,
                Err(e) => return Err(e),
            };
            Ok((l, r))
        },
        _ => Err(CsvError::ExprError("Uncomparable types...".to_owned())),
    }
}

/// The truth of a condition: a left operand, a comparison operator and a
/// right operand.
pub open spec fn condition<N>(t: Table, m: NumberModel<N>, args: Seq<TokenView<N>>) -> Result<
    bool,
    ErrorView,
> {
    if args.len() != 3 {
        Err(ErrorView::ArgError)
    } else {
        match compared(t, m, args[0], args[2]) {
            Err(e) => Err(e),
            Ok((l, r)) => match args[1] {
                TokenView::CmpOperator(op) => Ok(op.holds((m.order)(l, r))),
                _ => Err(ErrorView::ExprError("Expected a comparison operator..."@)),
            },
        }
    }
}

/// Decides whether a condition is true or false.
pub fn condition_eval<N, P, A, O, C, S>(
    csv: &CSV,
    cond_args: &Vec<Token<N>>,
    num: &Numbers<N, P, A, O, C, S>,
) -> (r: Result<bool, CsvError>) where
    N: Copy,
    P: Fn(&str) -> Option<N>,
    A: Fn(BinaryOp, N, N) -> N,
    O: Fn(N, N) -> Relation,
    C: Fn(usize) -> N,
    S: Fn(N) -> String,

    requires
        num.wf(),
    ensures
        failure_view(r) == condition(csv@, num.model(), token_views(cond_args@)),
{
    if cond_args.len() != 3 {
        return Err(CsvError::ArgError);
    }
    let op = &cond_args[1];
    let left = &cond_args[0];
    let right = &cond_args[2];
    let (l_val, r_val) = match get_cmp_values(csv, left, right, num) {
        Ok(values) => values,
        Err(e) => return Err(e),
    };
    if let Token::CmpOperator(cmp) = op {
        Ok(cmp.test(num.order_of(l_val, r_val)))
    } else {
        Err(CsvError::ExprError("Expected a comparison operator...".to_owned()))
    }
}

/// The segments of the arguments of `IF` between its `THEN` and `ELSE`
/// tokens: both words only separate, whichever comes first, and `k` of them
/// make `k + 1` segments.
pub open spec fn segments<N>(tokens: Seq<TokenView<N>>) -> Seq<Seq<TokenView<N>>>
    decreases tokens.len(),
{
    if tokens.len() == 0 {
        seq![Seq::empty()]
    } else {
        let before = segments(tokens.drop_last());
        if tokens.last() is Then || tokens.last() is Else {
            before.push(Seq::empty())
        } else {
            before.drop_last().push(before.last().push(tokens.last()))
        }
    }
}

/// The segments and the separators between them together are as many as
/// the tokens, so a segment among `k + 1` is shorter than the tokens by `k`
/// at least.
pub proof fn lemma_segments_len<N>(tokens: Seq<TokenView<N>>)
    ensures
        segments(tokens).len() >= 1,
        forall|k: int|
            0 <= k < segments(tokens).len() ==> (#[trigger] segments(tokens)[k]).len() + segments(
                tokens,
            ).len() - 1 <= tokens.len(),
    decreases tokens.len(),
{
    if tokens.len() > 0 {
        lemma_segments_len(tokens.drop_last());
    }
}

/// The views of a sequence of segments.
pub open spec fn segment_views<N>(parts: Seq<Vec<Token<N>>>) -> Seq<Seq<TokenView<N>>> {
    parts.map_values(|part: Vec<Token<N>>| token_views(part@))
}

/// Parts the arguments of `IF` at every `THEN` and `ELSE`.
fn split_if<N: Copy>(args: &Vec<Token<N>>) -> (parts: Vec<Vec<Token<N>>>)
    ensures
        segment_views(parts@) == segments(token_views(args@)),
{
    let ghost all = token_views(args@);
    let mut parts: Vec<Vec<Token<N>>> = Vec::new();
    let mut current: Vec<Token<N>> = Vec::new();
    let mut i: usize = 0;
    assert(token_views(current@) =~= Seq::<TokenView<N>>::empty());
    while i < args.len()
        invariant
            all == token_views(args@),
            i <= args.len(),
            segment_views(parts@).push(token_views(current@)) == segments(all.take(i as int)),
        decreases args.len() - i,
    {
        let ghost done = all.take(i as int);
        let ghost grown = all.take(i + 1);
        let ghost segment = current@;
        assert(grown.drop_last() =~= done);
        match &args[i] {
            Token::Then | Token::Else => {
                parts.push(current);
                current = Vec::new();
                assert(token_views(current@) =~= Seq::<TokenView<N>>::empty());
            },
            token => {
                let copy = token.clone();
                current.push(copy);
                assert(token_views(current@) =~= token_views(segment).push(copy@));
            },
        }
        i += 1;
    }
    assert(all.take(args.len() as int) =~= all);
    parts.push(current);
    parts
}

/// The tokens after the first.
pub fn rest<N: Copy>(tokens: &Vec<Token<N>>) -> (r: Vec<Token<N>>)
    requires
        tokens.len() >= 1,
    ensures
        token_views(r@) == token_views(tokens@).skip(1),
{
    let mut r: Vec<Token<N>> = Vec::new();
    let mut i: usize = 1;
    while i < tokens.len()
        invariant
            1 <= i <= tokens.len(),
            token_views(r@) == token_views(tokens@).subrange(1, i as int),
        decreases tokens.len() - i,
    {
        let copy = tokens[i].clone();
        r.push(copy);
        assert(token_views(tokens@).subrange(1, i + 1) =~= token_views(tokens@).subrange(
            1,
            i as int,
        ).push(copy@));
        i += 1;
    }
    r
}

/// A number written as text, or the failure passed on.
pub open spec fn shown<N>(m: NumberModel<N>, value: Result<N, ErrorView>) -> Result<
    Seq<char>,
    ErrorView,
> {
    match value {
        Ok(n) => Ok((m.show)(n)),
        Err(e) => Err(e),
    }
}

/// The text that a function call evaluates to. `func` is the leading token
/// of the call and must name a function.
pub open spec fn call_value<N>(
    t: Table,
    m: NumberModel<N>,
    func: TokenView<N>,
    args: Seq<TokenView<N>>,
) -> Result<Seq<char>, ErrorView>
    decreases args.len(), 1nat,
{
    match func {
        TokenView::Func(Functions::Sum) => shown(m, sum_value(t, m, args)),
        TokenView::Func(Functions::Avg) => shown(m, avg_value(t, m, args)),
        TokenView::Func(Functions::Calc) => shown(m, calc_value(t, m, args)),
        TokenView::Func(Functions::If) => if_value(t, m, args),
        _ => Err(ErrorView::ExprError("Unknown function..."@)),
    }
}

/// The text that `IF` evaluates to. Its arguments are a condition, `THEN`,
/// a branch, `ELSE`, and a branch; the condition picks the branch.
pub open spec fn if_value<N>(t: Table, m: NumberModel<N>, args: Seq<TokenView<N>>) -> Result<
    Seq<char>,
    ErrorView,
>
    decreases args.len(), 0nat,
{
    let parts = segments(args);
    if parts.len() != 3 {
        Err(ErrorView::ArgError)
    } else {
        match condition(t, m, parts[0]) {
            Err(e) => Err(e),
            Ok(truth) => {
                let branch = if truth {
                    parts[1]
                } else {
                    parts[2]
                };
                proof {
                    lemma_segments_len(args);
                }
                branch_value(t, m, branch)
            },
        }
    }
}

/// The text that a branch of `IF` evaluates to. A branch that starts with a
/// cell is the text of that token itself, not the text of the cell that it
/// may name; one that starts with a number is the number written as text;
/// one that starts with a function is a call of it on the rest of the
/// branch.
pub open spec fn branch_value<N>(t: Table, m: NumberModel<N>, branch: Seq<TokenView<N>>) -> Result<
    Seq<char>,
    ErrorView,
>
    decreases branch.len(), 2nat,
{
    if branch.len() == 0 {
        Err(ErrorView::ArgError)
    } else {
        match branch[0] {
            TokenView::Cell(text) => Ok(text),
            TokenView::Number(n) => Ok((m.show)(n)),
            TokenView::Func(f) => call_value(t, m, branch[0], branch.skip(1)),
            _ => Err(ErrorView::ExprError("Wrong argument type..."@)),
        }
    }
}

/// Calls the function that the token `func` names on the arguments `args`.
pub fn func_caller<N, P, A, O, C, S>(
    csv: &CSV,
    func: &Token<N>,
    args: &Vec<Token<N>>,
    num: &Numbers<N, P, A, O, C, S>,
) -> (r: Result<String, CsvError>) where
    N: Copy,
    P: Fn(&str) -> Option<N>,
    A: Fn(BinaryOp, N, N) -> N,
    O: Fn(N, N) -> Relation,
    C: Fn(usize) -> N,
    S: Fn(N) -> String,

    requires
        num.wf(),
    ensures
        text_view(r) == call_value(csv@, num.model(), func@, token_views(args@)),
    decreases args.len(), 1nat,
{
    if let Token::Func(f) = func {
        match f {
            Functions::Sum => match func_sum(csv, args, num) {
                Ok(n) => Ok(num.show_number(n)),
                Err(e) => Err(e),
            },
            Functions::Avg => match func_avg(csv, args, num) {
                Ok(n) => Ok(num.show_number(n)),
                Err(e) => Err(e),
            },
            Functions::Calc => match func_calc(csv, args, num) {
                Ok(n) => Ok(num.show_number(n)),
                Err(e) => Err(e),
            },
            Functions::If => func_if(csv, args, num),
        }
    } else {
        Err(CsvError::ExprError("Unknown function...".to_owned()))
    }
}

/// Evaluates `IF`: decides the condition and gives the value of the branch
/// that it picks.
pub fn func_if<N, P, A, O, C, S>(
    csv: &CSV,
    args: &Vec<Token<N>>,
    num: &Numbers<N, P, A, O, C, S>,
) -> (r: Result<String, CsvError>) where
    N: Copy,
    P: Fn(&str) -> Option<N>,
    A: Fn(BinaryOp, N, N) -> N,
    O: Fn(N, N) -> Relation,
    C: Fn(usize) -> N,
    S: Fn(N) -> String,

    requires
        num.wf(),
    ensures
        text_view(r) == if_value(csv@, num.model(), token_views(args@)),
    decreases args.len(), 0nat,
{
    let split_if = split_if(args);
    if split_if.len() != 3 {
        return Err(CsvError::ArgError);
    }
    let cond_val = match condition_eval(csv, &split_if[0], num) {
        Ok(truth) => truth,
        Err(e) => return Err(e),
    };
    let output = if cond_val {
        &split_if[1]
    } else {
        &split_if[2]
    };
    if output.len() == 0 {
        return Err(CsvError::ArgError);
    }
    match &output[0] {
        Token::Cell(val) => Ok(val.clone()),
        Token::Number(n) => Ok(num.show_number(*n)),
        Token::Func(_) => {
            let branch_args = rest(output);
            proof {
                lemma_segments_len(token_views(args@));
            }
            func_caller(csv, &output[0], &branch_args, num)
        },
        _ => Err(CsvError::ExprError("Wrong argument type...".to_owned())),
    }
}

} // verus!
