//! What holds of every `CALC` expression and of every `IF`.
use vstd::prelude::*;
use crate::csv::exprs::BinaryOp;
use crate::csv::exprs::TokenView;
use crate::csv::funcs::avg_value;
use crate::csv::funcs::branch_value;
use crate::csv::funcs::calc_items;
use crate::csv::funcs::calc_value;
use crate::csv::funcs::condition;
use crate::csv::funcs::if_value;
use crate::csv::funcs::postfix_value;
use crate::csv::funcs::segments;
use crate::csv::funcs::shunting_yard;
use crate::csv::funcs::sum_value;
use crate::csv::funcs::total;
use crate::csv::funcs::walk;
use crate::csv::funcs::yard;
use crate::csv::funcs::Yard;
use crate::csv::Table;
use crate::error::ErrorView;
use crate::number::NumberModel;

verus! {

/// What one token adds to the height of the number stack: a number one
/// more, an operator one less.
pub open spec fn weight<N>(token: TokenView<N>) -> int {
    match token {
        TokenView::Number(_) => 1,
        TokenView::Operator(_) => -1,
        _ => 0,
    }
}

/// The numbers of a sequence less its operators.
pub open spec fn balance<N>(tokens: Seq<TokenView<N>>) -> int
    decreases tokens.len(),
{
    if tokens.len() == 0 {
        0
    } else {
        balance(tokens.drop_last()) + weight(tokens.last())
    }
}

/// One more token adds its weight to the balance.
proof fn lemma_balance_push<N>(tokens: Seq<TokenView<N>>, token: TokenView<N>)
    ensures
        balance(tokens.push(token)) == balance(tokens) + weight(token),
{
    assert(tokens.push(token).drop_last() =~= tokens);
}

/// An operator that yields leaves the stack for the output: the balance of
/// the output less the waiting operators stays.
proof fn lemma_yield_balance<N>(y: Yard<N>, op: BinaryOp)
    ensures
        balance(y.yield_to(op).output) - y.yield_to(op).stack.len() == balance(y.output)
            - y.stack.len(),
    decreases y.stack.len(),
{
    if y.stack.len() > 0 && !op.outranks(y.stack.last()) {
        let next = Yard {
            output: y.output.push(TokenView::Operator(y.stack.last())),
            stack: y.stack.drop_last(),
        };
        lemma_balance_push(y.output, TokenView::Operator(y.stack.last()));
        lemma_yield_balance(next, op);
    }
}

/// The balance of the output less the waiting operators is the balance of
/// the tokens taken in.
proof fn lemma_yard_balance<N>(items: Seq<TokenView<N>>)
    ensures
        balance(yard(items).output) - yard(items).stack.len() == balance(items),
    decreases items.len(),
{
    if items.len() > 0 {
        let before = yard(items.drop_last());
        lemma_yard_balance(items.drop_last());
        match items.last() {
            TokenView::Number(n) => {
                lemma_balance_push(before.output, items.last());
            },
            TokenView::Operator(op) => {
                lemma_yield_balance(before, op);
            },
            _ => {},
        }
    }
}

/// Every waiting operator that is put out takes one from the balance.
proof fn lemma_flush_balance<N>(y: Yard<N>)
    ensures
        balance(y.flush()) == balance(y.output) - y.stack.len(),
    decreases y.stack.len(),
{
    if y.stack.len() > 0 {
        // Putting out the bottom operator last leaves the flush of the rest before it.
        let rest = Yard { output: y.output, stack: y.stack.skip(1) };
        lemma_flush_balance(rest);
        assert(y.flush() =~= rest.flush().push(TokenView::Operator(y.stack[0])));
        lemma_balance_push(rest.flush(), TokenView::Operator(y.stack[0]));
    }
}

/// The postfix form holds the numbers and the operators of the infix form,
/// as many of each.
pub proof fn lemma_shunting_yard_balance<N>(items: Seq<TokenView<N>>)
    ensures
        balance(shunting_yard(items)) == balance(items),
{
    lemma_yard_balance(items);
    lemma_flush_balance(yard(items));
}

/// A walk that succeeds leaves as many numbers as the balance of its tokens,
/// and a walk that fails fails with an expression error.
pub proof fn lemma_walk_height<N>(m: NumberModel<N>, tokens: Seq<TokenView<N>>)
    ensures
        match walk(m, tokens) {
            Ok(stack) => stack.len() == balance(tokens),
            Err(e) => e is ExprError,
        },
    decreases tokens.len(),
{
    if tokens.len() > 0 {
        lemma_walk_height(m, tokens.drop_last());
    }
}

/// A `CALC` expression whose tokens can be looked up has a value only if it
/// holds exactly one number more than operators; any other fails with an
/// expression error, as does every expression that fails after the lookup.
pub proof fn law_unbalanced_calc_fails<N>(
    t: Table,
    m: NumberModel<N>,
    args: Seq<TokenView<N>>,
    items: Seq<TokenView<N>>,
)
    requires
        calc_items(t, m, args) == Ok::<Seq<TokenView<N>>, ErrorView>(items),
    ensures
        calc_value(t, m, args) is Ok ==> balance(items) == 1,
        calc_value(t, m, args) matches Err(e) ==> e is ExprError,
{
    lemma_shunting_yard_balance(items);
    lemma_walk_height(m, shunting_yard(items));
}

/// Whether `items` is an infix expression: numbers and operators in turn,
/// a number first and a number last.
pub open spec fn is_infix<N>(items: Seq<TokenView<N>>) -> bool {
    &&& items.len() % 2 == 1
    &&& forall|i: int| 0 <= i < items.len() && i % 2 == 0 ==> #[trigger] items[i] is Number
    &&& forall|i: int| 0 <= i < items.len() && i % 2 == 1 ==> #[trigger] items[i] is Operator
}

/// An infix expression holds exactly one number more than operators.
pub proof fn lemma_infix_balance<N>(items: Seq<TokenView<N>>)
    requires
        is_infix(items),
    ensures
        balance(items) == 1,
    decreases items.len(),
{
    let n = items.len() as int;
    if n == 1 {
        lemma_balance_push(Seq::<TokenView<N>>::empty(), items[0]);
        assert(Seq::<TokenView<N>>::empty().push(items[0]) =~= items);
    } else {
        let shorter = items.take(n - 2);
        lemma_infix_balance(shorter);
        lemma_balance_push(shorter, items[n - 2]);
        lemma_balance_push(shorter.push(items[n - 2]), items[n - 1]);
        assert(shorter.push(items[n - 2]).push(items[n - 1]) =~= items);
    }
}

/// A `CALC` expression that is an infix expression with one more operator
/// at its end fails with an expression error.
pub proof fn law_trailing_operator_fails<N>(
    t: Table,
    m: NumberModel<N>,
    args: Seq<TokenView<N>>,
    items: Seq<TokenView<N>>,
    op: BinaryOp,
)
    requires
        is_infix(items),
        calc_items(t, m, args) == Ok::<Seq<TokenView<N>>, ErrorView>(
            items.push(TokenView::Operator(op)),
        ),
    ensures
        calc_value(t, m, args) matches Err(e) && e is ExprError,
{
    lemma_infix_balance(items);
    lemma_balance_push(items, TokenView::Operator(op));
    law_unbalanced_calc_fails(t, m, args, items.push(TokenView::Operator(op)));
}

/// Whether a token is `+` or `-`.
pub open spec fn is_additive<N>(token: TokenView<N>) -> bool {
    token == TokenView::<N>::Operator(BinaryOp::Plus) || token == TokenView::<N>::Operator(
        BinaryOp::Minus,
    )
}

/// The place of the last `+` or `-` of an infix expression, or -1 if it has
/// none.
pub open spec fn last_additive<N>(items: Seq<TokenView<N>>) -> int
    decreases items.len(),
{
    if items.len() < 3 {
        -1
    } else if is_additive(items[items.len() - 2]) {
        items.len() - 2
    } else {
        last_additive(items.take(items.len() - 2))
    }
}

/// The value of an infix expression without `+` and `-`: its operators
/// applied from left to right.
pub open spec fn product_value<N>(m: NumberModel<N>, items: Seq<TokenView<N>>) -> N
    decreases items.len(),
{
    if items.len() < 3 {
        items[0]->Number_0
    } else {
        (m.apply)(
            items[items.len() - 2]->Operator_0,
            product_value(m, items.take(items.len() - 2)),
            items[items.len() - 1]->Number_0,
        )
    }
}

/// The value of an infix expression. Its last `+` or `-` is applied last,
/// to the value of what stands before it and the value of what stands after
/// it; so `*` and `/` are applied before `+` and `-`, and operators of equal
/// rank from left to right.
pub open spec fn infix_value<N>(m: NumberModel<N>, items: Seq<TokenView<N>>) -> N
    decreases items.len(),
{
    let p = last_additive(items);
    if 0 <= p <= items.len() - 2 {
        (m.apply)(
            items[p]->Operator_0,
            infix_value(m, items.take(p)),
            product_value(m, items.skip(p + 1)),
        )
    } else {
        product_value(m, items)
    }
}

/// Whether an operator is `*` or `/`.
spec fn is_high(op: BinaryOp) -> bool {
    op is Mult || op is Div
}

/// What holds of the conversion after an infix expression `e`: at most a
/// `+` or `-` waits, and above it at most a `*` or `/`; the numbers put out
/// so far walk to the left operands of the waiting operators and, on top,
/// the last number.
spec fn settled<N>(m: NumberModel<N>, e: Seq<TokenView<N>>, y: Yard<N>) -> bool {
    let p = last_additive(e);
    let n = e.len() as int;
    match walk(m, y.output) {
        Err(_) => false,
        Ok(s) => if y.stack.len() == 0 {
            n == 1 && s == seq![e[0]->Number_0]
        } else if y.stack.len() == 1 && is_high(y.stack[0]) {
            &&& n >= 3
            &&& p == -1
            &&& e[n - 2] == TokenView::<N>::Operator(y.stack[0])
            &&& s == seq![product_value(m, e.take(n - 2)), e[n - 1]->Number_0]
        } else if y.stack.len() == 1 {
            &&& n >= 3
            &&& p == n - 2
            &&& e[p] == TokenView::<N>::Operator(y.stack[0])
            &&& s == seq![infix_value(m, e.take(p)), e[n - 1]->Number_0]
        } else if y.stack.len() == 2 {
            &&& n >= 5
            &&& 0 <= p < n - 2
            &&& !is_high(y.stack[0])
            &&& is_high(y.stack[1])
            &&& e[p] == TokenView::<N>::Operator(y.stack[0])
            &&& e[n - 2] == TokenView::<N>::Operator(y.stack[1])
            &&& s == seq![
                infix_value(m, e.take(p)),
                product_value(m, e.take(n - 2).skip(p + 1)),
                e[n - 1]->Number_0,
            ]
        } else {
            false
        },
    }
}

/// The walk over one more token is one more push.
proof fn lemma_walk_push<N>(m: NumberModel<N>, tokens: Seq<TokenView<N>>, token: TokenView<N>)
    ensures
        walk(m, tokens.push(token)) == match walk(m, tokens) {
            Err(e) => Err(e),
            Ok(stack) => crate::csv::funcs::push_token(m, stack, token),
        },
{
    assert(tokens.push(token).drop_last() =~= tokens);
}

/// Once the waiting operators are put out, the walk leaves the value of the
/// expression.
proof fn lemma_settled_value<N>(m: NumberModel<N>, e: Seq<TokenView<N>>, y: Yard<N>)
    requires
        is_infix(e),
        settled(m, e, y),
    ensures
        walk(m, y.flush()) == Ok::<Seq<N>, ErrorView>(seq![infix_value(m, e)]),
{
    let p = last_additive(e);
    let n = e.len() as int;
    let s = walk(m, y.output)->Ok_0;
    if y.stack.len() == 1 {
        let top = TokenView::<N>::Operator(y.stack[0]);
        assert(y.flush() =~= y.output.push(top));
        lemma_walk_push(m, y.output, top);
        assert(s.take(s.len() - 2) =~= Seq::<N>::empty());
    } else if y.stack.len() == 2 {
        let top = TokenView::<N>::Operator(y.stack[1]);
        let bottom = TokenView::<N>::Operator(y.stack[0]);
        assert(y.flush() =~= y.output.push(top).push(bottom));
        lemma_walk_push(m, y.output, top);
        lemma_walk_push(m, y.output.push(top), bottom);
        let s1 = walk(m, y.output.push(top))->Ok_0;
        assert(s1.take(s1.len() - 2) =~= Seq::<N>::empty());
        let x = e.skip(p + 1);
        assert(x.take(x.len() - 2) =~= e.take(n - 2).skip(p + 1));
    }
}

/// The conversion stays settled when the expression grows by a `+` or `-`
/// and a number: every waiting operator yields, which leaves the value of
/// the expression so far, and the new operator waits alone.
proof fn lemma_settled_step_low<N>(
    m: NumberModel<N>,
    e: Seq<TokenView<N>>,
    y: Yard<N>,
    op: BinaryOp,
    number: N,
)
    requires
        is_infix(e),
        settled(m, e, y),
        !is_high(op),
    ensures
        settled(
            m,
            e.push(TokenView::Operator(op)).push(TokenView::Number(number)),
            y.step(TokenView::Operator(op)).step(TokenView::Number(number)),
        ),
{
    let grown = e.push(TokenView::Operator(op)).push(TokenView::Number(number));
    let yielded = y.yield_to(op);
    let after = y.step(TokenView::Operator(op)).step(TokenView::Number(number));
    lemma_settled_value(m, e, y);
    reveal_with_fuel(Yard::yield_to, 3);
    assert(yielded.output =~= y.flush());
    assert(yielded.stack =~= Seq::<BinaryOp>::empty());
    assert(after.stack =~= seq![op]);
    lemma_walk_push(m, yielded.output, TokenView::Number(number));
    assert(seq![infix_value(m, e)].push(number) =~= seq![infix_value(m, e), number]);
    assert(last_additive(grown) == e.len());
    assert(grown.take(e.len() as int) =~= e);
}

/// The conversion stays settled when the expression grows by a `*` or `/`
/// and a number: a waiting `*` or `/` yields, which leaves the product so
/// far, a waiting `+` or `-` stays, and the new operator waits on top.
proof fn lemma_settled_step_high<N>(
    m: NumberModel<N>,
    e: Seq<TokenView<N>>,
    y: Yard<N>,
    op: BinaryOp,
    number: N,
)
    requires
        is_infix(e),
        settled(m, e, y),
        is_high(op),
    ensures
        settled(
            m,
            e.push(TokenView::Operator(op)).push(TokenView::Number(number)),
            y.step(TokenView::Operator(op)).step(TokenView::Number(number)),
        ),
{
    let grown = e.push(TokenView::Operator(op)).push(TokenView::Number(number));
    let n = e.len() as int;
    let p = last_additive(e);
    let s = walk(m, y.output)->Ok_0;
    let yielded = y.yield_to(op);
    let after = y.step(TokenView::Operator(op)).step(TokenView::Number(number));
    let bottom_stays = y.stack.len() > 0 && !is_high(y.stack[0]);
    let top_yields = y.stack.len() > 0 && is_high(y.stack.last());
    reveal_with_fuel(Yard::yield_to, 3);
    assert(grown.take(grown.len() - 2) =~= e);
    assert(last_additive(grown) == p);
    assert(after.stack =~= if bottom_stays {
        seq![y.stack[0], op]
    } else {
        seq![op]
    });
    lemma_walk_push(m, yielded.output, TokenView::Number(number));
    if top_yields {
        assert(yielded.output =~= y.output.push(TokenView::Operator(y.stack.last())));
        lemma_walk_push(m, y.output, TokenView::Operator(y.stack.last()));
    } else {
        assert(yielded == y);
    }
    let s1 = walk(m, yielded.output)->Ok_0;
    if bottom_stays {
        let x = grown.take(grown.len() - 2).skip(p + 1);
        assert(x =~= e.skip(p + 1));
        assert(grown.take(p) =~= e.take(p));
        if top_yields {
            assert(s.take(s.len() - 2) =~= seq![s[0]]);
            assert(x.take(x.len() - 2) =~= e.take(n - 2).skip(p + 1));
            assert(s1 =~= seq![s[0], (m.apply)(y.stack[1], s[1], s[2])]);
        } else {
            assert(x =~= seq![e[n - 1]]);
        }
        assert(s1.push(number) =~= seq![infix_value(m, grown.take(p)), product_value(m, x), number]);
    } else {
        if top_yields {
            assert(s.take(s.len() - 2) =~= Seq::<N>::empty());
        }
        assert(s1 =~= seq![product_value(m, e)]);
        assert(s1.push(number) =~= seq![product_value(m, e), number]);
    }
}

/// The conversion stays settled when the expression grows by an operator
/// and a number.
proof fn lemma_settled_step<N>(
    m: NumberModel<N>,
    e: Seq<TokenView<N>>,
    y: Yard<N>,
    op: BinaryOp,
    number: N,
)
    requires
        is_infix(e),
        settled(m, e, y),
    ensures
        settled(
            m,
            e.push(TokenView::Operator(op)).push(TokenView::Number(number)),
            y.step(TokenView::Operator(op)).step(TokenView::Number(number)),
        ),
{
    if is_high(op) {
        lemma_settled_step_high(m, e, y, op, number);
    } else {
        lemma_settled_step_low(m, e, y, op, number);
    }
}

/// The conversion is settled after every infix expression.
proof fn lemma_infix_settled<N>(m: NumberModel<N>, items: Seq<TokenView<N>>)
    requires
        is_infix(items),
    ensures
        settled(m, items, yard(items)),
    decreases items.len(),
{
    if items.len() == 1 {
        let start = Yard::<N> { output: Seq::empty(), stack: Seq::empty() };
        assert(yard(items.drop_last()) == start);
        lemma_walk_push(m, Seq::<TokenView<N>>::empty(), items[0]);
    } else {
        let n = items.len() as int;
        let e = items.take(n - 2);
        lemma_infix_settled(m, e);
        let op = items[n - 2]->Operator_0;
        let number = items[n - 1]->Number_0;
        assert(items =~= e.push(TokenView::Operator(op)).push(TokenView::Number(number)));
        let shorter = items.drop_last();
        assert(shorter.drop_last() =~= e);
        assert(yard(items) == yard(shorter).step(items.last()));
        lemma_settled_step(m, e, yard(e), op, number);
    }
}

/// The postfix form of an infix expression has the value of the expression.
pub proof fn law_postfix_keeps_value<N>(m: NumberModel<N>, items: Seq<TokenView<N>>)
    requires
        is_infix(items),
    ensures
        postfix_value(m, shunting_yard(items)) == Ok::<N, ErrorView>(infix_value(m, items)),
{
    lemma_infix_settled(m, items);
    lemma_settled_value(m, items, yard(items));
}

/// A `CALC` expression whose tokens, once looked up, are numbers and
/// operators in turn has the value of that infix expression: `*` and `/`
/// before `+` and `-`, and equal ranks from left to right.
pub proof fn law_calc_value<N>(
    t: Table,
    m: NumberModel<N>,
    args: Seq<TokenView<N>>,
    items: Seq<TokenView<N>>,
)
    requires
        calc_items(t, m, args) == Ok::<Seq<TokenView<N>>, ErrorView>(items),
        is_infix(items),
    ensures
        calc_value(t, m, args) == Ok::<N, ErrorView>(infix_value(m, items)),
{
    law_postfix_keeps_value(m, items);
}

/// Whether no token of `tokens` is `THEN` or `ELSE`.
pub open spec fn is_plain<N>(tokens: Seq<TokenView<N>>) -> bool {
    forall|i: int| 0 <= i < tokens.len() ==> !(#[trigger] tokens[i] is Then || tokens[i] is Else)
}

/// The arguments of an `IF` with the condition `cond` and the branches
/// `first` and `second`.
pub open spec fn if_args<N>(
    cond: Seq<TokenView<N>>,
    first: Seq<TokenView<N>>,
    second: Seq<TokenView<N>>,
) -> Seq<TokenView<N>> {
    (cond.push(TokenView::Then) + first).push(TokenView::Else) + second
}

/// Tokens without `THEN` and `ELSE` are one segment.
proof fn lemma_segments_plain<N>(tokens: Seq<TokenView<N>>)
    requires
        is_plain(tokens),
    ensures
        segments(tokens) == seq![tokens],
    decreases tokens.len(),
{
    if tokens.len() == 0 {
        assert(tokens =~= Seq::<TokenView<N>>::empty());
    } else {
        let shorter = tokens.drop_last();
        lemma_segments_plain(shorter);
        assert(shorter.push(tokens.last()) =~= tokens);
    }
}

/// What follows the last `THEN` or `ELSE` is the last segment.
proof fn lemma_segments_append<N>(
    before: Seq<TokenView<N>>,
    separator: TokenView<N>,
    after: Seq<TokenView<N>>,
)
    requires
        separator is Then || separator is Else,
        is_plain(after),
    ensures
        segments(before.push(separator) + after) == segments(before).push(after),
    decreases after.len(),
{
    let all = before.push(separator) + after;
    if after.len() == 0 {
        assert(all.drop_last() =~= before);
        assert(after =~= Seq::<TokenView<N>>::empty());
    } else {
        let shorter = after.drop_last();
        lemma_segments_append(before, separator, shorter);
        assert(all.drop_last() =~= before.push(separator) + shorter);
        assert(shorter.push(after.last()) =~= after);
    }
}

/// An `IF` whose condition and branches hold neither `THEN` nor `ELSE`
/// parts into just these three, and has the value of the branch that its
/// condition picks: the first where the condition holds, the second where
/// it does not. A condition that fails is the failure of the `IF`.
pub proof fn law_if_picks_branch<N>(
    t: Table,
    m: NumberModel<N>,
    cond: Seq<TokenView<N>>,
    first: Seq<TokenView<N>>,
    second: Seq<TokenView<N>>,
)
    requires
        is_plain(cond),
        is_plain(first),
        is_plain(second),
    ensures
        segments(if_args(cond, first, second)) == seq![cond, first, second],
        if_value(t, m, if_args(cond, first, second)) == match condition(t, m, cond) {
            Err(e) => Err(e),
            Ok(truth) => branch_value(
                t,
                m,
                if truth {
                    first
                } else {
                    second
                },
            ),
        },
{
    lemma_segments_plain(cond);
    lemma_segments_append(cond, TokenView::Then, first);
    lemma_segments_append(cond.push(TokenView::Then) + first, TokenView::Else, second);
}

/// `AVG` divides the sum by the number of the count of the cells that
/// were summed: where `SUM` has a value, the length of the range is the
/// number of its cells.
pub proof fn law_avg_divides_by_cells_summed<N>(
    t: Table,
    m: NumberModel<N>,
    args: Seq<TokenView<N>>,
    cells: Seq<Seq<char>>,
    sum: N,
)
    requires
        args.len() == 2,
        t.range(args[0].pointer(), args[1].pointer()) == Ok::<Seq<Seq<char>>, ErrorView>(cells),
        total(m, cells) == Ok::<N, ErrorView>(sum),
    ensures
        sum_value(t, m, args) == Ok::<N, ErrorView>(sum),
        avg_value(t, m, args) == Ok::<N, ErrorView>(
            (m.apply)(BinaryOp::Div, sum, (m.count)(cells.len())),
        ),
{
    crate::csv::law_range_len(t, args[0].pointer(), args[1].pointer());
}

} // verus!
