//! The numbers of a formula. The library computes with a number type `N` of
//! the caller's choice and reaches it through five primitive operations only:
//! reading a number from text, combining two numbers, ordering two numbers,
//! turning a count into a number, and writing a number as text.
use vstd::prelude::*;
use crate::csv::exprs::BinaryOp;

verus! {

/// How two numbers stand to each other.
#[derive(Clone, Copy, Debug, PartialEq, Eq, Structural)]
pub enum Relation {
    Less,
    Equal,
    Greater,
    /// Neither is less than, equal to, or greater than the other.
    Unordered,
}

/// The five primitive operations as mathematical functions.
#[verifier::reject_recursive_types(N)]
pub struct NumberModel<N> {
    /// The number that a text writes, if it writes one.
    pub parse: spec_fn(Seq<char>) -> Option<N>,
    /// The result of an operator on a left and a right operand.
    pub apply: spec_fn(BinaryOp, N, N) -> N,
    /// How a left number stands to a right number.
    pub order: spec_fn(N, N) -> Relation,
    /// The number that stands for a count.
    pub count: spec_fn(nat) -> N,
    /// The text that writes a number.
    pub show: spec_fn(N) -> Seq<char>,
}

/// The five primitive operations as functions to call, with the model that
/// they follow.
#[verifier::reject_recursive_types(N)]
pub struct Numbers<N, P, A, O, C, S> {
    pub parse: P,
    pub apply: A,
    pub order: O,
    pub count: C,
    pub show: S,
    pub model: Ghost<NumberModel<N>>,
}

impl<N, P, A, O, C, S> Numbers<N, P, A, O, C, S> where
    N: Copy,
    P: Fn(&str) -> Option<N>,
    A: Fn(BinaryOp, N, N) -> N,
    O: Fn(N, N) -> Relation,
    C: Fn(usize) -> N,
    S: Fn(N) -> String,
 {
    /// Whether the five functions accept every input and return what `m` says.
    pub open spec fn follow(parse: P, apply: A, order: O, count: C, show: S, m: NumberModel<N>) -> bool {
        &&& forall|text: &str| #[trigger] call_requires(parse, (text,))
        &&& forall|text: &str, r: Option<N>| #[trigger]
            call_ensures(parse, (text,), r) ==> r == (m.parse)(text@)
        &&& forall|op: BinaryOp, left: N, right: N| #[trigger] call_requires(apply, (op, left, right))
        &&& forall|op: BinaryOp, left: N, right: N, r: N| #[trigger]
            call_ensures(apply, (op, left, right), r) ==> r == (m.apply)(op, left, right)
        &&& forall|left: N, right: N| #[trigger] call_requires(order, (left, right))
        &&& forall|left: N, right: N, r: Relation| #[trigger]
            call_ensures(order, (left, right), r) ==> r == (m.order)(left, right)
        &&& forall|k: usize| #[trigger] call_requires(count, (k,))
        &&& forall|k: usize, r: N| #[trigger]
            call_ensures(count, (k,), r) ==> r == (m.count)(k as nat)
        &&& forall|n: N| #[trigger] call_requires(show, (n,))
        &&& forall|n: N, r: String| #[trigger] call_ensures(show, (n,), r) ==> r@ == (m.show)(n)
    }

    /// The functions of the bundle follow its model.
    pub open spec fn wf(&self) -> bool {
        Self::follow(self.parse, self.apply, self.order, self.count, self.show, self.model@)
    }

    /// The model of the bundle.
    pub open spec fn model(&self) -> NumberModel<N> {
        self.model@
    }

    /// Bundles five functions that follow some model. Code that is verified
    /// can name the model by building the bundle from its fields instead.
    pub fn new(parse: P, apply: A, order: O, count: C, show: S) -> (r: Self)
        requires
            exists|m: NumberModel<N>| Self::follow(parse, apply, order, count, show, m),
        ensures
            r.wf(),
            r.parse == parse,
            r.apply == apply,
            r.order == order,
            r.count == count,
            r.show == show,
    {
        let ghost m = choose|m: NumberModel<N>| Self::follow(parse, apply, order, count, show, m);
        Numbers { parse, apply, order, count, show, model: Ghost(m) }
    }

    /// Reads a number from `text`.
    pub fn parse_text(&self, text: &str) -> (r: Option<N>)
        requires
            self.wf(),
        ensures
            r == (self.model().parse)(text@),
    {
        (self.parse)(text)
    }

    /// Applies `op` to a left and a right operand.
    pub fn apply_op(&self, op: BinaryOp, left: N, right: N) -> (r: N)
        requires
            self.wf(),
        ensures
            r == (self.model().apply)(op, left, right),
    {
        (self.apply)(op, left, right)
    }

    /// Orders a left and a right number.
    pub fn order_of(&self, left: N, right: N) -> (r: Relation)
        requires
            self.wf(),
        ensures
            r == (self.model().order)(left, right),
    {
        (self.order)(left, right)
    }

    /// The number that stands for the count `k`.
    pub fn count_of(&self, k: usize) -> (r: N)
        requires
            self.wf(),
        ensures
            r == (self.model().count)(k as nat),
    {
        (self.count)(k)
    }

    /// Writes `n` as text.
    pub fn show_number(&self, n: N) -> (r: String)
        requires
            self.wf(),
        ensures
            r@ == (self.model().show)(n),
    {
        (self.show)(n)
    }
}

} // verus!
