//! Condition expressions: their syntax tree, their grammar, and the columns they name.
use vstd::prelude::*;

use crate::bytes::{required_ws, skip_ws, spec_required_ws, spec_skip_ws};
use crate::common::{
    binary_comparison_operator, column_identifier, integer_literal, kw, rest_within,
    spec_binary_comparison_operator, spec_column_identifier, spec_fail_after, spec_fail_as,
    spec_integer_literal, spec_kw, spec_string_literal, string_literal, Column, ColumnV, Keyword,
    Literal, LiteralV, Operator,
};
use crate::internal::{needed_after, spec_needed_after, IResult, Needed};

verus! {

/// A leaf of a condition.
#[derive(Debug, PartialEq, Eq, Hash, Clone)]
pub enum ConditionBase {
    Field(Column),
    Literal(Literal),
    Placeholder,
}

/// An operator applied to two owned operands.
#[derive(Debug, PartialEq, Eq, Hash)]
pub struct ConditionTree {
    pub operator: Operator,
    pub left: Box<ConditionExpression>,
    pub right: Box<ConditionExpression>,
}

/// A condition: a comparison, a conjunction or disjunction, a negation, or a leaf.
#[derive(Debug, PartialEq, Eq, Hash)]
pub enum ConditionExpression {
    ComparisonOp(ConditionTree),
    LogicalOp(ConditionTree),
    NegationOp(Box<ConditionExpression>),
    Base(ConditionBase),
}

/// The mathematical form of a condition.
pub enum ExprV {
    Comparison(Operator, Box<ExprV>, Box<ExprV>),
    Logical(Operator, Box<ExprV>, Box<ExprV>),
    Negation(Box<ExprV>),
    Field(ColumnV),
    Literal(LiteralV),
    Placeholder,
}

pub open spec fn view_base(b: ConditionBase) -> ExprV {
    match b {
        ConditionBase::Field(c) => ExprV::Field(c@),
        ConditionBase::Literal(l) => ExprV::Literal(l@),
        ConditionBase::Placeholder => ExprV::Placeholder,
    }
}

pub open spec fn view_expr(e: ConditionExpression) -> ExprV
    decreases e,
{
    match e {
        ConditionExpression::ComparisonOp(t) => ExprV::Comparison(
            t.operator,
            Box::new(view_expr(*t.left)),
            Box::new(view_expr(*t.right)),
        ),
        ConditionExpression::LogicalOp(t) => ExprV::Logical(
            t.operator,
            Box::new(view_expr(*t.left)),
            Box::new(view_expr(*t.right)),
        ),
        ConditionExpression::NegationOp(inner) => ExprV::Negation(Box::new(view_expr(*inner))),
        ConditionExpression::Base(b) => view_base(b),
    }
}

impl View for ConditionExpression {
    type V = ExprV;

    open spec fn view(&self) -> ExprV {
        view_expr(*self)
    }
}

/// A leaf: `?`, an integer, a quoted string, or a column, tried in that order.
pub open spec fn spec_predicate_atom(s: Seq<u8>) -> IResult<Seq<u8>, ExprV> {
    if s.len() == 0 {
        IResult::Incomplete(Needed::Size(1))
    } else {
        spec_predicate_leaf(s)
    }
}

/// The leaf alternatives on input that has at least one byte.
pub open spec fn spec_predicate_leaf(s: Seq<u8>) -> IResult<Seq<u8>, ExprV> {
    match spec_kw(s, Keyword::Question) {
        IResult::Done(r, _) => IResult::Done(r, ExprV::Placeholder),
        _ => match spec_integer_literal(s) {
            IResult::Done(r, l) => IResult::Done(r, ExprV::Literal(l)),
            _ => match spec_string_literal(s) {
                IResult::Done(r, l) => IResult::Done(r, ExprV::Literal(l)),
                _ => match spec_column_identifier(s) {
                    IResult::Done(r, c) => IResult::Done(r, ExprV::Field(c)),
                    other => spec_fail_as(other),
                },
            },
        },
    }
}

fn predicate_atom<'a>(i: &'a [u8]) -> (r: IResult<&'a [u8], ConditionExpression>)
    ensures
        r@ == spec_predicate_atom(i@),
        rest_within(r@, i@),
{
    if i.len() == 0 {
        return IResult::Incomplete(Needed::Size(1));
    }
    if let IResult::Done(r, _) = kw(i, Keyword::Question) {
        return IResult::Done(r, ConditionExpression::Base(ConditionBase::Placeholder));
    }
    if let IResult::Done(r, l) = integer_literal(i) {
        return IResult::Done(r, ConditionExpression::Base(ConditionBase::Literal(l)));
    }
    if let IResult::Done(r, l) = string_literal(i) {
        return IResult::Done(r, ConditionExpression::Base(ConditionBase::Literal(l)));
    }
    match column_identifier(i) {
        IResult::Done(r, c) => IResult::Done(r, ConditionExpression::Base(ConditionBase::Field(c))),
        IResult::Error(e) => IResult::Error(e),
        IResult::Incomplete(n) => IResult::Incomplete(n),
    }
}

/// A leaf with optional whitespace on both sides.
pub open spec fn spec_predicate(s: Seq<u8>) -> IResult<Seq<u8>, ExprV> {
    let t = spec_skip_ws(s);
    match spec_predicate_atom(t) {
        IResult::Done(r, e) => IResult::Done(spec_skip_ws(r), e),
        other => spec_fail_after(other, s.len() - t.len()),
    }
}

fn predicate<'a>(i: &'a [u8]) -> (r: IResult<&'a [u8], ConditionExpression>)
    ensures
        r@ == spec_predicate(i@),
        rest_within(r@, i@),
{
    let t = skip_ws(i);
    match predicate_atom(t) {
        IResult::Done(r, e) => IResult::Done(skip_ws(r), e),
        IResult::Error(e) => IResult::Error(e),
        IResult::Incomplete(n) => IResult::Incomplete(needed_after(i.len() - t.len(), n)),
    }
}

/// One comparison between two leaves.
pub open spec fn spec_boolean_primary(s: Seq<u8>) -> IResult<Seq<u8>, ExprV> {
    match spec_predicate(s) {
        IResult::Done(r1, left) => {
            let r2 = spec_skip_ws(r1);
            match spec_binary_comparison_operator(r2) {
                IResult::Done(r3, op) => {
                    let r4 = spec_skip_ws(r3);
                    match spec_predicate(r4) {
                        IResult::Done(r5, right) => IResult::Done(
                            r5,
                            ExprV::Comparison(op, Box::new(left), Box::new(right)),
                        ),
                        other => spec_fail_after(other, s.len() - r4.len()),
                    }
                },
                other => spec_fail_after(other, s.len() - r2.len()),
            }
        },
        other => other,
    }
}

fn boolean_primary<'a>(i: &'a [u8]) -> (r: IResult<&'a [u8], ConditionExpression>)
    ensures
        r@ == spec_boolean_primary(i@),
        rest_within(r@, i@),
{
    match predicate(i) {
        IResult::Done(r1, left) => {
            let r2 = skip_ws(r1);
            match binary_comparison_operator(r2) {
                IResult::Done(r3, op) => {
                    let r4 = skip_ws(r3);
                    match predicate(r4) {
                        IResult::Done(r5, right) => IResult::Done(
                            r5,
                            ConditionExpression::ComparisonOp(
                                ConditionTree {
                                    operator: op,
                                    left: Box::new(left),
                                    right: Box::new(right),
                                },
                            ),
                        ),
                        IResult::Error(e) => IResult::Error(e),
                        IResult::Incomplete(n) => IResult::Incomplete(
                            needed_after(i.len() - r4.len(), n),
                        ),
                    }
                },
                IResult::Error(e) => IResult::Error(e),
                IResult::Incomplete(n) => IResult::Incomplete(needed_after(i.len() - r2.len(), n)),
            }
        },
        other => other,
    }
}

/// `NOT`, whitespace and a negated operand; else a comparison. A mismatch
/// tries the comparison; input that ends inside the first branch asks for more.
pub open spec fn spec_not_expr(s: Seq<u8>) -> IResult<Seq<u8>, ExprV>
    decreases s.len(), 1nat,
{
    let fallback = spec_boolean_primary(s);
    match spec_kw(s, Keyword::Not) {
        IResult::Done(r1, _) => match spec_required_ws(r1) {
            IResult::Done(r2, _) => if r2.len() < s.len() {
                match spec_parenthetical_expr(r2) {
                    IResult::Done(r3, e) => IResult::Done(r3, ExprV::Negation(Box::new(e))),
                    IResult::Error(_) => fallback,
                    IResult::Incomplete(n) => IResult::Incomplete(
                        spec_needed_after(s.len() - r2.len(), n),
                    ),
                }
            } else {
                fallback
            },
            IResult::Error(_) => fallback,
            IResult::Incomplete(n) => IResult::Incomplete(spec_needed_after(s.len() - r1.len(), n)),
        },
        IResult::Error(_) => fallback,
        IResult::Incomplete(n) => IResult::Incomplete(n),
    }
}

/// A condition in parentheses, with optional whitespace after; else a `NOT`
/// rule. A mismatch tries the `NOT` rule; input that ends inside the
/// parentheses asks for more.
pub open spec fn spec_parenthetical_expr(s: Seq<u8>) -> IResult<Seq<u8>, ExprV>
    decreases s.len(), 2nat,
{
    let fallback = spec_not_expr(s);
    match spec_kw(s, Keyword::OpenParen) {
        IResult::Done(r1, _) => if r1.len() < s.len() {
            match spec_condition_expr(r1) {
                IResult::Done(r2, e) => match spec_kw(r2, Keyword::CloseParen) {
                    IResult::Done(r3, _) => IResult::Done(spec_skip_ws(r3), e),
                    IResult::Error(_) => fallback,
                    IResult::Incomplete(n) => IResult::Incomplete(
                        spec_needed_after(s.len() - r2.len(), n),
                    ),
                },
                IResult::Error(_) => fallback,
                IResult::Incomplete(n) => IResult::Incomplete(
                    spec_needed_after(s.len() - r1.len(), n),
                ),
            }
        } else {
            fallback
        },
        IResult::Error(_) => fallback,
        IResult::Incomplete(n) => IResult::Incomplete(n),
    }
}

/// An operand, `AND`, whitespace and a conjunction: the chain nests to the
/// right. Where the input ends right after an operand, the operand ends the
/// conjunction; where it ends inside `AND` or what follows it, more is asked for.
pub open spec fn spec_and_expr(s: Seq<u8>) -> IResult<Seq<u8>, ExprV>
    decreases s.len(), 3nat,
{
    let first = spec_parenthetical_expr(s);
    match first {
        IResult::Done(r1, left) => {
            let r2 = spec_skip_ws(r1);
            match spec_kw(r2, Keyword::And) {
                IResult::Done(r3, _) => match spec_required_ws(r3) {
                    IResult::Done(r4, _) => if r4.len() < s.len() {
                        match spec_and_expr(r4) {
                            IResult::Done(r5, right) => IResult::Done(
                                r5,
                                ExprV::Logical(Operator::And, Box::new(left), Box::new(right)),
                            ),
                            IResult::Error(_) => first,
                            IResult::Incomplete(n) => IResult::Incomplete(
                                spec_needed_after(s.len() - r4.len(), n),
                            ),
                        }
                    } else {
                        first
                    },
                    IResult::Error(_) => first,
                    IResult::Incomplete(n) => IResult::Incomplete(
                        spec_needed_after(s.len() - r3.len(), n),
                    ),
                },
                IResult::Error(_) => first,
                IResult::Incomplete(n) => if r2.len() == 0 {
                    first
                } else {
                    IResult::Incomplete(spec_needed_after(s.len() - r2.len(), n))
                },
            }
        },
        _ => first,
    }
}

/// A conjunction, `OR`, whitespace and a condition: the chain nests to the
/// right. Where the input ends right after a conjunction, it ends the
/// condition; where it ends inside `OR` or what follows it, more is asked for.
pub open spec fn spec_condition_expr(s: Seq<u8>) -> IResult<Seq<u8>, ExprV>
    decreases s.len(), 4nat,
{
    let first = spec_and_expr(s);
    match first {
        IResult::Done(r1, left) => {
            let r2 = spec_skip_ws(r1);
            match spec_kw(r2, Keyword::Or) {
                IResult::Done(r3, _) => match spec_required_ws(r3) {
                    IResult::Done(r4, _) => if r4.len() < s.len() {
                        match spec_condition_expr(r4) {
                            IResult::Done(r5, right) => IResult::Done(
                                r5,
                                ExprV::Logical(Operator::Or, Box::new(left), Box::new(right)),
                            ),
                            IResult::Error(_) => first,
                            IResult::Incomplete(n) => IResult::Incomplete(
                                spec_needed_after(s.len() - r4.len(), n),
                            ),
                        }
                    } else {
                        first
                    },
                    IResult::Error(_) => first,
                    IResult::Incomplete(n) => IResult::Incomplete(
                        spec_needed_after(s.len() - r3.len(), n),
                    ),
                },
                IResult::Error(_) => first,
                IResult::Incomplete(n) => if r2.len() == 0 {
                    first
                } else {
                    IResult::Incomplete(spec_needed_after(s.len() - r2.len(), n))
                },
            }
        },
        _ => first,
    }
}

/// Parses `NOT` and a negated operand, or else one comparison.
pub fn not_expr<'a>(i: &'a [u8]) -> (r: IResult<&'a [u8], ConditionExpression>)
    ensures
        r@ == spec_not_expr(i@),
        rest_within(r@, i@),
    decreases i@.len(), 1nat,
{
    match kw(i, Keyword::Not) {
        IResult::Done(r1, _) => match required_ws(r1) {
            IResult::Done(r2, _) => match parenthetical_expr(r2) {
                IResult::Done(r3, e) => {
                    return IResult::Done(r3, ConditionExpression::NegationOp(Box::new(e)));
                },
                IResult::Error(_) => {},
                IResult::Incomplete(n) => {
                    return IResult::Incomplete(needed_after(i.len() - r2.len(), n));
                },
            },
            IResult::Error(_) => {},
            IResult::Incomplete(n) => {
                return IResult::Incomplete(needed_after(i.len() - r1.len(), n));
            },
        },
        IResult::Error(_) => {},
        IResult::Incomplete(n) => {
            return IResult::Incomplete(n);
        },
    }
    boolean_primary(i)
}

/// Parses a parenthesized condition, or else a `NOT` rule.
pub fn parenthetical_expr<'a>(i: &'a [u8]) -> (r: IResult<&'a [u8], ConditionExpression>)
    ensures
        r@ == spec_parenthetical_expr(i@),
        rest_within(r@, i@),
    decreases i@.len(), 2nat,
{
    match kw(i, Keyword::OpenParen) {
        IResult::Done(r1, _) => match condition_expr(r1) {
            IResult::Done(r2, e) => match kw(r2, Keyword::CloseParen) {
                IResult::Done(r3, _) => {
                    return IResult::Done(skip_ws(r3), e);
                },
                IResult::Error(_) => {},
                IResult::Incomplete(n) => {
                    return IResult::Incomplete(needed_after(i.len() - r2.len(), n));
                },
            },
            IResult::Error(_) => {},
            IResult::Incomplete(n) => {
                return IResult::Incomplete(needed_after(i.len() - r1.len(), n));
            },
        },
        IResult::Error(_) => {},
        IResult::Incomplete(n) => {
            return IResult::Incomplete(n);
        },
    }
    not_expr(i)
}

/// Parses a conjunction of one or more operands.
pub fn and_expr<'a>(i: &'a [u8]) -> (r: IResult<&'a [u8], ConditionExpression>)
    ensures
        r@ == spec_and_expr(i@),
        rest_within(r@, i@),
    decreases i@.len(), 3nat,
{
    match parenthetical_expr(i) {
        IResult::Done(r1, left) => {
            let r2 = skip_ws(r1);
            match kw(r2, Keyword::And) {
                IResult::Done(r3, _) => match required_ws(r3) {
                    IResult::Done(r4, _) => match and_expr(r4) {
                        IResult::Done(r5, right) => IResult::Done(
                            r5,
                            ConditionExpression::LogicalOp(
                                ConditionTree {
                                    operator: Operator::And,
                                    left: Box::new(left),
                                    right: Box::new(right),
                                },
                            ),
                        ),
                        IResult::Error(_) => IResult::Done(r1, left),
                        IResult::Incomplete(n) => IResult::Incomplete(
                            needed_after(i.len() - r4.len(), n),
                        ),
                    },
                    IResult::Error(_) => IResult::Done(r1, left),
                    IResult::Incomplete(n) => IResult::Incomplete(
                        needed_after(i.len() - r3.len(), n),
                    ),
                },
                IResult::Error(_) => IResult::Done(r1, left),
                IResult::Incomplete(n) => if r2.len() == 0 {
                    IResult::Done(r1, left)
                } else {
                    IResult::Incomplete(needed_after(i.len() - r2.len(), n))
                },
            }
        },
        other => other,
    }
}

/// Parses a conditional expression into a condition tree: a disjunction of
/// one or more conjunctions.
pub fn condition_expr<'a>(i: &'a [u8]) -> (r: IResult<&'a [u8], ConditionExpression>)
    ensures
        r@ == spec_condition_expr(i@),
        rest_within(r@, i@),
    decreases i@.len(), 4nat,
{
    match and_expr(i) {
        IResult::Done(r1, left) => {
            let r2 = skip_ws(r1);
            match kw(r2, Keyword::Or) {
                IResult::Done(r3, _) => match required_ws(r3) {
                    IResult::Done(r4, _) => match condition_expr(r4) {
                        IResult::Done(r5, right) => IResult::Done(
                            r5,
                            ConditionExpression::LogicalOp(
                                ConditionTree {
                                    operator: Operator::Or,
                                    left: Box::new(left),
                                    right: Box::new(right),
                                },
                            ),
                        ),
                        IResult::Error(_) => IResult::Done(r1, left),
                        IResult::Incomplete(n) => IResult::Incomplete(
                            needed_after(i.len() - r4.len(), n),
                        ),
                    },
                    IResult::Error(_) => IResult::Done(r1, left),
                    IResult::Incomplete(n) => IResult::Incomplete(
                        needed_after(i.len() - r3.len(), n),
                    ),
                },
                IResult::Error(_) => IResult::Done(r1, left),
                IResult::Incomplete(n) => if r2.len() == 0 {
                    IResult::Done(r1, left)
                } else {
                    IResult::Incomplete(needed_after(i.len() - r2.len(), n))
                },
            }
        },
        other => other,
    }
}

} // verus!

verus! {

/// The columns that a walk from a tree node reaches: a field child is taken,
/// a comparison or logical child is walked into, and any other child (a
/// literal, a placeholder, a negation) is left alone.
pub open spec fn spec_columns(e: ExprV) -> Set<ColumnV>
    decreases e,
{
    match e {
        ExprV::Field(c) => set![c],
        ExprV::Comparison(_, l, r) => spec_columns(*l).union(spec_columns(*r)),
        ExprV::Logical(_, l, r) => spec_columns(*l).union(spec_columns(*r)),
        _ => Set::empty(),
    }
}

/// The columns that a sequence of columns holds.
pub open spec fn column_set(v: Seq<Column>) -> Set<ColumnV> {
    Set::new(|c: ColumnV| exists|j: int| 0 <= j < v.len() && #[trigger] v[j]@ == c)
}

/// No column occurs twice.
pub open spec fn distinct_columns(v: Seq<Column>) -> bool {
    forall|j: int, k: int| 0 <= j < v.len() && 0 <= k < v.len() && j != k ==> #[trigger] v[j]@
        != #[trigger] v[k]@
}

fn add_column(out: &mut Vec<Column>, c: &Column)
    requires
        distinct_columns(old(out)@),
    ensures
        distinct_columns(final(out)@),
        column_set(final(out)@) == column_set(old(out)@).insert(c@),
{
    let mut k: usize = 0;
    while k < out.len()
        invariant
            k <= out@.len(),
            out@ == old(out)@,
            distinct_columns(out@),
            forall|j: int| 0 <= j < k ==> (#[trigger] out@[j])@ != c@,
        decreases out@.len() - k,
    {
        if out[k].same_as(c) {
            proof {
                assert(column_set(out@) =~= column_set(out@).insert(c@));
            }
            return;
        }
        k = k + 1;
    }
    let ghost before = out@;
    out.push(c.duplicate());
    proof {
        assert forall|x: ColumnV| #[trigger] column_set(out@).contains(x) == column_set(
            before,
        ).insert(c@).contains(x) by {
            if column_set(out@).contains(x) {
                let j = choose|j: int| 0 <= j < out@.len() && #[trigger] out@[j]@ == x;
                if j < before.len() {
                    assert(before[j]@ == x);
                }
            }
            if column_set(before).contains(x) {
                let j = choose|j: int| 0 <= j < before.len() && #[trigger] before[j]@ == x;
                assert(out@[j]@ == x);
            }
            if x == c@ {
                assert(out@[before.len() as int]@ == x);
            }
        }
        assert(column_set(out@) =~= column_set(before).insert(c@));
    }
}

fn collect_columns(e: &ConditionExpression, out: &mut Vec<Column>)
    requires
        distinct_columns(old(out)@),
    ensures
        distinct_columns(final(out)@),
        column_set(final(out)@) == column_set(old(out)@).union(spec_columns(e@)),
    decreases e,
{
    match e {
        ConditionExpression::Base(ConditionBase::Field(c)) => {
            add_column(out, c);
            proof {
                assert(column_set(old(out)@).insert(c@) =~= column_set(old(out)@).union(set![c@]));
            }
        },
        ConditionExpression::ComparisonOp(t) | ConditionExpression::LogicalOp(t) => {
            collect_columns(&t.left, out);
            collect_columns(&t.right, out);
            proof {
                assert(column_set(final(out)@) =~= column_set(old(out)@).union(spec_columns(e@)));
            }
        },
        _ => {
            proof {
                assert(column_set(old(out)@) =~= column_set(old(out)@).union(spec_columns(e@)));
            }
        },
    }
}

impl ConditionTree {
    /// The columns named in this tree, each once.
    pub open spec fn spec_contained_columns(&self) -> Set<ColumnV> {
        spec_columns(view_expr(*self.left)).union(spec_columns(view_expr(*self.right)))
    }

    /// The columns that the tree names outside any negation: every column is
    /// reported once, in no particular order.
    pub fn contained_columns(&self) -> (r: Vec<Column>)
        ensures
            column_set(r@) == self.spec_contained_columns(),
            distinct_columns(r@),
    {
        let mut s: Vec<Column> = Vec::new();
        proof {
            assert(column_set(s@) =~= Set::empty());
        }
        collect_columns(&self.left, &mut s);
        collect_columns(&self.right, &mut s);
        proof {
            assert(column_set(s@) =~= self.spec_contained_columns());
        }
        s
    }
}

} // verus!

verus! {

impl Literal {
    /// A copy of the literal.
    pub fn duplicate(&self) -> (r: Literal)
        ensures
            r@ == self@,
    {
        match self {
            Literal::Integer(n) => Literal::Integer(*n),
            Literal::String(s) => Literal::String(crate::common::copy_bytes(s)),
        }
    }
}

impl ConditionBase {
    /// A copy of the leaf.
    pub fn duplicate(&self) -> (r: ConditionBase)
        ensures
            view_base(r) == view_base(*self),
    {
        match self {
            ConditionBase::Field(c) => ConditionBase::Field(c.duplicate()),
            ConditionBase::Literal(l) => ConditionBase::Literal(l.duplicate()),
            ConditionBase::Placeholder => ConditionBase::Placeholder,
        }
    }
}

fn duplicate_expr(e: &ConditionExpression) -> (r: ConditionExpression)
    ensures
        r@ == e@,
    decreases e,
{
    match e {
        ConditionExpression::ComparisonOp(t) => ConditionExpression::ComparisonOp(
            ConditionTree {
                operator: t.operator,
                left: Box::new(duplicate_expr(&t.left)),
                right: Box::new(duplicate_expr(&t.right)),
            },
        ),
        ConditionExpression::LogicalOp(t) => ConditionExpression::LogicalOp(
            ConditionTree {
                operator: t.operator,
                left: Box::new(duplicate_expr(&t.left)),
                right: Box::new(duplicate_expr(&t.right)),
            },
        ),
        ConditionExpression::NegationOp(x) => ConditionExpression::NegationOp(
            Box::new(duplicate_expr(x)),
        ),
        ConditionExpression::Base(b) => ConditionExpression::Base(b.duplicate()),
    }
}

impl ConditionExpression {
    /// A copy of the whole condition, node for node.
    pub fn duplicate(&self) -> (r: ConditionExpression)
        ensures
            r@ == self@,
    {
        duplicate_expr(self)
    }
}

impl ConditionTree {
    /// A copy of the tree, node for node.
    pub fn duplicate(&self) -> (r: ConditionTree)
        ensures
            r.operator == self.operator,
            view_expr(*r.left) == view_expr(*self.left),
            view_expr(*r.right) == view_expr(*self.right),
    {
        ConditionTree {
            operator: self.operator,
            left: Box::new(duplicate_expr(&self.left)),
            right: Box::new(duplicate_expr(&self.right)),
        }
    }
}

} // verus!
