//! Turning syntax trees back into query text.
use vstd::prelude::*;

use crate::bytes::{lemma_run_len, run_len, spec_fold, spec_is_digit, ByteClass};
use crate::common::{
    copy_bytes, digits_value, spec_integer_literal, spec_string_literal, Column, ColumnV, Literal,
    LiteralV, Operator,
};
use crate::condition::{
    spec_predicate_atom, view_base, view_expr, ConditionBase, ConditionExpression, ConditionTree,
    ExprV,
};
use crate::internal::IResult;

verus! {

/// The decimal digits of `n`, without leading zeros.
pub open spec fn decimal(n: nat) -> Seq<u8>
    decreases n,
{
    if n < 10 {
        seq![('0' as u8 + n) as u8]
    } else {
        decimal(n / 10) + seq![('0' as u8 + n % 10) as u8]
    }
}

pub open spec fn spec_operator_text(op: Operator) -> Seq<u8> {
    match op {
        Operator::Not => seq!['N' as u8, 'O' as u8, 'T' as u8],
        Operator::And => seq!['A' as u8, 'N' as u8, 'D' as u8],
        Operator::Or => seq!['O' as u8, 'R' as u8],
        Operator::Like => seq!['L' as u8, 'I' as u8, 'K' as u8, 'E' as u8],
        Operator::NotLike => seq![
            'N' as u8,
            'O' as u8,
            'T' as u8,
            '_' as u8,
            'L' as u8,
            'I' as u8,
            'K' as u8,
            'E' as u8,
        ],
        Operator::Equal => seq!['=' as u8],
        Operator::NotEqual => seq!['!' as u8, '=' as u8],
        Operator::Greater => seq!['>' as u8],
        Operator::GreaterOrEqual => seq!['>' as u8, '=' as u8],
        Operator::Less => seq!['<' as u8],
        Operator::LessOrEqual => seq!['<' as u8, '=' as u8],
        Operator::In => seq!['I' as u8, 'N' as u8],
    }
}

pub open spec fn spec_column_text(c: ColumnV) -> Seq<u8> {
    match c.table {
        Some(t) => t + seq!['.' as u8] + c.name,
        None => c.name,
    }
}

pub open spec fn spec_literal_text(l: LiteralV) -> Seq<u8> {
    match l {
        LiteralV::Integer(n) => if n < 0 {
            seq!['-' as u8] + decimal((-n) as nat)
        } else {
            decimal(n as nat)
        },
        LiteralV::String(s) => seq!['\'' as u8] + s + seq!['\'' as u8],
    }
}

/// The text of a condition: `<left> <operator> <right>` for a tree, `NOT
/// <operand>` for a negation, and a leaf's own text; no parentheses are added.
pub open spec fn spec_text(e: ExprV) -> Seq<u8>
    decreases e,
{
    match e {
        ExprV::Comparison(op, l, r) => spec_text(*l) + seq![' ' as u8] + spec_operator_text(op)
            + seq![' ' as u8] + spec_text(*r),
        ExprV::Logical(op, l, r) => spec_text(*l) + seq![' ' as u8] + spec_operator_text(op)
            + seq![' ' as u8] + spec_text(*r),
        ExprV::Negation(x) => seq!['N' as u8, 'O' as u8, 'T' as u8, ' ' as u8] + spec_text(*x),
        ExprV::Field(c) => spec_column_text(c),
        ExprV::Literal(l) => spec_literal_text(l),
        ExprV::Placeholder => seq!['?' as u8],
    }
}

fn push_bytes(out: &mut Vec<u8>, b: &Vec<u8>)
    ensures
        final(out)@ == old(out)@ + b@,
{
    let mut tmp = copy_bytes(b);
    out.append(&mut tmp);
}

fn push_decimal(out: &mut Vec<u8>, n: u64)
    ensures
        final(out)@ == old(out)@ + decimal(n as nat),
    decreases n,
{
    if n >= 10 {
        push_decimal(out, n / 10);
    }
    out.push('0' as u8 + (n % 10) as u8);
    proof {
        assert(final(out)@ =~= old(out)@ + decimal(n as nat));
    }
}

impl Operator {
    /// The operator's text: `AND`, `OR`, `=`, `!=`, `LIKE`, ...
    pub fn to_text(&self) -> (r: Vec<u8>)
        ensures
            r@ == spec_operator_text(*self),
    {
        match self {
            Operator::Not => vec!['N' as u8, 'O' as u8, 'T' as u8],
            Operator::And => vec!['A' as u8, 'N' as u8, 'D' as u8],
            Operator::Or => vec!['O' as u8, 'R' as u8],
            Operator::Like => vec!['L' as u8, 'I' as u8, 'K' as u8, 'E' as u8],
            Operator::NotLike => vec![
                'N' as u8,
                'O' as u8,
                'T' as u8,
                '_' as u8,
                'L' as u8,
                'I' as u8,
                'K' as u8,
                'E' as u8,
            ],
            Operator::Equal => vec!['=' as u8],
            Operator::NotEqual => vec!['!' as u8, '=' as u8],
            Operator::Greater => vec!['>' as u8],
            Operator::GreaterOrEqual => vec!['>' as u8, '=' as u8],
            Operator::Less => vec!['<' as u8],
            Operator::LessOrEqual => vec!['<' as u8, '=' as u8],
            Operator::In => vec!['I' as u8, 'N' as u8],
        }
    }
}

impl Column {
    /// `table.name`, or `name`.
    pub fn to_text(&self) -> (r: Vec<u8>)
        ensures
            r@ == spec_column_text(self@),
    {
        let mut out: Vec<u8> = Vec::new();
        if let Some(t) = &self.table {
            push_bytes(&mut out, t);
            out.push('.' as u8);
        }
        push_bytes(&mut out, &self.name);
        proof {
            assert(out@ =~= spec_column_text(self@));
        }
        out
    }
}

impl Literal {
    /// An integer in decimal, or a string between single quotes.
    pub fn to_text(&self) -> (r: Vec<u8>)
        ensures
            r@ == spec_literal_text(self@),
    {
        let mut out: Vec<u8> = Vec::new();
        match self {
            Literal::Integer(n) => {
                if *n < 0 {
                    out.push('-' as u8);
                    let m: u64 = if *n == i64::MIN {
                        9223372036854775808
                    } else {
                        (-*n) as u64
                    };
                    push_decimal(&mut out, m);
                } else {
                    push_decimal(&mut out, *n as u64);
                }
            },
            Literal::String(s) => {
                out.push('\'' as u8);
                push_bytes(&mut out, s);
                out.push('\'' as u8);
            },
        }
        proof {
            assert(out@ =~= spec_literal_text(self@));
        }
        out
    }
}

fn write_base(b: &ConditionBase, out: &mut Vec<u8>)
    ensures
        final(out)@ == old(out)@ + spec_text(view_base(*b)),
{
    match b {
        ConditionBase::Field(c) => {
            let mut t = c.to_text();
            out.append(&mut t);
        },
        ConditionBase::Literal(l) => {
            let mut t = l.to_text();
            out.append(&mut t);
        },
        ConditionBase::Placeholder => {
            out.push('?' as u8);
            proof {
                assert(final(out)@ =~= old(out)@ + spec_text(view_base(*b)));
            }
        },
    }
}

fn write_expr(e: &ConditionExpression, out: &mut Vec<u8>)
    ensures
        final(out)@ == old(out)@ + spec_text(e@),
    decreases e,
{
    match e {
        ConditionExpression::ComparisonOp(t) | ConditionExpression::LogicalOp(t) => {
            write_expr(&t.left, out);
            out.push(' ' as u8);
            let mut o = t.operator.to_text();
            out.append(&mut o);
            out.push(' ' as u8);
            write_expr(&t.right, out);
            proof {
                assert(final(out)@ =~= old(out)@ + spec_text(e@));
            }
        },
        ConditionExpression::NegationOp(x) => {
            let mut w = vec!['N' as u8, 'O' as u8, 'T' as u8, ' ' as u8];
            out.append(&mut w);
            write_expr(x, out);
            proof {
                assert(final(out)@ =~= old(out)@ + spec_text(e@));
            }
        },
        ConditionExpression::Base(b) => write_base(b, out),
    }
}

impl ConditionBase {
    /// The leaf's text: the column, the literal, or `?`.
    pub fn to_text(&self) -> (r: Vec<u8>)
        ensures
            r@ == spec_text(view_base(*self)),
    {
        let mut out: Vec<u8> = Vec::new();
        write_base(self, &mut out);
        proof {
            assert(out@ =~= spec_text(view_base(*self)));
        }
        out
    }
}

impl ConditionTree {
    /// `<left> <operator> <right>`.
    pub fn to_text(&self) -> (r: Vec<u8>)
        ensures
            r@ == spec_text(view_expr(*self.left)) + seq![' ' as u8] + spec_operator_text(
                self.operator,
            ) + seq![' ' as u8] + spec_text(view_expr(*self.right)),
    {
        let mut out: Vec<u8> = Vec::new();
        write_expr(&self.left, &mut out);
        out.push(' ' as u8);
        let mut o = self.operator.to_text();
        out.append(&mut o);
        out.push(' ' as u8);
        write_expr(&self.right, &mut out);
        proof {
            assert(out@ =~= spec_text(view_expr(*self.left)) + seq![' ' as u8] + spec_operator_text(
                self.operator,
            ) + seq![' ' as u8] + spec_text(view_expr(*self.right)));
        }
        out
    }
}

impl ConditionExpression {
    /// The condition as query text; parsing it again gives the same tree for
    /// the trees that the grammar produces without grouping parentheses.
    pub fn to_text(&self) -> (r: Vec<u8>)
        ensures
            r@ == spec_text(self@),
    {
        let mut out: Vec<u8> = Vec::new();
        write_expr(self, &mut out);
        proof {
            assert(out@ =~= spec_text(self@));
        }
        out
    }
}

/// Decimal text is all digits, and reads back as the number it was made from.
pub proof fn lemma_decimal(n: nat)
    ensures
        decimal(n).len() >= 1,
        forall|j: int| 0 <= j < decimal(n).len() ==> spec_is_digit(#[trigger] decimal(n)[j]),
        digits_value(decimal(n)) == n,
    decreases n,
{
    if n >= 10 {
        lemma_decimal(n / 10);
        let d = decimal(n);
        assert(d.drop_last() =~= decimal(n / 10));
        assert(n == (n / 10) * 10 + n % 10) by (nonlinear_arith);
        assert(d.last() == ('0' as u8 + n % 10) as u8);
        assert((d.last() - '0' as u8) as nat == n % 10);
        assert forall|j: int| 0 <= j < d.len() implies spec_is_digit(#[trigger] d[j]) by {
            if j < d.len() - 1 {
                assert(d[j] == decimal(n / 10)[j]);
            }
        }
    } else {
        assert(decimal(n).drop_last() =~= Seq::<u8>::empty());
        assert(digits_value(Seq::<u8>::empty()) == 0);
    }
}

proof fn lemma_digit_run(n: nat, rest: Seq<u8>)
    requires
        rest.len() == 0 || !spec_is_digit(rest[0]),
    ensures
        run_len(decimal(n) + rest, ByteClass::Digit) == decimal(n).len(),
        (decimal(n) + rest).subrange(0, decimal(n).len() as int) =~= decimal(n),
        (decimal(n) + rest).subrange(decimal(n).len() as int, (decimal(n) + rest).len() as int)
            =~= rest,
{
    lemma_decimal(n);
    let s = decimal(n) + rest;
    let k = decimal(n).len() as int;
    assert forall|j: int| 0 <= j < k implies crate::bytes::in_class(#[trigger] s[j], ByteClass::Digit) by {
        assert(s[j] == decimal(n)[j]);
    }
    if k < s.len() {
        assert(s[k] == rest[0]);
    }
    lemma_run_len(s, ByteClass::Digit, k);
}

/// The text of a literal is read back as that literal, where what follows it
/// cannot extend it: an `i64` followed by no digit, or a string without a quote in it.
pub proof fn law_literal_text_round_trip(l: LiteralV, rest: Seq<u8>)
    requires
        match l {
            LiteralV::Integer(n) => i64::MIN <= n <= i64::MAX && (rest.len() == 0
                || !spec_is_digit(rest[0])),
            LiteralV::String(s) => forall|j: int| 0 <= j < s.len() ==> #[trigger] s[j] != '\'' as u8,
        },
    ensures
        spec_predicate_atom(spec_literal_text(l) + rest) == IResult::<Seq<u8>, ExprV>::Done(
            rest,
            ExprV::Literal(l),
        ),
{
    let t = spec_literal_text(l) + rest;
    match l {
        LiteralV::Integer(n) => {
            if n < 0 {
                let m = (-n) as nat;
                lemma_decimal(m);
                lemma_digit_run(m, rest);
                assert(t.drop_first() =~= decimal(m) + rest);
                assert(t[0] == '-' as u8);
            } else {
                let m = n as nat;
                lemma_decimal(m);
                lemma_digit_run(m, rest);
                assert(t =~= decimal(m) + rest);
                assert(spec_is_digit(t[0]));
            }
            assert(spec_integer_literal(t) == IResult::<Seq<u8>, LiteralV>::Done(rest, l));
            assert(spec_fold(t[0], true) != spec_fold('?' as u8, true));
        },
        LiteralV::String(s) => {
            let body = t.drop_first();
            assert(body =~= s + seq!['\'' as u8] + rest);
            assert forall|j: int| 0 <= j < s.len() implies crate::bytes::in_class(
                #[trigger] body[j],
                ByteClass::NotQuote,
            ) by {
                assert(body[j] == s[j]);
            }
            assert(body[s.len() as int] == '\'' as u8);
            lemma_run_len(body, ByteClass::NotQuote, s.len() as int);
            assert(body.subrange(0, s.len() as int) =~= s);
            assert(body.subrange(s.len() + 1int, body.len() as int) =~= rest);
            assert(t[0] == '\'' as u8);
            assert(spec_string_literal(t) == IResult::<Seq<u8>, LiteralV>::Done(rest, l));
            assert(spec_fold(t[0], true) != spec_fold('?' as u8, true));
            assert(spec_fold(t[0], true) != spec_fold('-' as u8, true));
        },
    }
}

} // verus!
