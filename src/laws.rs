//! Properties of the condition grammar: the text of a condition parses back
//! to it, for conditions in the shape that the grammar gives without
//! parentheses; and every parsed condition puts each operator in a node of
//! its kind.
use vstd::prelude::*;

use crate::bytes::{
    in_class, lemma_run_len, spec_fold, spec_is_alpha, spec_is_digit, spec_multispace,
    spec_skip_ws, spec_tag_with, ByteClass,
};
use crate::common::{
    spec_binary_comparison_operator, spec_column_identifier, spec_comparison_entry,
    spec_comparison_from, spec_identifier, spec_integer_literal, spec_string_literal,
    ColumnV, Keyword, LiteralV, Operator,
};
use crate::condition::{
    spec_and_expr, spec_boolean_primary, spec_condition_expr, spec_not_expr,
    spec_parenthetical_expr, spec_predicate, spec_predicate_atom, ExprV,
};
use crate::internal::IResult;
use crate::text::{law_literal_text_round_trip, spec_operator_text, spec_text};

verus! {

/// Text that begins with `NOT`, in any case.
pub open spec fn starts_with_not(t: Seq<u8>) -> bool {
    t.len() >= 3 && spec_fold(t[0], true) == 'n' as u8 && spec_fold(t[1], true) == 'o' as u8
        && spec_fold(t[2], true) == 't' as u8
}

/// A name that reads back as a column name: identifier bytes, starting with a
/// letter or `_`, and not with `not` (which could be read as `NOT`).
pub open spec fn plain_name(s: Seq<u8>) -> bool {
    &&& s.len() > 0
    &&& forall|j: int| 0 <= j < s.len() ==> in_class(#[trigger] s[j], ByteClass::Ident)
    &&& spec_is_alpha(s[0]) || s[0] == '_' as u8
    &&& !starts_with_not(s)
}

/// A leaf whose text reads back as itself.
pub open spec fn plain_leaf(e: ExprV) -> bool {
    match e {
        ExprV::Field(c) => plain_name(c.name) && match c.table {
            Some(t) => plain_name(t),
            None => true,
        },
        ExprV::Literal(LiteralV::Integer(n)) => i64::MIN <= n <= i64::MAX,
        ExprV::Literal(LiteralV::String(s)) => forall|j: int|
            0 <= j < s.len() ==> #[trigger] s[j] != '\'' as u8,
        ExprV::Placeholder => true,
        _ => false,
    }
}

pub open spec fn is_comparison_operator(op: Operator) -> bool {
    op != Operator::And && op != Operator::Or && op != Operator::Not
}

/// A comparison of two plain leaves, under zero or more negations.
pub open spec fn plain_unary(e: ExprV) -> bool
    decreases e,
{
    match e {
        ExprV::Comparison(op, l, r) => is_comparison_operator(op) && plain_leaf(*l) && plain_leaf(
            *r,
        ),
        ExprV::Negation(x) => plain_unary(*x),
        _ => false,
    }
}

/// A chain of `AND`s nested to the right, over plain operands.
pub open spec fn plain_conjunction(e: ExprV) -> bool
    decreases e,
{
    match e {
        ExprV::Logical(Operator::And, l, r) => plain_unary(*l) && plain_conjunction(*r),
        _ => plain_unary(e),
    }
}

/// A chain of `OR`s nested to the right, over plain conjunctions: the shape
/// that the grammar gives to text without parentheses.
pub open spec fn plain_condition(e: ExprV) -> bool
    decreases e,
{
    match e {
        ExprV::Logical(Operator::Or, l, r) => plain_conjunction(*l) && plain_condition(*r),
        _ => plain_conjunction(e),
    }
}

proof fn lemma_one_space(s: Seq<u8>)
    requires
        s.len() >= 2,
        s[0] == ' ' as u8,
        !crate::bytes::spec_is_space(s[1]),
    ensures
        spec_skip_ws(s) =~= s.drop_first(),
        spec_multispace(s) == IResult::<Seq<u8>, Seq<u8>>::Done(s.drop_first(), seq![' ' as u8]),
{
    lemma_run_len(s, ByteClass::Space, 1);
    assert(s.subrange(0, 1) =~= seq![' ' as u8]);
}

proof fn lemma_no_space(s: Seq<u8>)
    requires
        s.len() == 0 || !crate::bytes::spec_is_space(s[0]),
    ensures
        spec_skip_ws(s) =~= s,
{
    lemma_run_len(s, ByteClass::Space, 0);
}

/// A literal match on input that starts with the literal, up to case.
proof fn lemma_tag_hit(s: Seq<u8>, lit: Seq<u8>)
    requires
        lit.len() <= s.len(),
        forall|j: int| 0 <= j < lit.len() ==> #[trigger] spec_fold(s[j], true) == spec_fold(lit[j], true),
    ensures
        spec_tag_with(s, lit, true) == IResult::<Seq<u8>, Seq<u8>>::Done(
            s.subrange(lit.len() as int, s.len() as int),
            s.subrange(0, lit.len() as int),
        ),
{
}

/// A literal match on input that differs from the literal at byte `j`.
proof fn lemma_tag_miss(s: Seq<u8>, lit: Seq<u8>, j: int)
    requires
        0 <= j < s.len(),
        j < lit.len(),
        spec_fold(s[j], true) != spec_fold(lit[j], true),
    ensures
        spec_tag_with(s, lit, true) is Error,
{
}

/// Text that follows an operand at the unary level: nothing, or a space and
/// `AND` or `OR`.
pub open spec fn unary_follow(rest: Seq<u8>) -> bool {
    rest.len() == 0 || (rest.len() >= 4 && rest[0] == ' ' as u8 && ((spec_fold(rest[1], true)
        == 'a' as u8 && spec_fold(rest[2], true) == 'n' as u8 && spec_fold(rest[3], true)
        == 'd' as u8) || (spec_fold(rest[1], true) == 'o' as u8 && spec_fold(rest[2], true)
        == 'r' as u8)))
}

/// Text that follows a conjunction: nothing, or a space and `OR`.
pub open spec fn conjunction_follow(rest: Seq<u8>) -> bool {
    rest.len() == 0 || (rest.len() >= 4 && rest[0] == ' ' as u8 && spec_fold(rest[1], true)
        == 'o' as u8 && spec_fold(rest[2], true) == 'r' as u8)
}

proof fn lemma_name_run(n: Seq<u8>, rest: Seq<u8>)
    requires
        n.len() > 0,
        forall|j: int| 0 <= j < n.len() ==> in_class(#[trigger] n[j], ByteClass::Ident),
        rest.len() == 0 || !in_class(rest[0], ByteClass::Ident),
    ensures
        spec_identifier(n + rest) == IResult::<Seq<u8>, Seq<u8>>::Done(rest, n),
{
    let s = n + rest;
    assert forall|j: int| 0 <= j < n.len() implies in_class(#[trigger] s[j], ByteClass::Ident) by {
        assert(s[j] == n[j]);
    }
    if n.len() < s.len() {
        assert(s[n.len() as int] == rest[0]);
    }
    lemma_run_len(s, ByteClass::Ident, n.len() as int);
    assert(s.subrange(n.len() as int, s.len() as int) =~= rest);
    assert(s.subrange(0, n.len() as int) =~= n);
}

proof fn lemma_leaf(e: ExprV, rest: Seq<u8>)
    requires
        plain_leaf(e),
        rest.len() == 0 || rest[0] == ' ' as u8,
    ensures
        spec_predicate_atom(spec_text(e) + rest) == IResult::<Seq<u8>, ExprV>::Done(rest, e),
        spec_text(e).len() > 0,
        !crate::bytes::spec_is_space(spec_text(e)[0]),
{
    match e {
        ExprV::Literal(l) => {
            law_literal_text_round_trip(l, rest);
            crate::text::lemma_decimal(0);
            match l {
                LiteralV::Integer(n) => {
                    if n >= 0 {
                        crate::text::lemma_decimal(n as nat);
                        assert(spec_is_digit(crate::text::decimal(n as nat)[0]));
                    }
                },
                _ => {},
            }
        },
        ExprV::Placeholder => {
            let t = spec_text(e) + rest;
            assert(t[0] == '?' as u8);
            assert(t.subrange(1, t.len() as int) =~= rest);
        },
        ExprV::Field(c) => {
            let t = spec_text(e) + rest;
            let first = match c.table {
                Some(tb) => tb,
                None => c.name,
            };
            assert(t[0] == first[0]);
            assert(spec_fold(t[0], true) != spec_fold('?' as u8, true));
            lemma_run_len(t, ByteClass::Digit, 0);
            assert(spec_integer_literal(t) is Error);
            assert(spec_string_literal(t) is Error);
            match c.table {
                Some(tb) => {
                    let after = seq!['.' as u8] + c.name + rest;
                    assert(t =~= tb + after);
                    assert(!in_class(after[0], ByteClass::Ident));
                    lemma_name_run(tb, after);
                    assert(after.drop_first() =~= c.name + rest);
                    if rest.len() > 0 {
                        assert(!in_class(rest[0], ByteClass::Ident));
                    }
                    lemma_name_run(c.name, rest);
                },
                None => {
                    if rest.len() > 0 {
                        assert(!in_class(rest[0], ByteClass::Ident));
                    }
                    lemma_name_run(c.name, rest);
                },
            }
            assert(spec_column_identifier(t) == IResult::<Seq<u8>, ColumnV>::Done(rest, c));
        },
        _ => {},
    }
}

proof fn lemma_operator(op: Operator, rest: Seq<u8>)
    requires
        is_comparison_operator(op),
        rest.len() >= 1,
        rest[0] == ' ' as u8,
    ensures
        spec_binary_comparison_operator(spec_operator_text(op) + rest) == IResult::<
            Seq<u8>,
            Operator,
        >::Done(rest, op),
{
    reveal_with_fuel(spec_comparison_from, 11);
    let t = spec_operator_text(op);
    let s = t + rest;
    assert(s.subrange(t.len() as int, s.len() as int) =~= rest);
    assert forall|j: int| 0 <= j < t.len() implies s[j] == t[j] by {}
    assert(s[t.len() as int] == ' ' as u8);
    match op {
        Operator::NotLike => {
            lemma_tag_hit(s, spec_comparison_entry(0).0);
        },
        Operator::Like => {
            lemma_tag_miss(s, spec_comparison_entry(0).0, 0);
            lemma_tag_hit(s, spec_comparison_entry(1).0);
        },
        Operator::NotEqual => {
            lemma_tag_miss(s, spec_comparison_entry(0).0, 0);
            lemma_tag_miss(s, spec_comparison_entry(1).0, 0);
            lemma_tag_hit(s, spec_comparison_entry(2).0);
        },
        Operator::GreaterOrEqual => {
            lemma_tag_miss(s, spec_comparison_entry(0).0, 0);
            lemma_tag_miss(s, spec_comparison_entry(1).0, 0);
            lemma_tag_miss(s, spec_comparison_entry(2).0, 0);
            lemma_tag_miss(s, spec_comparison_entry(3).0, 0);
            lemma_tag_hit(s, spec_comparison_entry(4).0);
        },
        Operator::LessOrEqual => {
            lemma_tag_miss(s, spec_comparison_entry(0).0, 0);
            lemma_tag_miss(s, spec_comparison_entry(1).0, 0);
            lemma_tag_miss(s, spec_comparison_entry(2).0, 0);
            lemma_tag_miss(s, spec_comparison_entry(3).0, 1);
            lemma_tag_miss(s, spec_comparison_entry(4).0, 0);
            lemma_tag_hit(s, spec_comparison_entry(5).0);
        },
        Operator::Equal => {
            lemma_tag_miss(s, spec_comparison_entry(0).0, 0);
            lemma_tag_miss(s, spec_comparison_entry(1).0, 0);
            lemma_tag_miss(s, spec_comparison_entry(2).0, 0);
            lemma_tag_miss(s, spec_comparison_entry(3).0, 0);
            lemma_tag_miss(s, spec_comparison_entry(4).0, 0);
            lemma_tag_miss(s, spec_comparison_entry(5).0, 0);
            lemma_tag_hit(s, spec_comparison_entry(6).0);
        },
        Operator::Less => {
            lemma_tag_miss(s, spec_comparison_entry(0).0, 0);
            lemma_tag_miss(s, spec_comparison_entry(1).0, 0);
            lemma_tag_miss(s, spec_comparison_entry(2).0, 0);
            lemma_tag_miss(s, spec_comparison_entry(3).0, 1);
            lemma_tag_miss(s, spec_comparison_entry(4).0, 0);
            lemma_tag_miss(s, spec_comparison_entry(5).0, 1);
            lemma_tag_miss(s, spec_comparison_entry(6).0, 0);
            lemma_tag_hit(s, spec_comparison_entry(7).0);
        },
        Operator::Greater => {
            lemma_tag_miss(s, spec_comparison_entry(0).0, 0);
            lemma_tag_miss(s, spec_comparison_entry(1).0, 0);
            lemma_tag_miss(s, spec_comparison_entry(2).0, 0);
            lemma_tag_miss(s, spec_comparison_entry(3).0, 0);
            lemma_tag_miss(s, spec_comparison_entry(4).0, 1);
            lemma_tag_miss(s, spec_comparison_entry(5).0, 0);
            lemma_tag_miss(s, spec_comparison_entry(6).0, 0);
            lemma_tag_miss(s, spec_comparison_entry(7).0, 0);
            lemma_tag_hit(s, spec_comparison_entry(8).0);
        },
        Operator::In => {
            lemma_tag_miss(s, spec_comparison_entry(0).0, 0);
            lemma_tag_miss(s, spec_comparison_entry(1).0, 0);
            lemma_tag_miss(s, spec_comparison_entry(2).0, 0);
            lemma_tag_miss(s, spec_comparison_entry(3).0, 0);
            lemma_tag_miss(s, spec_comparison_entry(4).0, 0);
            lemma_tag_miss(s, spec_comparison_entry(5).0, 0);
            lemma_tag_miss(s, spec_comparison_entry(6).0, 0);
            lemma_tag_miss(s, spec_comparison_entry(7).0, 0);
            lemma_tag_miss(s, spec_comparison_entry(8).0, 0);
            lemma_tag_hit(s, spec_comparison_entry(9).0);
        },
        _ => {},
    }
}

proof fn lemma_primary(e: ExprV, rest: Seq<u8>)
    requires
        e is Comparison,
        plain_unary(e),
        unary_follow(rest),
    ensures
        spec_boolean_primary(spec_text(e) + rest) == IResult::<Seq<u8>, ExprV>::Done(
            spec_skip_ws(rest),
            e,
        ),
{
    let (op, l, r) = match e {
        ExprV::Comparison(op, l, r) => (op, *l, *r),
        _ => (Operator::Equal, e, e),
    };
    let ot = spec_operator_text(op);
    let s = spec_text(e) + rest;
    let after_r = rest;
    let after_op = seq![' ' as u8] + spec_text(r) + rest;
    let after_l = seq![' ' as u8] + ot + after_op;
    assert(s =~= spec_text(l) + after_l);
    lemma_leaf(l, after_l);
    lemma_leaf(r, after_r);
    lemma_no_space(s);
    assert(s[0] == spec_text(l)[0]);
    assert(ot.len() > 0);
    assert(ot[0] != ' ' as u8);
    assert(after_l.drop_first() =~= ot + after_op);
    lemma_one_space(after_l);
    lemma_no_space(ot + after_op);
    lemma_operator(op, after_op);
    assert(after_op.drop_first() =~= spec_text(r) + rest);
    lemma_one_space(after_op);
    lemma_no_space(spec_text(r) + rest);
    assert(spec_predicate(s) == IResult::<Seq<u8>, ExprV>::Done(ot + after_op, l));
    assert(spec_predicate(spec_text(r) + rest) == IResult::<Seq<u8>, ExprV>::Done(
        spec_skip_ws(rest),
        r,
    ));
}

/// The start of a plain operand's text: not a space, not `(`, and, for a
/// comparison, not `NOT`.
proof fn lemma_unary_start(e: ExprV)
    requires
        plain_unary(e),
    ensures
        spec_text(e).len() > 0,
        !crate::bytes::spec_is_space(spec_text(e)[0]),
        spec_text(e)[0] != '(' as u8,
        e is Comparison ==> spec_text(e).len() >= 3 && !starts_with_not(spec_text(e)),
    decreases e,
{
    match e {
        ExprV::Comparison(op, l, r) => {
            lemma_leaf(*l, Seq::empty());
            assert(spec_text(e)[0] == spec_text(*l)[0]);
            crate::text::lemma_decimal(0);
            match *l {
                ExprV::Literal(LiteralV::Integer(n)) => {
                    if n >= 0 {
                        crate::text::lemma_decimal(n as nat);
                    }
                },
                ExprV::Field(c) => {
                    let t = spec_text(e);
                    let f = spec_text(*l);
                    let first = match c.table {
                        Some(tb) => tb,
                        None => c.name,
                    };
                    assert(t =~= f + (seq![' ' as u8] + spec_operator_text(op) + seq![' ' as u8]
                        + spec_text(*r)));
                    assert forall|j: int| 0 <= j < first.len() implies t[j] == #[trigger] first[j] by {
                        assert(t[j] == f[j]);
                    }
                    let next = t[first.len() as int];
                    match c.table {
                        Some(tb) => {
                            assert(f[first.len() as int] == '.' as u8);
                            assert(next == '.' as u8);
                        },
                        None => {
                            assert(next == ' ' as u8);
                        },
                    }
                    if first.len() >= 3 {
                        assert(t[0] == first[0] && t[1] == first[1] && t[2] == first[2]);
                    }
                },
                _ => {},
            }
        },
        ExprV::Negation(x) => {},
        _ => {},
    }
}

proof fn lemma_unary(e: ExprV, rest: Seq<u8>)
    requires
        plain_unary(e),
        unary_follow(rest),
    ensures
        spec_not_expr(spec_text(e) + rest) == IResult::<Seq<u8>, ExprV>::Done(spec_skip_ws(rest), e),
        spec_parenthetical_expr(spec_text(e) + rest) == IResult::<Seq<u8>, ExprV>::Done(
            spec_skip_ws(rest),
            e,
        ),
    decreases e,
{
    let s = spec_text(e) + rest;
    lemma_unary_start(e);
    assert(s[0] == spec_text(e)[0]);
    lemma_tag_miss(s, crate::common::spec_keyword(Keyword::OpenParen), 0);
    match e {
        ExprV::Comparison(_, _, _) => {
            lemma_primary(e, rest);
            let t = spec_text(e);
            assert(s[0] == t[0] && s[1] == t[1] && s[2] == t[2]);
            let not_kw = crate::common::spec_keyword(Keyword::Not);
            if spec_fold(s[0], true) != 'n' as u8 {
                lemma_tag_miss(s, not_kw, 0);
            } else if spec_fold(s[1], true) != 'o' as u8 {
                lemma_tag_miss(s, not_kw, 1);
            } else {
                lemma_tag_miss(s, not_kw, 2);
            }
        },
        ExprV::Negation(x) => {
            let inner = spec_text(*x) + rest;
            lemma_unary(*x, rest);
            lemma_unary_start(*x);
            let after = seq![' ' as u8] + inner;
            assert(s =~= seq!['N' as u8, 'O' as u8, 'T' as u8] + after);
            lemma_tag_hit(s, crate::common::spec_keyword(Keyword::Not));
            assert(s.subrange(3, s.len() as int) =~= after);
            assert(after.drop_first() =~= inner);
            assert(inner[0] == spec_text(*x)[0]);
            lemma_one_space(after);
        },
        _ => {},
    }
}

proof fn lemma_conjunction(e: ExprV, rest: Seq<u8>)
    requires
        plain_conjunction(e),
        conjunction_follow(rest),
    ensures
        spec_and_expr(spec_text(e) + rest) == IResult::<Seq<u8>, ExprV>::Done(spec_skip_ws(rest), e),
        spec_text(e).len() > 0,
        !crate::bytes::spec_is_space(spec_text(e)[0]),
    decreases e,
{
    let s = spec_text(e) + rest;
    match e {
        ExprV::Logical(Operator::And, l, r) => {
            let tail = spec_text(*r) + rest;
            let follow = seq![' ' as u8, 'A' as u8, 'N' as u8, 'D' as u8, ' ' as u8] + tail;
            assert(s =~= spec_text(*l) + follow);
            lemma_unary(*l, follow);
            lemma_unary_start(*l);
            lemma_conjunction(*r, rest);
            assert(s[0] == spec_text(*l)[0]);
            let r1 = follow.drop_first();
            assert(follow[1] == 'A' as u8);
            lemma_one_space(follow);
            lemma_no_space(r1);
            assert(r1 =~= seq!['A' as u8, 'N' as u8, 'D' as u8] + (seq![' ' as u8] + tail));
            lemma_tag_hit(r1, crate::common::spec_keyword(Keyword::And));
            let r3 = seq![' ' as u8] + tail;
            assert(r1.subrange(3, r1.len() as int) =~= r3);
            assert(r3.drop_first() =~= tail);
            assert(tail[0] == spec_text(*r)[0]);
            lemma_one_space(r3);
        },
        _ => {
            lemma_unary(e, rest);
            lemma_unary_start(e);
            assert(s[0] == spec_text(e)[0]);
            if rest.len() > 0 {
                let w = spec_skip_ws(rest);
                lemma_one_space(rest);
                assert(w =~= rest.drop_first());
                lemma_no_space(w);
                lemma_tag_miss(w, crate::common::spec_keyword(Keyword::And), 0);
            } else {
                lemma_no_space(rest);
            }
        },
    }
}

proof fn lemma_condition(e: ExprV)
    requires
        plain_condition(e),
    ensures
        spec_condition_expr(spec_text(e)) == IResult::<Seq<u8>, ExprV>::Done(Seq::empty(), e),
        spec_text(e).len() > 0,
        !crate::bytes::spec_is_space(spec_text(e)[0]),
    decreases e,
{
    let s = spec_text(e);
    match e {
        ExprV::Logical(Operator::Or, l, r) => {
            let tail = spec_text(*r);
            let follow = seq![' ' as u8, 'O' as u8, 'R' as u8, ' ' as u8] + tail;
            assert(s =~= spec_text(*l) + follow);
            lemma_conjunction(*l, follow);
            lemma_condition(*r);
            let r1 = follow.drop_first();
            lemma_one_space(follow);
            lemma_no_space(r1);
            assert(r1 =~= seq!['O' as u8, 'R' as u8] + (seq![' ' as u8] + tail));
            lemma_tag_hit(r1, crate::common::spec_keyword(Keyword::Or));
            let r3 = seq![' ' as u8] + tail;
            assert(r1.subrange(2, r1.len() as int) =~= r3);
            assert(r3.drop_first() =~= tail);
            lemma_one_space(r3);
            assert(s[0] == spec_text(*l)[0]);
        },
        _ => {
            lemma_conjunction(e, Seq::empty());
            assert(s + Seq::<u8>::empty() =~= s);
            lemma_no_space(Seq::<u8>::empty());
        },
    }
}

/// Parsing the text of a condition gives the condition back, for every
/// condition that a parse produced in the plain shape: `OR` over `AND` over
/// negated comparisons, chains nested to the right, and leaves whose text
/// cannot be read otherwise. (A parse of `(a = 1 OR b = 2) AND c = 3` is not
/// of this shape: its text has lost the parentheses.)
pub proof fn law_text_round_trip(input: Seq<u8>, e: ExprV)
    requires
        spec_condition_expr(input) is Done,
        e == spec_condition_expr(input)->Done_1,
        plain_condition(e),
    ensures
        spec_condition_expr(spec_text(e)) == IResult::<Seq<u8>, ExprV>::Done(Seq::empty(), e),
{
    lemma_condition(e);
}

/// Each node holds an operator of its kind: comparison nodes a comparison
/// operator, logical nodes `AND` or `OR`.
pub open spec fn well_formed(e: ExprV) -> bool
    decreases e,
{
    match e {
        ExprV::Comparison(op, l, r) => is_comparison_operator(op) && well_formed(*l) && well_formed(
            *r,
        ),
        ExprV::Logical(op, l, r) => (op == Operator::And || op == Operator::Or) && well_formed(*l)
            && well_formed(*r),
        ExprV::Negation(x) => well_formed(*x),
        _ => true,
    }
}

proof fn lemma_wf_operator(s: Seq<u8>, k: int)
    requires
        0 <= k < crate::common::COMPARISON_ENTRIES,
    ensures
        spec_comparison_from(s, k) is Done ==> is_comparison_operator(
            spec_comparison_from(s, k)->Done_1,
        ),
    decreases crate::common::COMPARISON_ENTRIES - k,
{
    if k + 1 < crate::common::COMPARISON_ENTRIES {
        lemma_wf_operator(s, k + 1);
    }
}

proof fn lemma_wf_predicate(s: Seq<u8>)
    ensures
        spec_predicate(s) is Done ==> well_formed(spec_predicate(s)->Done_1),
{
    let t = spec_skip_ws(s);
    if let IResult::Done(_, e) = spec_predicate_atom(t) {
        assert(e is Placeholder || e is Literal || e is Field);
    }
}

proof fn lemma_wf_primary(s: Seq<u8>)
    ensures
        spec_boolean_primary(s) is Done ==> well_formed(spec_boolean_primary(s)->Done_1),
{
    lemma_wf_predicate(s);
    if let IResult::Done(r1, _) = spec_predicate(s) {
        lemma_wf_operator(spec_skip_ws(r1), 0);
        if let IResult::Done(r3, _) = spec_binary_comparison_operator(spec_skip_ws(r1)) {
            lemma_wf_predicate(spec_skip_ws(r3));
        }
    }
}

proof fn lemma_wf_not(s: Seq<u8>)
    ensures
        spec_not_expr(s) is Done ==> well_formed(spec_not_expr(s)->Done_1),
    decreases s.len(), 1nat,
{
    lemma_wf_primary(s);
    if let IResult::Done(r1, _) = crate::common::spec_kw(s, Keyword::Not) {
        if let IResult::Done(r2, _) = crate::bytes::spec_required_ws(r1) {
            if r2.len() < s.len() {
                lemma_wf_parenthetical(r2);
            }
        }
    }
}

proof fn lemma_wf_parenthetical(s: Seq<u8>)
    ensures
        spec_parenthetical_expr(s) is Done ==> well_formed(spec_parenthetical_expr(s)->Done_1),
    decreases s.len(), 2nat,
{
    lemma_wf_not(s);
    if let IResult::Done(r1, _) = crate::common::spec_kw(s, Keyword::OpenParen) {
        if r1.len() < s.len() {
            lemma_wf_condition(r1);
        }
    }
}

proof fn lemma_wf_and(s: Seq<u8>)
    ensures
        spec_and_expr(s) is Done ==> well_formed(spec_and_expr(s)->Done_1),
    decreases s.len(), 3nat,
{
    lemma_wf_parenthetical(s);
    if let IResult::Done(r1, _) = spec_parenthetical_expr(s) {
        if let IResult::Done(r3, _) = crate::common::spec_kw(spec_skip_ws(r1), Keyword::And) {
            if let IResult::Done(r4, _) = crate::bytes::spec_required_ws(r3) {
                if r4.len() < s.len() {
                    lemma_wf_and(r4);
                }
            }
        }
    }
}

proof fn lemma_wf_condition(s: Seq<u8>)
    ensures
        spec_condition_expr(s) is Done ==> well_formed(spec_condition_expr(s)->Done_1),
    decreases s.len(), 4nat,
{
    lemma_wf_and(s);
    if let IResult::Done(r1, _) = spec_and_expr(s) {
        if let IResult::Done(r3, _) = crate::common::spec_kw(spec_skip_ws(r1), Keyword::Or) {
            if let IResult::Done(r4, _) = crate::bytes::spec_required_ws(r3) {
                if r4.len() < s.len() {
                    lemma_wf_condition(r4);
                }
            }
        }
    }
}

/// Every condition that parses holds comparison operators only in comparison
/// nodes, and `AND` or `OR` only in logical nodes.
pub proof fn law_parsed_conditions_are_well_formed(input: Seq<u8>)
    ensures
        spec_condition_expr(input) is Done ==> well_formed(spec_condition_expr(input)->Done_1),
{
    lemma_wf_condition(input);
}

/// A `WHERE` clause cut short inside its keyword asks for the whole keyword;
/// with the keyword complete, the clause is whatever the condition after it is.
pub proof fn law_truncated_where(prefix: Seq<u8>, rest: Seq<u8>)
    requires
        0 < prefix.len() < 5,
        prefix =~= crate::common::spec_keyword(Keyword::Where).subrange(0, prefix.len() as int),
    ensures
        crate::select::spec_where_clause(prefix) == IResult::<Seq<u8>, ExprV>::Incomplete(
            crate::internal::Needed::Size(5),
        ),
        crate::select::spec_where_clause(crate::common::spec_keyword(Keyword::Where) + rest)
            == match spec_condition_expr(rest) {
            IResult::Done(r, e) => IResult::Done(r, e),
            other => crate::common::spec_fail_after(other, 5),
        },
{
    let lit = crate::common::spec_keyword(Keyword::Where);
    crate::bytes::law_truncated_literal(lit, prefix, rest, true);
    assert(prefix[0] == lit[0]);
    lemma_no_space(prefix);
    let whole = lit + rest;
    assert(whole[0] == lit[0]);
    lemma_no_space(whole);
}

/// A statement cut short inside `SELECT` asks for the whole keyword.
pub proof fn law_truncated_select(prefix: Seq<u8>)
    requires
        0 < prefix.len() < 6,
        prefix =~= crate::common::spec_keyword(Keyword::Select).subrange(0, prefix.len() as int),
    ensures
        crate::select::spec_selection(prefix) == IResult::<
            Seq<u8>,
            crate::select::SelectV,
        >::Incomplete(crate::internal::Needed::Size(6)),
{
    let lit = crate::common::spec_keyword(Keyword::Select);
    crate::bytes::law_truncated_literal(lit, prefix, Seq::empty(), true);
}

} // verus!
