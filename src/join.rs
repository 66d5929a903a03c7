//! Table lists, column lists and join clauses.
use vstd::prelude::*;

use crate::bytes::{required_ws, skip_ws, spec_required_ws, spec_skip_ws, spec_tag_with, tag_with};
use crate::common::{
    column_identifier, identifier, kw, map_done, rest_within, spec_column_identifier,
    spec_fail_after, spec_fail_as, spec_identifier, spec_kw, spec_or_else, Column, ColumnV,
    Keyword,
};
use crate::condition::{condition_expr, spec_condition_expr, ConditionExpression, ExprV};
use crate::internal::{needed_after, spec_needed_after, IResult, Needed};

verus! {

/// A table reference.
#[derive(Debug, PartialEq, Eq, Hash, Clone)]
pub struct Table {
    pub name: Vec<u8>,
}

impl View for Table {
    type V = Seq<u8>;

    open spec fn view(&self) -> Seq<u8> {
        self.name@
    }
}

pub open spec fn tables_view(v: Seq<Table>) -> Seq<Seq<u8>> {
    v.map_values(|t: Table| t@)
}

pub open spec fn columns_view(v: Seq<Column>) -> Seq<ColumnV> {
    v.map_values(|c: Column| c@)
}

/// Further `, table name` items of a list. Input that ends right after a comma
/// asks for more.
pub open spec fn spec_table_tail(s: Seq<u8>) -> IResult<Seq<u8>, Seq<Seq<u8>>>
    decreases s.len(),
{
    let t = spec_skip_ws(s);
    if t.len() > 0 && t[0] == ',' as u8 {
        let u = spec_skip_ws(t.drop_first());
        if u.len() == 0 {
            IResult::Incomplete(spec_needed_after(s.len() as int, Needed::Size(1)))
        } else {
            match spec_identifier(u) {
                IResult::Done(r, x) => if r.len() < s.len() {
                    match spec_table_tail(r) {
                        IResult::Done(r2, more) => IResult::Done(r2, seq![x] + more),
                        other => spec_fail_after(other, s.len() - r.len()),
                    }
                } else {
                    IResult::Done(s, seq![])
                },
                _ => IResult::Done(s, seq![]),
            }
        }
    } else {
        IResult::Done(s, seq![])
    }
}

/// One or more table names, separated by commas.
pub open spec fn spec_table_list(s: Seq<u8>) -> IResult<Seq<u8>, Seq<Seq<u8>>> {
    if s.len() == 0 {
        IResult::Incomplete(Needed::Size(1))
    } else {
        match spec_identifier(s) {
            IResult::Done(r, first) => match spec_table_tail(r) {
                IResult::Done(r2, more) => IResult::Done(r2, seq![first] + more),
                other => spec_fail_after(other, s.len() - r.len()),
            },
            other => spec_fail_as(other),
        }
    }
}

fn table_tail<'a>(i: &'a [u8]) -> (r: IResult<&'a [u8], Vec<Table>>)
    ensures
        map_done(r@, |v: Seq<Table>| tables_view(v)) == spec_table_tail(i@),
        rest_within(r@, i@),
    decreases i@.len(),
{
    let t = skip_ws(i);
    if t.len() > 0 && t[0] == ',' as u8 {
        let after = vstd::slice::slice_subrange(t, 1, t.len());
        proof {
            assert(after@ =~= t@.drop_first());
        }
        let u = skip_ws(after);
        if u.len() == 0 {
            return IResult::Incomplete(needed_after(i.len(), Needed::Size(1)));
        }
        if let IResult::Done(r, x) = identifier(u) {
            match table_tail(r) {
                IResult::Done(r2, mut more) => {
                    let ghost old_more = more@;
                    let item = Table { name: vstd::slice::slice_to_vec(x) };
                    let ghost xv = item@;
                    more.insert(0, item);
                    proof {
                        assert(tables_view(more@) =~= seq![xv] + tables_view(old_more));
                    }
                    return IResult::Done(r2, more);
                },
                IResult::Error(e) => {
                    return IResult::Error(e);
                },
                IResult::Incomplete(n) => {
                    return IResult::Incomplete(needed_after(i.len() - r.len(), n));
                },
            }
        }
    }
    proof {
        assert(tables_view(Seq::<Table>::empty()) =~= seq![]);
    }
    IResult::Done(i, Vec::new())
}

/// Parses one or more table names separated by commas.
pub fn table_list<'a>(i: &'a [u8]) -> (r: IResult<&'a [u8], Vec<Table>>)
    ensures
        map_done(r@, |v: Seq<Table>| tables_view(v)) == spec_table_list(i@),
        rest_within(r@, i@),
{
    if i.len() == 0 {
        return IResult::Incomplete(Needed::Size(1));
    }
    match identifier(i) {
        IResult::Done(r, x) => match table_tail(r) {
            IResult::Done(r2, mut more) => {
                let ghost old_more = more@;
                let item = Table { name: vstd::slice::slice_to_vec(x) };
                let ghost xv = item@;
                more.insert(0, item);
                proof {
                    assert(tables_view(more@) =~= seq![xv] + tables_view(old_more));
                }
                IResult::Done(r2, more)
            },
            IResult::Error(e) => IResult::Error(e),
            IResult::Incomplete(n) => IResult::Incomplete(needed_after(i.len() - r.len(), n)),
        },
        IResult::Error(e) => IResult::Error(e),
        IResult::Incomplete(n) => IResult::Incomplete(n),
    }
}

} // verus!

verus! {

/// Further `, column` items of a list. Input that ends right after a comma
/// asks for more.
pub open spec fn spec_column_tail(s: Seq<u8>) -> IResult<Seq<u8>, Seq<ColumnV>>
    decreases s.len(),
{
    let t = spec_skip_ws(s);
    if t.len() > 0 && t[0] == ',' as u8 {
        let u = spec_skip_ws(t.drop_first());
        if u.len() == 0 {
            IResult::Incomplete(spec_needed_after(s.len() as int, Needed::Size(1)))
        } else {
            match spec_column_identifier(u) {
                IResult::Done(r, x) => if r.len() < s.len() {
                    match spec_column_tail(r) {
                        IResult::Done(r2, more) => IResult::Done(r2, seq![x] + more),
                        other => spec_fail_after(other, s.len() - r.len()),
                    }
                } else {
                    IResult::Done(s, seq![])
                },
                _ => IResult::Done(s, seq![]),
            }
        }
    } else {
        IResult::Done(s, seq![])
    }
}

/// One or more columns, separated by commas.
pub open spec fn spec_column_list(s: Seq<u8>) -> IResult<Seq<u8>, Seq<ColumnV>> {
    if s.len() == 0 {
        IResult::Incomplete(Needed::Size(1))
    } else {
        match spec_column_identifier(s) {
            IResult::Done(r, first) => match spec_column_tail(r) {
                IResult::Done(r2, more) => IResult::Done(r2, seq![first] + more),
                other => spec_fail_after(other, s.len() - r.len()),
            },
            other => spec_fail_as(other),
        }
    }
}

fn column_tail<'a>(i: &'a [u8]) -> (r: IResult<&'a [u8], Vec<Column>>)
    ensures
        map_done(r@, |v: Seq<Column>| columns_view(v)) == spec_column_tail(i@),
        rest_within(r@, i@),
    decreases i@.len(),
{
    let t = skip_ws(i);
    if t.len() > 0 && t[0] == ',' as u8 {
        let after = vstd::slice::slice_subrange(t, 1, t.len());
        proof {
            assert(after@ =~= t@.drop_first());
        }
        let u = skip_ws(after);
        if u.len() == 0 {
            return IResult::Incomplete(needed_after(i.len(), Needed::Size(1)));
        }
        if let IResult::Done(r, x) = column_identifier(u) {
            match column_tail(r) {
                IResult::Done(r2, mut more) => {
                    let ghost old_more = more@;
                    let item = x;
                    let ghost xv = item@;
                    more.insert(0, item);
                    proof {
                        assert(columns_view(more@) =~= seq![xv] + columns_view(old_more));
                    }
                    return IResult::Done(r2, more);
                },
                IResult::Error(e) => {
                    return IResult::Error(e);
                },
                IResult::Incomplete(n) => {
                    return IResult::Incomplete(needed_after(i.len() - r.len(), n));
                },
            }
        }
    }
    proof {
        assert(columns_view(Seq::<Column>::empty()) =~= seq![]);
    }
    IResult::Done(i, Vec::new())
}

/// Parses one or more columns separated by commas.
pub fn column_list<'a>(i: &'a [u8]) -> (r: IResult<&'a [u8], Vec<Column>>)
    ensures
        map_done(r@, |v: Seq<Column>| columns_view(v)) == spec_column_list(i@),
        rest_within(r@, i@),
{
    if i.len() == 0 {
        return IResult::Incomplete(Needed::Size(1));
    }
    match column_identifier(i) {
        IResult::Done(r, x) => match column_tail(r) {
            IResult::Done(r2, mut more) => {
                let ghost old_more = more@;
                let item = x;
                let ghost xv = item@;
                more.insert(0, item);
                proof {
                    assert(columns_view(more@) =~= seq![xv] + columns_view(old_more));
                }
                IResult::Done(r2, more)
            },
            IResult::Error(e) => IResult::Error(e),
            IResult::Incomplete(n) => IResult::Incomplete(needed_after(i.len() - r.len(), n)),
        },
        IResult::Error(e) => IResult::Error(e),
        IResult::Incomplete(n) => IResult::Incomplete(n),
    }
}

/// How a join combines its two sides.
#[derive(Debug, PartialEq, Eq, Hash, Clone, Copy, Structural)]
pub enum JoinOperator {
    Join,
    LeftJoin,
    LeftOuterJoin,
    InnerJoin,
    CrossJoin,
    StraightJoin,
}

/// The join operators, in the order in which they are tried.
pub open spec fn spec_join_entry(k: int) -> (Seq<u8>, JoinOperator) {
    if k == 0 {
        (seq!['j' as u8, 'o' as u8, 'i' as u8, 'n' as u8], JoinOperator::Join)
    } else if k == 1 {
        (
            seq!['l' as u8, 'e' as u8, 'f' as u8, 't' as u8, ' ' as u8, 'j' as u8, 'o' as u8, 'i' as u8, 'n' as u8],
            JoinOperator::LeftJoin,
        )
    } else if k == 2 {
        (
            seq![
                'l' as u8, 'e' as u8, 'f' as u8, 't' as u8, ' ' as u8, 'o' as u8, 'u' as u8, 't' as u8,
                'e' as u8, 'r' as u8, ' ' as u8, 'j' as u8, 'o' as u8, 'i' as u8, 'n' as u8,
            ],
            JoinOperator::LeftOuterJoin,
        )
    } else if k == 3 {
        (
            seq!['i' as u8, 'n' as u8, 'n' as u8, 'e' as u8, 'r' as u8, ' ' as u8, 'j' as u8, 'o' as u8, 'i' as u8, 'n' as u8],
            JoinOperator::InnerJoin,
        )
    } else if k == 4 {
        (
            seq!['c' as u8, 'r' as u8, 'o' as u8, 's' as u8, 's' as u8, ' ' as u8, 'j' as u8, 'o' as u8, 'i' as u8, 'n' as u8],
            JoinOperator::CrossJoin,
        )
    } else {
        (
            seq![
                's' as u8, 't' as u8, 'r' as u8, 'a' as u8, 'i' as u8, 'g' as u8, 'h' as u8, 't' as u8,
                '_' as u8, 'j' as u8, 'o' as u8, 'i' as u8, 'n' as u8,
            ],
            JoinOperator::StraightJoin,
        )
    }
}

/// The number of join operator spellings.
pub const JOIN_ENTRIES: usize = 6;

fn join_entry(k: usize) -> (r: (Vec<u8>, JoinOperator))
    ensures
        r.0@ == spec_join_entry(k as int).0,
        r.1 == spec_join_entry(k as int).1,
{
    if k == 0 {
        (vec!['j' as u8, 'o' as u8, 'i' as u8, 'n' as u8], JoinOperator::Join)
    } else if k == 1 {
        (
            vec!['l' as u8, 'e' as u8, 'f' as u8, 't' as u8, ' ' as u8, 'j' as u8, 'o' as u8, 'i' as u8, 'n' as u8],
            JoinOperator::LeftJoin,
        )
    } else if k == 2 {
        (
            vec![
                'l' as u8, 'e' as u8, 'f' as u8, 't' as u8, ' ' as u8, 'o' as u8, 'u' as u8, 't' as u8,
                'e' as u8, 'r' as u8, ' ' as u8, 'j' as u8, 'o' as u8, 'i' as u8, 'n' as u8,
            ],
            JoinOperator::LeftOuterJoin,
        )
    } else if k == 3 {
        (
            vec!['i' as u8, 'n' as u8, 'n' as u8, 'e' as u8, 'r' as u8, ' ' as u8, 'j' as u8, 'o' as u8, 'i' as u8, 'n' as u8],
            JoinOperator::InnerJoin,
        )
    } else if k == 4 {
        (
            vec!['c' as u8, 'r' as u8, 'o' as u8, 's' as u8, 's' as u8, ' ' as u8, 'j' as u8, 'o' as u8, 'i' as u8, 'n' as u8],
            JoinOperator::CrossJoin,
        )
    } else {
        (
            vec![
                's' as u8, 't' as u8, 'r' as u8, 'a' as u8, 'i' as u8, 'g' as u8, 'h' as u8, 't' as u8,
                '_' as u8, 'j' as u8, 'o' as u8, 'i' as u8, 'n' as u8,
            ],
            JoinOperator::StraightJoin,
        )
    }
}

/// Ordered alternation over the join operators from entry `k` on: a mismatch
/// tries the next one, and input that ends inside an operator asks for more.
pub open spec fn spec_join_from(s: Seq<u8>, k: int) -> IResult<Seq<u8>, JoinOperator>
    decreases JOIN_ENTRIES - k,
{
    let (lit, op) = spec_join_entry(k);
    match spec_tag_with(s, lit, true) {
        IResult::Done(r, _) => IResult::Done(r, op),
        IResult::Error(e) => if k + 1 < JOIN_ENTRIES {
            spec_join_from(s, k + 1)
        } else {
            IResult::Error(e)
        },
        IResult::Incomplete(n) => IResult::Incomplete(n),
    }
}

impl View for JoinOperator {
    type V = JoinOperator;

    open spec fn view(&self) -> JoinOperator {
        *self
    }
}

fn join_from<'a>(i: &'a [u8], k: usize) -> (r: IResult<&'a [u8], JoinOperator>)
    requires
        k < JOIN_ENTRIES,
    ensures
        r@ == spec_join_from(i@, k as int),
        r@ is Done ==> r@->Done_0.len() < i@.len(),
    decreases JOIN_ENTRIES - k,
{
    let (lit, op) = join_entry(k);
    match tag_with(i, lit.as_slice(), true) {
        IResult::Done(r, _) => IResult::Done(r, op),
        IResult::Error(e) => if k + 1 < JOIN_ENTRIES {
            join_from(i, k + 1)
        } else {
            IResult::Error(e)
        },
        IResult::Incomplete(n) => IResult::Incomplete(n),
    }
}

} // verus!

verus! {

/// What a join joins with: one table, or a parenthesized list of tables.
#[derive(Debug, PartialEq, Eq, Hash, Clone)]
pub enum JoinRightSide {
    Table(Table),
    Tables(Vec<Table>),
}

pub enum RightV {
    Table(Seq<u8>),
    Tables(Seq<Seq<u8>>),
}

impl View for JoinRightSide {
    type V = RightV;

    open spec fn view(&self) -> RightV {
        match self {
            JoinRightSide::Table(t) => RightV::Table(t@),
            JoinRightSide::Tables(ts) => RightV::Tables(tables_view(ts@)),
        }
    }
}

/// How the rows of a join are matched.
#[derive(Debug, PartialEq, Eq, Hash)]
pub enum JoinConstraint {
    On(ConditionExpression),
    Using(Vec<Column>),
}

pub enum ConstraintV {
    On(ExprV),
    Using(Seq<ColumnV>),
}

impl View for JoinConstraint {
    type V = ConstraintV;

    open spec fn view(&self) -> ConstraintV {
        match self {
            JoinConstraint::On(e) => ConstraintV::On(e@),
            JoinConstraint::Using(cs) => ConstraintV::Using(columns_view(cs@)),
        }
    }
}

/// One join of a selection.
#[derive(Debug, PartialEq, Eq, Hash)]
pub struct JoinClause {
    pub operator: JoinOperator,
    pub right: JoinRightSide,
    pub constraint: JoinConstraint,
}

pub struct JoinV {
    pub operator: JoinOperator,
    pub right: RightV,
    pub constraint: ConstraintV,
}

impl View for JoinClause {
    type V = JoinV;

    open spec fn view(&self) -> JoinV {
        JoinV { operator: self.operator, right: self.right@, constraint: self.constraint@ }
    }
}

/// A table name, or else a parenthesized table list.
pub open spec fn spec_join_rhs(s: Seq<u8>) -> IResult<Seq<u8>, RightV> {
    match spec_identifier(s) {
        IResult::Done(r, n) => IResult::Done(r, RightV::Table(n)),
        _ => match spec_kw(s, Keyword::OpenParen) {
            IResult::Done(r1, _) => match spec_table_list(r1) {
                IResult::Done(r2, ts) => match spec_kw(r2, Keyword::CloseParen) {
                    IResult::Done(r3, _) => IResult::Done(r3, RightV::Tables(ts)),
                    other => spec_fail_after(other, s.len() - r2.len()),
                },
                other => spec_fail_after(other, s.len() - r1.len()),
            },
            other => spec_fail_as(other),
        },
    }
}

fn join_rhs<'a>(i: &'a [u8]) -> (r: IResult<&'a [u8], JoinRightSide>)
    ensures
        r@ == spec_join_rhs(i@),
        rest_within(r@, i@),
{
    if let IResult::Done(r, n) = identifier(i) {
        return IResult::Done(r, JoinRightSide::Table(Table { name: vstd::slice::slice_to_vec(n) }));
    }
    match kw(i, Keyword::OpenParen) {
        IResult::Done(r1, _) => match table_list(r1) {
            IResult::Done(r2, ts) => match kw(r2, Keyword::CloseParen) {
                IResult::Done(r3, _) => IResult::Done(r3, JoinRightSide::Tables(ts)),
                IResult::Error(e) => IResult::Error(e),
                IResult::Incomplete(n) => IResult::Incomplete(needed_after(i.len() - r2.len(), n)),
            },
            IResult::Error(e) => IResult::Error(e),
            IResult::Incomplete(n) => IResult::Incomplete(needed_after(i.len() - r1.len(), n)),
        },
        IResult::Error(e) => IResult::Error(e),
        IResult::Incomplete(n) => IResult::Incomplete(n),
    }
}

/// The condition after `ON`: a parenthesized condition, or else a bare one.
pub open spec fn spec_on_condition(s: Seq<u8>) -> IResult<Seq<u8>, ExprV> {
    let plain = spec_condition_expr(s);
    match spec_kw(s, Keyword::OpenParen) {
        IResult::Done(r1, _) => match spec_condition_expr(r1) {
            IResult::Done(r2, e) => match spec_kw(r2, Keyword::CloseParen) {
                IResult::Done(r3, _) => IResult::Done(r3, e),
                IResult::Error(_) => plain,
                IResult::Incomplete(n) => IResult::Incomplete(
                    spec_needed_after(s.len() - r2.len(), n),
                ),
            },
            IResult::Error(_) => plain,
            IResult::Incomplete(n) => IResult::Incomplete(spec_needed_after(s.len() - r1.len(), n)),
        },
        IResult::Error(_) => plain,
        IResult::Incomplete(n) => IResult::Incomplete(n),
    }
}

/// `ON`, whitespace and a condition.
pub open spec fn spec_on_constraint(s: Seq<u8>) -> IResult<Seq<u8>, ConstraintV> {
    match spec_kw(s, Keyword::On) {
        IResult::Done(r1, _) => match spec_required_ws(r1) {
            IResult::Done(r2, _) => match spec_on_condition(r2) {
                IResult::Done(r3, e) => IResult::Done(r3, ConstraintV::On(e)),
                other => spec_fail_after(other, s.len() - r2.len()),
            },
            other => spec_fail_after(other, s.len() - r1.len()),
        },
        other => spec_fail_as(other),
    }
}

/// `USING (columns)`, or else `ON` and a condition. A mismatch in the first
/// tries the second; input that ends inside the first asks for more.
pub open spec fn spec_join_constraint(s: Seq<u8>) -> IResult<Seq<u8>, ConstraintV> {
    let on = spec_on_constraint(s);
    match spec_kw(s, Keyword::Using) {
        IResult::Done(r1, _) => match spec_required_ws(r1) {
            IResult::Done(r2, _) => match spec_kw(r2, Keyword::OpenParen) {
                IResult::Done(r3, _) => {
                    let r3w = spec_skip_ws(r3);
                    match spec_column_list(r3w) {
                        IResult::Done(r4, cols) => {
                            let r4w = spec_skip_ws(r4);
                            match spec_kw(r4w, Keyword::CloseParen) {
                                IResult::Done(r5, _) => IResult::Done(r5, ConstraintV::Using(cols)),
                                other => spec_or_else(other, on, s.len() - r4w.len()),
                            }
                        },
                        other => spec_or_else(other, on, s.len() - r3w.len()),
                    }
                },
                other => spec_or_else(other, on, s.len() - r2.len()),
            },
            other => spec_or_else(other, on, s.len() - r1.len()),
        },
        other => spec_or_else(other, on, 0),
    }
}

fn on_condition<'a>(i: &'a [u8]) -> (r: IResult<&'a [u8], ConditionExpression>)
    ensures
        r@ == spec_on_condition(i@),
        rest_within(r@, i@),
{
    match kw(i, Keyword::OpenParen) {
        IResult::Done(r1, _) => match condition_expr(r1) {
            IResult::Done(r2, e) => match kw(r2, Keyword::CloseParen) {
                IResult::Done(r3, _) => {
                    return IResult::Done(r3, e);
                },
                IResult::Error(_) => {},
                IResult::Incomplete(n) => {
                    return IResult::Incomplete(needed_after(i.len() - r2.len(), n));
                },
            },
            IResult::Error(_) => {},
            IResult::Incomplete(n) => {
                return IResult::Incomplete(needed_after(i.len() - r1.len(), n));
            },
        },
        IResult::Error(_) => {},
        IResult::Incomplete(n) => {
            return IResult::Incomplete(n);
        },
    }
    condition_expr(i)
}

fn on_constraint<'a>(i: &'a [u8]) -> (r: IResult<&'a [u8], JoinConstraint>)
    ensures
        r@ == spec_on_constraint(i@),
        rest_within(r@, i@),
{
    match kw(i, Keyword::On) {
        IResult::Done(r1, _) => match required_ws(r1) {
            IResult::Done(r2, _) => match on_condition(r2) {
                IResult::Done(r3, e) => IResult::Done(r3, JoinConstraint::On(e)),
                IResult::Error(e) => IResult::Error(e),
                IResult::Incomplete(n) => IResult::Incomplete(needed_after(i.len() - r2.len(), n)),
            },
            IResult::Error(e) => IResult::Error(e),
            IResult::Incomplete(n) => IResult::Incomplete(needed_after(i.len() - r1.len(), n)),
        },
        IResult::Error(e) => IResult::Error(e),
        IResult::Incomplete(n) => IResult::Incomplete(n),
    }
}

fn join_constraint<'a>(i: &'a [u8]) -> (r: IResult<&'a [u8], JoinConstraint>)
    ensures
        r@ == spec_join_constraint(i@),
        rest_within(r@, i@),
{
    let consumed: usize;
    let pending: Needed;
    match kw(i, Keyword::Using) {
        IResult::Done(r1, _) => match required_ws(r1) {
            IResult::Done(r2, _) => match kw(r2, Keyword::OpenParen) {
                IResult::Done(r3, _) => {
                    let r3w = skip_ws(r3);
                    match column_list(r3w) {
                        IResult::Done(r4, cols) => {
                            let r4w = skip_ws(r4);
                            match kw(r4w, Keyword::CloseParen) {
                                IResult::Done(r5, _) => {
                                    return IResult::Done(r5, JoinConstraint::Using(cols));
                                },
                                IResult::Error(_) => {
                                    return on_constraint(i);
                                },
                                IResult::Incomplete(n) => {
                                    consumed = i.len() - r4w.len();
                                    pending = n;
                                },
                            }
                        },
                        IResult::Error(_) => {
                            return on_constraint(i);
                        },
                        IResult::Incomplete(n) => {
                            consumed = i.len() - r3w.len();
                            pending = n;
                        },
                    }
                },
                IResult::Error(_) => {
                    return on_constraint(i);
                },
                IResult::Incomplete(n) => {
                    consumed = i.len() - r2.len();
                    pending = n;
                },
            },
            IResult::Error(_) => {
                return on_constraint(i);
            },
            IResult::Incomplete(n) => {
                consumed = i.len() - r1.len();
                pending = n;
            },
        },
        IResult::Error(_) => {
            return on_constraint(i);
        },
        IResult::Incomplete(n) => {
            consumed = 0;
            pending = n;
        },
    }
    IResult::Incomplete(needed_after(consumed, pending))
}

/// A join clause: optional whitespace, optionally `NATURAL` and whitespace
/// (which change nothing), a join operator, whitespace, what is joined,
/// whitespace, and the constraint. Input that ends inside the clause asks for
/// more, counted from the start.
pub open spec fn spec_join_clause(s: Seq<u8>) -> IResult<Seq<u8>, JoinV> {
    let t = spec_skip_ws(s);
    let start: IResult<Seq<u8>, ()> = match spec_kw(t, Keyword::Natural) {
        IResult::Done(r, _) => match spec_required_ws(r) {
            IResult::Done(r2, _) => IResult::Done(r2, ()),
            other => spec_fail_after(other, s.len() - r.len()),
        },
        IResult::Error(_) => IResult::Done(t, ()),
        IResult::Incomplete(n) => IResult::Incomplete(spec_needed_after(s.len() - t.len(), n)),
    };
    match start {
        IResult::Done(t2, _) => match spec_join_from(t2, 0) {
            IResult::Done(r1, op) => match spec_required_ws(r1) {
                IResult::Done(r2, _) => match spec_join_rhs(r2) {
                    IResult::Done(r3, right) => match spec_required_ws(r3) {
                        IResult::Done(r4, _) => match spec_join_constraint(r4) {
                            IResult::Done(r5, c) => IResult::Done(
                                r5,
                                JoinV { operator: op, right, constraint: c },
                            ),
                            other => spec_fail_after(other, s.len() - r4.len()),
                        },
                        other => spec_fail_after(other, s.len() - r3.len()),
                    },
                    other => spec_fail_after(other, s.len() - r2.len()),
                },
                other => spec_fail_after(other, s.len() - r1.len()),
            },
            other => spec_fail_after(other, s.len() - t2.len()),
        },
        other => spec_fail_as(other),
    }
}

fn join_clause<'a>(i: &'a [u8]) -> (r: IResult<&'a [u8], JoinClause>)
    ensures
        r@ == spec_join_clause(i@),
        r@ is Done ==> r@->Done_0.len() < i@.len(),
{
    let t = skip_ws(i);
    let t2 = match kw(t, Keyword::Natural) {
        IResult::Done(r, _) => match required_ws(r) {
            IResult::Done(r2, _) => r2,
            IResult::Error(e) => {
                return IResult::Error(e);
            },
            IResult::Incomplete(n) => {
                return IResult::Incomplete(needed_after(i.len() - r.len(), n));
            },
        },
        IResult::Error(_) => t,
        IResult::Incomplete(n) => {
            return IResult::Incomplete(needed_after(i.len() - t.len(), n));
        },
    };
    let (r1, op) = match join_from(t2, 0) {
        IResult::Done(r, o) => (r, o),
        IResult::Error(e) => {
            return IResult::Error(e);
        },
        IResult::Incomplete(n) => {
            return IResult::Incomplete(needed_after(i.len() - t2.len(), n));
        },
    };
    let r2 = match required_ws(r1) {
        IResult::Done(r, _) => r,
        IResult::Error(e) => {
            return IResult::Error(e);
        },
        IResult::Incomplete(n) => {
            return IResult::Incomplete(needed_after(i.len() - r1.len(), n));
        },
    };
    let (r3, right) = match join_rhs(r2) {
        IResult::Done(r, x) => (r, x),
        IResult::Error(e) => {
            return IResult::Error(e);
        },
        IResult::Incomplete(n) => {
            return IResult::Incomplete(needed_after(i.len() - r2.len(), n));
        },
    };
    let r4 = match required_ws(r3) {
        IResult::Done(r, _) => r,
        IResult::Error(e) => {
            return IResult::Error(e);
        },
        IResult::Incomplete(n) => {
            return IResult::Incomplete(needed_after(i.len() - r3.len(), n));
        },
    };
    match join_constraint(r4) {
        IResult::Done(r5, c) => IResult::Done(r5, JoinClause { operator: op, right, constraint: c }),
        IResult::Error(e) => IResult::Error(e),
        IResult::Incomplete(n) => IResult::Incomplete(needed_after(i.len() - r4.len(), n)),
    }
}

/// Zero or more join clauses, in the order they appear. A clause that fails
/// ends the list; one that asks for more input asks for it, unless the input
/// has ended where a clause would start.
pub open spec fn spec_joins(s: Seq<u8>) -> IResult<Seq<u8>, Seq<JoinV>>
    decreases s.len(),
{
    match spec_join_clause(s) {
        IResult::Done(r, j) => if r.len() < s.len() {
            match spec_joins(r) {
                IResult::Done(r2, js) => IResult::Done(r2, seq![j] + js),
                other => spec_fail_after(other, s.len() - r.len()),
            }
        } else {
            IResult::Done(s, seq![])
        },
        IResult::Error(_) => IResult::Done(s, seq![]),
        IResult::Incomplete(n) => if spec_skip_ws(s).len() == 0 {
            IResult::Done(s, seq![])
        } else {
            IResult::Incomplete(n)
        },
    }
}

pub open spec fn joins_view(v: Seq<JoinClause>) -> Seq<JoinV> {
    v.map_values(|j: JoinClause| j@)
}

/// Parses zero or more join clauses.
pub fn joins<'a>(i: &'a [u8]) -> (r: IResult<&'a [u8], Vec<JoinClause>>)
    ensures
        map_done(r@, |v: Seq<JoinClause>| joins_view(v)) == spec_joins(i@),
        rest_within(r@, i@),
    decreases i@.len(),
{
    match join_clause(i) {
        IResult::Done(r, j) => match joins(r) {
            IResult::Done(r2, mut more) => {
                let ghost old_more = more@;
                let ghost jv = j@;
                more.insert(0, j);
                proof {
                    assert(joins_view(more@) =~= seq![jv] + joins_view(old_more));
                }
                IResult::Done(r2, more)
            },
            IResult::Error(e) => IResult::Error(e),
            IResult::Incomplete(n) => IResult::Incomplete(needed_after(i.len() - r.len(), n)),
        },
        IResult::Error(_) => {
            proof {
                assert(joins_view(Seq::<JoinClause>::empty()) =~= seq![]);
            }
            IResult::Done(i, Vec::new())
        },
        IResult::Incomplete(n) => {
            if skip_ws(i).len() == 0 {
                proof {
                    assert(joins_view(Seq::<JoinClause>::empty()) =~= seq![]);
                }
                IResult::Done(i, Vec::new())
            } else {
                IResult::Incomplete(n)
            }
        },
    }
}

} // verus!
