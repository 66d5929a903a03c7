//! The `SELECT` statement: its fields, tables, joins and `WHERE` clause.
use vstd::prelude::*;

use crate::bytes::{required_ws, skip_ws, spec_required_ws, spec_skip_ws};
use crate::common::{
    column_identifier, complete, kw, map_done, rest_within, spec_column_identifier,
    spec_fail_after, spec_fail_as, spec_kw, Column, ColumnV, Keyword,
};
use crate::condition::{condition_expr, spec_condition_expr, ConditionExpression, ExprV};
use crate::internal::{needed_after, spec_needed_after, ErrorKind, IResult, Needed, ParseError};
use crate::join::{
    joins, joins_view, spec_joins, spec_table_list, table_list, tables_view, JoinClause, JoinV,
    Table,
};

verus! {

/// One selected field: `*`, or a column.
#[derive(Debug, PartialEq, Eq, Hash, Clone)]
pub enum FieldExpression {
    All,
    Col(Column),
}

pub enum FieldV {
    All,
    Col(ColumnV),
}

impl View for FieldExpression {
    type V = FieldV;

    open spec fn view(&self) -> FieldV {
        match self {
            FieldExpression::All => FieldV::All,
            FieldExpression::Col(c) => FieldV::Col(c@),
        }
    }
}

pub open spec fn fields_view(v: Seq<FieldExpression>) -> Seq<FieldV> {
    v.map_values(|f: FieldExpression| f@)
}

/// `*`, or else a column.
pub open spec fn spec_field(s: Seq<u8>) -> IResult<Seq<u8>, FieldV> {
    match spec_kw(s, Keyword::Star) {
        IResult::Done(r, _) => IResult::Done(r, FieldV::All),
        _ => match spec_column_identifier(s) {
            IResult::Done(r, c) => IResult::Done(r, FieldV::Col(c)),
            other => spec_fail_as(other),
        },
    }
}

fn field<'a>(i: &'a [u8]) -> (r: IResult<&'a [u8], FieldExpression>)
    ensures
        r@ == spec_field(i@),
        r@ is Done ==> r@->Done_0.len() < i@.len(),
        !(r@ is Incomplete),
{
    if let IResult::Done(r, _) = kw(i, Keyword::Star) {
        return IResult::Done(r, FieldExpression::All);
    }
    match column_identifier(i) {
        IResult::Done(r, c) => IResult::Done(r, FieldExpression::Col(c)),
        IResult::Error(e) => IResult::Error(e),
        IResult::Incomplete(n) => IResult::Incomplete(n),
    }
}

/// Further `, field` items of a list. Input that ends right after a comma
/// asks for more.
pub open spec fn spec_field_tail(s: Seq<u8>) -> IResult<Seq<u8>, Seq<FieldV>>
    decreases s.len(),
{
    let t = spec_skip_ws(s);
    if t.len() > 0 && t[0] == ',' as u8 {
        let u = spec_skip_ws(t.drop_first());
        if u.len() == 0 {
            IResult::Incomplete(spec_needed_after(s.len() as int, Needed::Size(1)))
        } else {
            match spec_field(u) {
                IResult::Done(r, x) => if r.len() < s.len() {
                    match spec_field_tail(r) {
                        IResult::Done(r2, more) => IResult::Done(r2, seq![x] + more),
                        other => spec_fail_after(other, s.len() - r.len()),
                    }
                } else {
                    IResult::Done(s, seq![])
                },
                _ => IResult::Done(s, seq![]),
            }
        }
    } else {
        IResult::Done(s, seq![])
    }
}

/// One or more fields, separated by commas.
pub open spec fn spec_field_list(s: Seq<u8>) -> IResult<Seq<u8>, Seq<FieldV>> {
    if s.len() == 0 {
        IResult::Incomplete(Needed::Size(1))
    } else {
        match spec_field(s) {
            IResult::Done(r, first) => match spec_field_tail(r) {
                IResult::Done(r2, more) => IResult::Done(r2, seq![first] + more),
                other => spec_fail_after(other, s.len() - r.len()),
            },
            other => spec_fail_as(other),
        }
    }
}

fn field_tail<'a>(i: &'a [u8]) -> (r: IResult<&'a [u8], Vec<FieldExpression>>)
    ensures
        map_done(r@, |v: Seq<FieldExpression>| fields_view(v)) == spec_field_tail(i@),
        rest_within(r@, i@),
    decreases i@.len(),
{
    let t = skip_ws(i);
    if t.len() > 0 && t[0] == ',' as u8 {
        let after = vstd::slice::slice_subrange(t, 1, t.len());
        proof {
            assert(after@ =~= t@.drop_first());
        }
        let u = skip_ws(after);
        if u.len() == 0 {
            return IResult::Incomplete(needed_after(i.len(), Needed::Size(1)));
        }
        if let IResult::Done(r, x) = field(u) {
            match field_tail(r) {
                IResult::Done(r2, mut more) => {
                    let ghost old_more = more@;
                    let item = x;
                    let ghost xv = item@;
                    more.insert(0, item);
                    proof {
                        assert(fields_view(more@) =~= seq![xv] + fields_view(old_more));
                    }
                    return IResult::Done(r2, more);
                },
                IResult::Error(e) => {
                    return IResult::Error(e);
                },
                IResult::Incomplete(n) => {
                    return IResult::Incomplete(needed_after(i.len() - r.len(), n));
                },
            }
        }
    }
    proof {
        assert(fields_view(Seq::<FieldExpression>::empty()) =~= seq![]);
    }
    IResult::Done(i, Vec::new())
}

/// Parses one or more selected fields separated by commas.
pub fn field_list<'a>(i: &'a [u8]) -> (r: IResult<&'a [u8], Vec<FieldExpression>>)
    ensures
        map_done(r@, |v: Seq<FieldExpression>| fields_view(v)) == spec_field_list(i@),
        rest_within(r@, i@),
{
    if i.len() == 0 {
        return IResult::Incomplete(Needed::Size(1));
    }
    match field(i) {
        IResult::Done(r, x) => match field_tail(r) {
            IResult::Done(r2, mut more) => {
                let ghost old_more = more@;
                let item = x;
                let ghost xv = item@;
                more.insert(0, item);
                proof {
                    assert(fields_view(more@) =~= seq![xv] + fields_view(old_more));
                }
                IResult::Done(r2, more)
            },
            IResult::Error(e) => IResult::Error(e),
            IResult::Incomplete(n) => IResult::Incomplete(needed_after(i.len() - r.len(), n)),
        },
        IResult::Error(e) => IResult::Error(e),
        IResult::Incomplete(n) => IResult::Incomplete(n),
    }
}

/// Optional whitespace, `WHERE`, and a condition. Input that ends inside the
/// keyword or the condition asks for more, counted from the start.
pub open spec fn spec_where_clause(s: Seq<u8>) -> IResult<Seq<u8>, ExprV> {
    let t = spec_skip_ws(s);
    match spec_kw(t, Keyword::Where) {
        IResult::Done(r1, _) => match spec_condition_expr(r1) {
            IResult::Done(r2, e) => IResult::Done(r2, e),
            other => spec_fail_after(other, s.len() - r1.len()),
        },
        other => spec_fail_after(other, s.len() - t.len()),
    }
}

/// Parses the `WHERE` clause of a selection.
pub fn where_clause<'a>(i: &'a [u8]) -> (r: IResult<&'a [u8], ConditionExpression>)
    ensures
        r@ == spec_where_clause(i@),
        rest_within(r@, i@),
{
    let t = skip_ws(i);
    match kw(t, Keyword::Where) {
        IResult::Done(r1, _) => match condition_expr(r1) {
            IResult::Done(r2, e) => IResult::Done(r2, e),
            IResult::Error(e) => IResult::Error(e),
            IResult::Incomplete(n) => IResult::Incomplete(needed_after(i.len() - r1.len(), n)),
        },
        IResult::Error(e) => IResult::Error(e),
        IResult::Incomplete(n) => IResult::Incomplete(needed_after(i.len() - t.len(), n)),
    }
}

/// The end of a statement: optional whitespace, then `;` and optional
/// whitespace, or the end of the input.
pub open spec fn spec_statement_terminator(s: Seq<u8>) -> IResult<Seq<u8>, ()> {
    let t = spec_skip_ws(s);
    if t.len() == 0 {
        IResult::Done(t, ())
    } else {
        match spec_kw(t, Keyword::Semicolon) {
            IResult::Done(r, _) => IResult::Done(spec_skip_ws(r), ()),
            other => spec_fail_after(other, s.len() - t.len()),
        }
    }
}

pub fn statement_terminator<'a>(i: &'a [u8]) -> (r: IResult<&'a [u8], ()>)
    ensures
        r@ == spec_statement_terminator(i@),
        rest_within(r@, i@),
{
    let t = skip_ws(i);
    if t.len() == 0 {
        IResult::Done(t, ())
    } else {
        match kw(t, Keyword::Semicolon) {
            IResult::Done(r, _) => IResult::Done(skip_ws(r), ()),
            IResult::Error(e) => IResult::Error(e),
            IResult::Incomplete(n) => IResult::Incomplete(needed_after(i.len() - t.len(), n)),
        }
    }
}

/// A `SELECT` statement.
#[derive(Debug, PartialEq, Eq, Hash)]
pub struct SelectStatement {
    pub tables: Vec<Table>,
    pub fields: Vec<FieldExpression>,
    pub join: Vec<JoinClause>,
    pub where_clause: Option<ConditionExpression>,
}

pub struct SelectV {
    pub tables: Seq<Seq<u8>>,
    pub fields: Seq<FieldV>,
    pub join: Seq<JoinV>,
    pub where_clause: Option<ExprV>,
}

impl View for SelectStatement {
    type V = SelectV;

    open spec fn view(&self) -> SelectV {
        SelectV {
            tables: tables_view(self.tables@),
            fields: fields_view(self.fields@),
            join: joins_view(self.join@),
            where_clause: match self.where_clause {
                Some(e) => Some(e@),
                None => None,
            },
        }
    }
}

/// The end of a selection after its joins: an optional `WHERE` clause and the
/// end of the statement.
pub open spec fn spec_select_tail(
    s: Seq<u8>,
    r8: Seq<u8>,
    fields: Seq<FieldV>,
    tables: Seq<Seq<u8>>,
    join: Seq<JoinV>,
) -> IResult<Seq<u8>, SelectV> {
    let w = spec_where_clause(r8);
    let (cond, r9) = match w {
        IResult::Done(r, e) => (Some(e), r),
        _ => (None, r8),
    };
    if w is Incomplete && spec_skip_ws(r8).len() > 0 {
        IResult::Incomplete(spec_needed_after(s.len() - r8.len(), w->Incomplete_0))
    } else {
        match spec_statement_terminator(r9) {
            IResult::Done(r10, _) => IResult::Done(
                r10,
                SelectV { tables, fields, join, where_clause: cond },
            ),
            other => spec_fail_after(other, s.len() - r9.len()),
        }
    }
}

/// `SELECT`, required whitespace, fields, `FROM`, tables, zero or more joins, an
/// optional `WHERE` clause, and the end of the statement. Every step's
/// failure is the statement's; a request for more input counts from the start.
/// A `WHERE` clause that fails leaves the clause out; one that asks for more
/// input asks for it, unless the input has ended where the clause would start.
pub open spec fn spec_selection(s: Seq<u8>) -> IResult<Seq<u8>, SelectV> {
    match spec_kw(s, Keyword::Select) {
        IResult::Done(r1, _) => match spec_required_ws(r1) {
            IResult::Done(r2, _) => match spec_field_list(r2) {
                IResult::Done(r3, fields) => {
                    let r4 = spec_skip_ws(r3);
                    match spec_kw(r4, Keyword::From) {
                        IResult::Done(r5, _) => {
                            let r6 = spec_skip_ws(r5);
                            match spec_table_list(r6) {
                                IResult::Done(r7, tables) => match spec_joins(r7) {
                                    IResult::Done(r8, join) => spec_select_tail(s, r8, fields, tables, join),
                                    other => spec_fail_after(other, s.len() - r7.len()),
                                },
                                other => spec_fail_after(other, s.len() - r6.len()),
                            }
                        },
                        other => spec_fail_after(other, s.len() - r4.len()),
                    }
                },
                other => spec_fail_after(other, s.len() - r2.len()),
            },
            other => spec_fail_after(other, s.len() - r1.len()),
        },
        other => spec_fail_after(other, 0),
    }
}

/// Parses a SQL selection query.
pub fn selection<'a>(i: &'a [u8]) -> (r: IResult<&'a [u8], SelectStatement>)
    ensures
        r@ == spec_selection(i@),
        rest_within(r@, i@),
{
    let r1 = match kw(i, Keyword::Select) {
        IResult::Done(r, _) => r,
        IResult::Error(e) => {
            return IResult::Error(e);
        },
        IResult::Incomplete(n) => {
            return IResult::Incomplete(needed_after(0, n));
        },
    };
    let r2 = match required_ws(r1) {
        IResult::Done(r, _) => r,
        IResult::Error(e) => {
            return IResult::Error(e);
        },
        IResult::Incomplete(n) => {
            return IResult::Incomplete(needed_after(i.len() - r1.len(), n));
        },
    };
    let (r3, fields) = match field_list(r2) {
        IResult::Done(r, f) => (r, f),
        IResult::Error(e) => {
            return IResult::Error(e);
        },
        IResult::Incomplete(n) => {
            return IResult::Incomplete(needed_after(i.len() - r2.len(), n));
        },
    };
    let r4 = skip_ws(r3);
    let r5 = match kw(r4, Keyword::From) {
        IResult::Done(r, _) => r,
        IResult::Error(e) => {
            return IResult::Error(e);
        },
        IResult::Incomplete(n) => {
            return IResult::Incomplete(needed_after(i.len() - r4.len(), n));
        },
    };
    let r6 = skip_ws(r5);
    let (r7, tables) = match table_list(r6) {
        IResult::Done(r, t) => (r, t),
        IResult::Error(e) => {
            return IResult::Error(e);
        },
        IResult::Incomplete(n) => {
            return IResult::Incomplete(needed_after(i.len() - r6.len(), n));
        },
    };
    let (r8, join) = match joins(r7) {
        IResult::Done(r, j) => (r, j),
        IResult::Error(e) => {
            return IResult::Error(e);
        },
        IResult::Incomplete(n) => {
            return IResult::Incomplete(needed_after(i.len() - r7.len(), n));
        },
    };
    let (cond, r9) = match where_clause(r8) {
        IResult::Done(r, e) => (Some(e), r),
        IResult::Error(_) => (None, r8),
        IResult::Incomplete(n) => {
            if skip_ws(r8).len() > 0 {
                return IResult::Incomplete(needed_after(i.len() - r8.len(), n));
            }
            (None, r8)
        },
    };
    match statement_terminator(r9) {
        IResult::Done(r10, _) => IResult::Done(
            r10,
            SelectStatement { tables, fields, join, where_clause: cond },
        ),
        IResult::Error(e) => IResult::Error(e),
        IResult::Incomplete(n) => IResult::Incomplete(needed_after(i.len() - r9.len(), n)),
    }
}

} // verus!

verus! {

/// A whole statement held in memory: a selection and the input after it, or
/// the failure. A request for more input is a failure here, of kind
/// `Complete` at the start of the input.
pub fn parse_select<'a>(i: &'a [u8]) -> (r: Result<(SelectStatement, &'a [u8]), ParseError<&'a [u8]>>)
    ensures
        match spec_selection(i@) {
            IResult::Done(rest, v) => r is Ok && r->Ok_0.0@ == v && r->Ok_0.1@ == rest,
            IResult::Error(ParseError::Position(k, p)) => r is Err && r->Err_0->Position_0 == k
                && r->Err_0->Position_1@ == p,
            IResult::Incomplete(_) => r is Err && r->Err_0->Position_0 == ErrorKind::Complete
                && r->Err_0->Position_1@ == i@,
        },
{
    match complete(selection(i), i) {
        IResult::Done(rest, s) => Ok((s, rest)),
        IResult::Error(e) => Err(e),
        IResult::Incomplete(_) => Err(ParseError::Position(ErrorKind::Complete, i)),
    }
}

} // verus!
