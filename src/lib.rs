//! A verified parser for a subset of SQL `SELECT` statements, together with the
//! small parser-combinator runtime its grammar is built from.
//!
//! Every rule is a function from an input byte slice to an [`IResult`]: the
//! remaining input and the value produced, a failure with its kind and
//! position, or a request for more input. Each rule's contract states its
//! result as a spec function over the input's bytes.
pub mod internal;
pub mod bytes;
pub mod common;
pub mod condition;
pub mod text;
pub mod join;
pub mod select;
pub mod laws;

pub use internal::{error_to_u32, ErrorKind, IResult, Needed, ParseError};
pub use bytes::{caseless_tag, multispace, tag, AsBytes, AsChar, InputLength};
pub use common::{Column, Literal, Operator};
pub use condition::{
    and_expr, condition_expr, not_expr, parenthetical_expr, ConditionBase, ConditionExpression,
    ConditionTree,
};
pub use join::{JoinClause, JoinConstraint, JoinOperator, JoinRightSide, Table};
pub use select::{parse_select, selection, where_clause, FieldExpression, SelectStatement};
