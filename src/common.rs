//! Columns, literals, operators and the lexical recognizers of the grammar.
use vstd::prelude::*;

use crate::bytes::{
    lemma_run_len_bound, run_len, scan, spec_tag_with, tag_with, ByteClass,
};
use crate::internal::{spec_needed_after, ErrorKind, IResult, ParseError};

verus! {

/// No identifier was found.
pub const EXPECTED_IDENTIFIER: u32 = 1;

/// No integer was found, or it does not fit in an `i64`.
pub const EXPECTED_INTEGER: u32 = 2;

/// No quoted string was found.
pub const EXPECTED_STRING: u32 = 3;

/// Keywords and punctuation of the grammar.
#[derive(Debug, PartialEq, Eq, Clone, Copy, Structural)]
pub enum Keyword {
    Or,
    And,
    Not,
    Select,
    From,
    Where,
    Natural,
    Using,
    On,
    OpenParen,
    CloseParen,
    Question,
    Semicolon,
    Comma,
    Star,
}

pub open spec fn spec_keyword(k: Keyword) -> Seq<u8> {
    match k {
        Keyword::Or => seq!['o' as u8, 'r' as u8],
        Keyword::And => seq!['a' as u8, 'n' as u8, 'd' as u8],
        Keyword::Not => seq!['n' as u8, 'o' as u8, 't' as u8],
        Keyword::Select => seq!['s' as u8, 'e' as u8, 'l' as u8, 'e' as u8, 'c' as u8, 't' as u8],
        Keyword::From => seq!['f' as u8, 'r' as u8, 'o' as u8, 'm' as u8],
        Keyword::Where => seq!['w' as u8, 'h' as u8, 'e' as u8, 'r' as u8, 'e' as u8],
        Keyword::Natural => seq![
            'n' as u8,
            'a' as u8,
            't' as u8,
            'u' as u8,
            'r' as u8,
            'a' as u8,
            'l' as u8,
        ],
        Keyword::Using => seq!['u' as u8, 's' as u8, 'i' as u8, 'n' as u8, 'g' as u8],
        Keyword::On => seq!['o' as u8, 'n' as u8],
        Keyword::OpenParen => seq!['(' as u8],
        Keyword::CloseParen => seq![')' as u8],
        Keyword::Question => seq!['?' as u8],
        Keyword::Semicolon => seq![';' as u8],
        Keyword::Comma => seq![',' as u8],
        Keyword::Star => seq!['*' as u8],
    }
}

pub fn keyword(k: Keyword) -> (r: Vec<u8>)
    ensures
        r@ == spec_keyword(k),
{
    match k {
        Keyword::Or => vec!['o' as u8, 'r' as u8],
        Keyword::And => vec!['a' as u8, 'n' as u8, 'd' as u8],
        Keyword::Not => vec!['n' as u8, 'o' as u8, 't' as u8],
        Keyword::Select => vec!['s' as u8, 'e' as u8, 'l' as u8, 'e' as u8, 'c' as u8, 't' as u8],
        Keyword::From => vec!['f' as u8, 'r' as u8, 'o' as u8, 'm' as u8],
        Keyword::Where => vec!['w' as u8, 'h' as u8, 'e' as u8, 'r' as u8, 'e' as u8],
        Keyword::Natural => vec![
            'n' as u8,
            'a' as u8,
            't' as u8,
            'u' as u8,
            'r' as u8,
            'a' as u8,
            'l' as u8,
        ],
        Keyword::Using => vec!['u' as u8, 's' as u8, 'i' as u8, 'n' as u8, 'g' as u8],
        Keyword::On => vec!['o' as u8, 'n' as u8],
        Keyword::OpenParen => vec!['(' as u8],
        Keyword::CloseParen => vec![')' as u8],
        Keyword::Question => vec!['?' as u8],
        Keyword::Semicolon => vec![';' as u8],
        Keyword::Comma => vec![',' as u8],
        Keyword::Star => vec!['*' as u8],
    }
}

/// Matches a keyword, ignoring case, or a punctuation mark.
pub open spec fn spec_kw(s: Seq<u8>, k: Keyword) -> IResult<Seq<u8>, Seq<u8>> {
    spec_tag_with(s, spec_keyword(k), true)
}

pub fn kw<'a>(i: &'a [u8], k: Keyword) -> (r: IResult<&'a [u8], &'a [u8]>)
    ensures
        r@ == spec_kw(i@, k),
        r@ is Done ==> r@->Done_0.len() < i@.len(),
{
    let lit = keyword(k);
    tag_with(i, lit.as_slice(), true)
}

/// The same failure, in a result of another value type.
pub open spec fn spec_fail_as<A, B>(r: IResult<Seq<u8>, A>) -> IResult<Seq<u8>, B> {
    match r {
        IResult::Done(s, _) => IResult::Error(ParseError::Position(ErrorKind::Complete, s)),
        IResult::Error(e) => IResult::Error(e),
        IResult::Incomplete(n) => IResult::Incomplete(n),
    }
}

/// The failure of a step of a sequence that had consumed `consumed` bytes before it.
pub open spec fn spec_fail_after<A, B>(r: IResult<Seq<u8>, A>, consumed: int) -> IResult<Seq<u8>, B> {
    match r {
        IResult::Done(s, _) => IResult::Error(ParseError::Position(ErrorKind::Complete, s)),
        IResult::Error(e) => IResult::Error(e),
        IResult::Incomplete(n) => IResult::Incomplete(spec_needed_after(consumed, n)),
    }
}

pub fn fail_after<'a, A: View, B: View>(r: IResult<&'a [u8], A>, consumed: usize) -> (r2: IResult<
    &'a [u8],
    B,
>)
    requires
        !(r is Done),
    ensures
        r2@ == spec_fail_after::<A::V, B::V>(r@, consumed as int),
        !(r2 is Done),
{
    match r {
        IResult::Done(s, _) => IResult::Error(ParseError::Position(ErrorKind::Complete, s)),
        IResult::Error(e) => IResult::Error(e),
        IResult::Incomplete(n) => IResult::Incomplete(crate::internal::needed_after(consumed, n)),
    }
}

/// The next alternative where a branch failed; where it asked for more input,
/// after `consumed` bytes, that request.
pub open spec fn spec_or_else<A, B>(r: IResult<Seq<u8>, A>, alt: IResult<Seq<u8>, B>, consumed: int) -> IResult<Seq<u8>, B> {
    match r {
        IResult::Incomplete(n) => IResult::Incomplete(spec_needed_after(consumed, n)),
        _ => alt,
    }
}

/// `Incomplete` is turned into a failure at `s`: no more input is expected here.
pub open spec fn spec_complete<O>(r: IResult<Seq<u8>, O>, s: Seq<u8>) -> IResult<Seq<u8>, O> {
    match r {
        IResult::Incomplete(_) => IResult::Error(ParseError::Position(ErrorKind::Complete, s)),
        _ => r,
    }
}

pub fn complete<'a, O: View>(r: IResult<&'a [u8], O>, i: &'a [u8]) -> (r2: IResult<&'a [u8], O>)
    ensures
        r2@ == spec_complete(r@, i@),
{
    match r {
        IResult::Incomplete(_) => IResult::Error(ParseError::Position(ErrorKind::Complete, i)),
        _ => r,
    }
}

/// A result with `f` applied to the value of a success.
pub open spec fn map_done<A, B>(r: IResult<Seq<u8>, A>, f: spec_fn(A) -> B) -> IResult<Seq<u8>, B> {
    match r {
        IResult::Done(s, a) => IResult::Done(s, f(a)),
        IResult::Error(e) => IResult::Error(e),
        IResult::Incomplete(n) => IResult::Incomplete(n),
    }
}

/// A parse result whose remaining input is no longer than the input.
pub open spec fn rest_within<O>(r: IResult<Seq<u8>, O>, s: Seq<u8>) -> bool {
    r is Done ==> r->Done_0.len() <= s.len()
}

/// A column reference, optionally qualified by its table.
#[derive(Debug, PartialEq, Eq, Hash, Clone)]
pub struct Column {
    pub name: Vec<u8>,
    pub table: Option<Vec<u8>>,
}

pub struct ColumnV {
    pub name: Seq<u8>,
    pub table: Option<Seq<u8>>,
}

pub open spec fn opt_bytes_view(o: Option<Vec<u8>>) -> Option<Seq<u8>> {
    match o {
        Some(v) => Some(v@),
        None => None,
    }
}

impl View for Column {
    type V = ColumnV;

    open spec fn view(&self) -> ColumnV {
        ColumnV { name: self.name@, table: opt_bytes_view(self.table) }
    }
}

pub fn copy_bytes(b: &Vec<u8>) -> (r: Vec<u8>)
    ensures
        r@ == b@,
{
    vstd::slice::slice_to_vec(b.as_slice())
}

pub fn same_bytes(a: &[u8], b: &[u8]) -> (r: bool)
    ensures
        r == (a@ == b@),
{
    if a.len() != b.len() {
        return false;
    }
    let mut k: usize = 0;
    while k < a.len()
        invariant
            a@.len() == b@.len(),
            k <= a@.len(),
            forall|j: int| 0 <= j < k ==> a@[j] == b@[j],
        decreases a@.len() - k,
    {
        if a[k] != b[k] {
            return false;
        }
        k = k + 1;
    }
    assert(a@ =~= b@);
    true
}

impl Column {
    /// A copy of the column.
    pub fn duplicate(&self) -> (r: Column)
        ensures
            r@ == self@,
    {
        let table = match &self.table {
            Some(t) => Some(copy_bytes(t)),
            None => None,
        };
        Column { name: copy_bytes(&self.name), table }
    }

    /// Whether two columns name the same thing.
    pub fn same_as(&self, other: &Column) -> (r: bool)
        ensures
            r == (self@ == other@),
    {
        if !same_bytes(self.name.as_slice(), other.name.as_slice()) {
            return false;
        }
        match (&self.table, &other.table) {
            (Some(a), Some(b)) => same_bytes(a.as_slice(), b.as_slice()),
            (None, None) => true,
            _ => false,
        }
    }
}

/// A literal value.
#[derive(Debug, PartialEq, Eq, Hash, Clone)]
pub enum Literal {
    Integer(i64),
    String(Vec<u8>),
}

pub enum LiteralV {
    Integer(int),
    String(Seq<u8>),
}

impl View for Literal {
    type V = LiteralV;

    open spec fn view(&self) -> LiteralV {
        match self {
            Literal::Integer(n) => LiteralV::Integer(*n as int),
            Literal::String(s) => LiteralV::String(s@),
        }
    }
}

/// Binary operators of conditions.
#[derive(Debug, PartialEq, Eq, Hash, Clone, Copy, Structural)]
pub enum Operator {
    Not,
    And,
    Or,
    Like,
    NotLike,
    Equal,
    NotEqual,
    Greater,
    GreaterOrEqual,
    Less,
    LessOrEqual,
    In,
}

impl View for Operator {
    type V = Operator;

    open spec fn view(&self) -> Operator {
        *self
    }
}

/// The comparison operators, in the order in which they are tried: a longer
/// operator before any operator that is a prefix of it.
pub open spec fn spec_comparison_entry(k: int) -> (Seq<u8>, Operator) {
    if k == 0 {
        (seq!['n' as u8, 'o' as u8, 't' as u8, '_' as u8, 'l' as u8, 'i' as u8, 'k' as u8, 'e' as u8], Operator::NotLike)
    } else if k == 1 {
        (seq!['l' as u8, 'i' as u8, 'k' as u8, 'e' as u8], Operator::Like)
    } else if k == 2 {
        (seq!['!' as u8, '=' as u8], Operator::NotEqual)
    } else if k == 3 {
        (seq!['<' as u8, '>' as u8], Operator::NotEqual)
    } else if k == 4 {
        (seq!['>' as u8, '=' as u8], Operator::GreaterOrEqual)
    } else if k == 5 {
        (seq!['<' as u8, '=' as u8], Operator::LessOrEqual)
    } else if k == 6 {
        (seq!['=' as u8], Operator::Equal)
    } else if k == 7 {
        (seq!['<' as u8], Operator::Less)
    } else if k == 8 {
        (seq!['>' as u8], Operator::Greater)
    } else {
        (seq!['i' as u8, 'n' as u8], Operator::In)
    }
}

/// The number of comparison operator spellings.
pub const COMPARISON_ENTRIES: usize = 10;

fn comparison_entry(k: usize) -> (r: (Vec<u8>, Operator))
    ensures
        r.0@ == spec_comparison_entry(k as int).0,
        r.1 == spec_comparison_entry(k as int).1,
{
    if k == 0 {
        (vec!['n' as u8, 'o' as u8, 't' as u8, '_' as u8, 'l' as u8, 'i' as u8, 'k' as u8, 'e' as u8], Operator::NotLike)
    } else if k == 1 {
        (vec!['l' as u8, 'i' as u8, 'k' as u8, 'e' as u8], Operator::Like)
    } else if k == 2 {
        (vec!['!' as u8, '=' as u8], Operator::NotEqual)
    } else if k == 3 {
        (vec!['<' as u8, '>' as u8], Operator::NotEqual)
    } else if k == 4 {
        (vec!['>' as u8, '=' as u8], Operator::GreaterOrEqual)
    } else if k == 5 {
        (vec!['<' as u8, '=' as u8], Operator::LessOrEqual)
    } else if k == 6 {
        (vec!['=' as u8], Operator::Equal)
    } else if k == 7 {
        (vec!['<' as u8], Operator::Less)
    } else if k == 8 {
        (vec!['>' as u8], Operator::Greater)
    } else {
        (vec!['i' as u8, 'n' as u8], Operator::In)
    }
}

/// Ordered alternation over the comparison operators from entry `k` on: a
/// mismatch tries the next one, the last one's mismatch is the result, and
/// input that ends inside an operator asks for more.
pub open spec fn spec_comparison_from(s: Seq<u8>, k: int) -> IResult<Seq<u8>, Operator>
    decreases COMPARISON_ENTRIES - k,
{
    let (lit, op) = spec_comparison_entry(k);
    match spec_tag_with(s, lit, true) {
        IResult::Done(r, _) => IResult::Done(r, op),
        IResult::Error(e) => if k + 1 < COMPARISON_ENTRIES {
            spec_comparison_from(s, k + 1)
        } else {
            IResult::Error(e)
        },
        IResult::Incomplete(n) => IResult::Incomplete(n),
    }
}

pub open spec fn spec_binary_comparison_operator(s: Seq<u8>) -> IResult<Seq<u8>, Operator> {
    spec_comparison_from(s, 0)
}

fn comparison_from<'a>(i: &'a [u8], k: usize) -> (r: IResult<&'a [u8], Operator>)
    requires
        k < COMPARISON_ENTRIES,
    ensures
        r@ == spec_comparison_from(i@, k as int),
        rest_within(r@, i@),
    decreases COMPARISON_ENTRIES - k,
{
    let (lit, op) = comparison_entry(k);
    match tag_with(i, lit.as_slice(), true) {
        IResult::Done(r, _) => IResult::Done(r, op),
        IResult::Error(e) => if k + 1 < COMPARISON_ENTRIES {
            comparison_from(i, k + 1)
        } else {
            IResult::Error(e)
        },
        IResult::Incomplete(n) => IResult::Incomplete(n),
    }
}

/// A comparison operator: `not_like`, `like`, `!=`, `<>`, `>=`, `<=`, `=`, `<`, `>` or `in`.
pub fn binary_comparison_operator<'a>(i: &'a [u8]) -> (r: IResult<&'a [u8], Operator>)
    ensures
        r@ == spec_binary_comparison_operator(i@),
        rest_within(r@, i@),
{
    comparison_from(i, 0)
}

/// A name: one or more letters, digits or `_`.
pub open spec fn spec_identifier(s: Seq<u8>) -> IResult<Seq<u8>, Seq<u8>> {
    let k = run_len(s, ByteClass::Ident);
    if k == 0 {
        IResult::Error(ParseError::Position(ErrorKind::Custom(EXPECTED_IDENTIFIER), s))
    } else {
        IResult::Done(s.subrange(k as int, s.len() as int), s.subrange(0, k as int))
    }
}

pub fn identifier<'a>(i: &'a [u8]) -> (r: IResult<&'a [u8], &'a [u8]>)
    ensures
        r@ == spec_identifier(i@),
        r@ is Done ==> r@->Done_0.len() < i@.len(),
        !(r@ is Incomplete),
{
    let k = scan(i, ByteClass::Ident);
    if k == 0 {
        IResult::Error(ParseError::Position(ErrorKind::Custom(EXPECTED_IDENTIFIER), i))
    } else {
        IResult::Done(vstd::slice::slice_subrange(i, k, i.len()), vstd::slice::slice_subrange(i, 0, k))
    }
}

/// A column: a name, or a table name, `.`, and a name.
pub open spec fn spec_column_identifier(s: Seq<u8>) -> IResult<Seq<u8>, ColumnV> {
    match spec_identifier(s) {
        IResult::Done(r1, first) => if r1.len() > 0 && r1[0] == '.' as u8 {
            match spec_identifier(r1.drop_first()) {
                IResult::Done(r2, second) => IResult::Done(
                    r2,
                    ColumnV { name: second, table: Some(first) },
                ),
                other => spec_fail_as(other),
            }
        } else {
            IResult::Done(r1, ColumnV { name: first, table: None })
        },
        other => spec_fail_as(other),
    }
}

pub fn column_identifier<'a>(i: &'a [u8]) -> (r: IResult<&'a [u8], Column>)
    ensures
        r@ == spec_column_identifier(i@),
        r@ is Done ==> r@->Done_0.len() < i@.len(),
        !(r@ is Incomplete),
{
    match identifier(i) {
        IResult::Done(r1, first) => {
            if r1.len() > 0 && r1[0] == '.' as u8 {
                let after = vstd::slice::slice_subrange(r1, 1, r1.len());
                proof {
                    assert(after@ =~= r1@.drop_first());
                }
                match identifier(after) {
                    IResult::Done(r2, second) => IResult::Done(
                        r2,
                        Column {
                            name: vstd::slice::slice_to_vec(second),
                            table: Some(vstd::slice::slice_to_vec(first)),
                        },
                    ),
                    IResult::Error(e) => IResult::Error(e),
                    IResult::Incomplete(n) => IResult::Incomplete(n),
                }
            } else {
                IResult::Done(r1, Column { name: vstd::slice::slice_to_vec(first), table: None })
            }
        },
        IResult::Error(e) => IResult::Error(e),
        IResult::Incomplete(n) => IResult::Incomplete(n),
    }
}

/// The value of a string of decimal digits.
pub open spec fn digits_value(s: Seq<u8>) -> nat
    decreases s.len(),
{
    if s.len() == 0 {
        0
    } else {
        digits_value(s.drop_last()) * 10 + (s.last() - '0' as u8) as nat
    }
}

proof fn lemma_digits_grow(s: Seq<u8>, j: int, k: int)
    requires
        0 <= j <= k <= s.len(),
        forall|x: int| 0 <= x < s.len() ==> '0' as u8 <= #[trigger] s[x],
    ensures
        digits_value(s.subrange(0, j)) <= digits_value(s.subrange(0, k)),
    decreases k - j,
{
    if j < k {
        lemma_digits_grow(s, j, k - 1);
        assert(s.subrange(0, k).drop_last() =~= s.subrange(0, k - 1));
        assert(s.subrange(0, k).last() == s[k - 1]);
    }
}

/// The largest magnitude an integer literal may have: that of the least
/// `i64` where it is negative, else the greatest.
pub open spec fn integer_limit(neg: bool) -> nat {
    if neg {
        9223372036854775808
    } else {
        9223372036854775807
    }
}

/// An integer: an optional `-` and decimal digits, whose value fits in an `i64`.
pub open spec fn spec_integer_literal(s: Seq<u8>) -> IResult<Seq<u8>, LiteralV> {
    let neg = s.len() > 0 && s[0] == '-' as u8;
    let d = if neg { s.drop_first() } else { s };
    let k = run_len(d, ByteClass::Digit);
    let v = digits_value(d.subrange(0, k as int));
    if k == 0 || v > integer_limit(neg) {
        IResult::Error(ParseError::Position(ErrorKind::Custom(EXPECTED_INTEGER), s))
    } else {
        IResult::Done(
            d.subrange(k as int, d.len() as int),
            LiteralV::Integer(if neg { -v } else { v as int }),
        )
    }
}

pub fn integer_literal<'a>(i: &'a [u8]) -> (r: IResult<&'a [u8], Literal>)
    ensures
        r@ == spec_integer_literal(i@),
        r@ is Done ==> r@->Done_0.len() < i@.len(),
        !(r@ is Incomplete),
{
    let neg = i.len() > 0 && i[0] == '-' as u8;
    let d = if neg {
        vstd::slice::slice_subrange(i, 1, i.len())
    } else {
        i
    };
    proof {
        if neg {
            assert(d@ =~= i@.drop_first());
        }
        lemma_run_len_bound(d@, ByteClass::Digit);
    }
    let k = scan(d, ByteClass::Digit);
    if k == 0 {
        return IResult::Error(ParseError::Position(ErrorKind::Custom(EXPECTED_INTEGER), i));
    }
    let limit: u64 = if neg {
        9223372036854775808
    } else {
        9223372036854775807
    };
    let mut acc: u64 = 0;
    let mut j: usize = 0;
    while j < k
        invariant
            k <= d@.len(),
            k == run_len(d@, ByteClass::Digit),
            neg == (i@.len() > 0 && i@[0] == '-' as u8),
            d@ == (if neg { i@.drop_first() } else { i@ }),
            j <= k,
            forall|x: int| 0 <= x < k ==> '0' as u8 <= #[trigger] d@[x] <= '9' as u8,
            acc == digits_value(d@.subrange(0, j as int)),
            acc <= integer_limit(neg),
            limit == integer_limit(neg),
        decreases k - j,
    {
        let digit = (d[j] - '0' as u8) as u64;
        proof {
            assert(d@.subrange(0, j + 1).drop_last() =~= d@.subrange(0, j as int));
        }
        if acc > limit / 10 || (acc == limit / 10 && digit > limit % 10) {
            proof {
                let ds = d@.subrange(0, k as int);
                assert forall|x: int| 0 <= x < ds.len() implies '0' as u8 <= #[trigger] ds[x] by {
                    assert(ds[x] == d@[x]);
                }
                assert(digits_value(d@.subrange(0, j + 1)) == acc * 10 + digit);
                assert(acc * 10 + digit > limit) by (nonlinear_arith)
                    requires
                        acc > limit / 10 || (acc == limit / 10 && digit > limit % 10),
                        limit == 9223372036854775808u64 || limit == 9223372036854775807u64,
                ;
                lemma_digits_grow(ds, j + 1, k as int);
                assert(ds.subrange(0, j + 1) =~= d@.subrange(0, j + 1));
                assert(ds.subrange(0, k as int) =~= ds);
            }
            return IResult::Error(ParseError::Position(ErrorKind::Custom(EXPECTED_INTEGER), i));
        }
        proof {
            assert(limit / 10 == 922337203685477580);
            assert(limit % 10 == limit - 9223372036854775800);
            assert(acc * 10 + digit <= limit) by (nonlinear_arith)
                requires
                    acc <= 922337203685477580,
                    acc == 922337203685477580 ==> digit <= limit - 9223372036854775800,
                    digit <= 9,
                    limit == 9223372036854775808u64 || limit == 9223372036854775807u64,
            ;
        }
        acc = acc * 10 + digit;
        j = j + 1;
    }
    let value: i64 = if neg {
        if acc == 9223372036854775808 {
            i64::MIN
        } else {
            -(acc as i64)
        }
    } else {
        acc as i64
    };
    IResult::Done(vstd::slice::slice_subrange(d, k, d.len()), Literal::Integer(value))
}

/// A string: the bytes between two single quotes.
pub open spec fn spec_string_literal(s: Seq<u8>) -> IResult<Seq<u8>, LiteralV> {
    if s.len() > 0 && s[0] == '\'' as u8 {
        let body = s.drop_first();
        let q = run_len(body, ByteClass::NotQuote);
        if q < body.len() {
            IResult::Done(
                body.subrange(q + 1int, body.len() as int),
                LiteralV::String(body.subrange(0, q as int)),
            )
        } else {
            IResult::Error(ParseError::Position(ErrorKind::Custom(EXPECTED_STRING), s))
        }
    } else {
        IResult::Error(ParseError::Position(ErrorKind::Custom(EXPECTED_STRING), s))
    }
}

pub fn string_literal<'a>(i: &'a [u8]) -> (r: IResult<&'a [u8], Literal>)
    ensures
        r@ == spec_string_literal(i@),
        r@ is Done ==> r@->Done_0.len() < i@.len(),
        !(r@ is Incomplete),
{
    if i.len() > 0 && i[0] == '\'' as u8 {
        let body = vstd::slice::slice_subrange(i, 1, i.len());
        proof {
            assert(body@ =~= i@.drop_first());
        }
        let q = scan(body, ByteClass::NotQuote);
        if q < body.len() {
            IResult::Done(
                vstd::slice::slice_subrange(body, q + 1, body.len()),
                Literal::String(vstd::slice::slice_to_vec(vstd::slice::slice_subrange(body, 0, q))),
            )
        } else {
            IResult::Error(ParseError::Position(ErrorKind::Custom(EXPECTED_STRING), i))
        }
    } else {
        IResult::Error(ParseError::Position(ErrorKind::Custom(EXPECTED_STRING), i))
    }
}

} // verus!
