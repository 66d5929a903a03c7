//! Byte classes, runs of bytes, whitespace, and literal matching.
use vstd::prelude::*;
use vstd::string::StringSliceAdditionalSpecFns;

use crate::internal::{ErrorKind, IResult, ParseError, Needed};

verus! {

/// The classes of bytes that the lexical rules scan over.
#[derive(Debug, PartialEq, Eq, Clone, Copy, Structural)]
pub enum ByteClass {
    /// Space, tab, carriage return, line feed.
    Space,
    /// ASCII letters and digits, and `_`.
    Ident,
    /// ASCII digits.
    Digit,
    /// Any byte but `'`.
    NotQuote,
}

pub open spec fn spec_is_alpha(b: u8) -> bool {
    (0x41 <= b && b <= 0x5A) || (0x61 <= b && b <= 0x7A)
}

pub open spec fn spec_is_digit(b: u8) -> bool {
    0x30 <= b && b <= 0x39
}

pub open spec fn spec_is_space(b: u8) -> bool {
    b == 0x20 || b == 0x09 || b == 0x0D || b == 0x0A
}

pub open spec fn in_class(b: u8, c: ByteClass) -> bool {
    match c {
        ByteClass::Space => spec_is_space(b),
        ByteClass::Ident => spec_is_alpha(b) || spec_is_digit(b) || b == 0x5F,
        ByteClass::Digit => spec_is_digit(b),
        ByteClass::NotQuote => b != 0x27,
    }
}

/// Length of the longest prefix of `s` whose bytes are all in class `c`.
pub open spec fn run_len(s: Seq<u8>, c: ByteClass) -> nat
    decreases s.len(),
{
    if s.len() > 0 && in_class(s[0], c) {
        1 + run_len(s.drop_first(), c)
    } else {
        0
    }
}

/// A run ends at the first byte outside the class.
pub proof fn lemma_run_len(s: Seq<u8>, c: ByteClass, k: int)
    requires
        0 <= k <= s.len(),
        forall|j: int| 0 <= j < k ==> in_class(#[trigger] s[j], c),
        k == s.len() || !in_class(s[k], c),
    ensures
        run_len(s, c) == k,
    decreases k,
{
    if k > 0 {
        let t = s.drop_first();
        assert forall|j: int| 0 <= j < k - 1 implies in_class(#[trigger] t[j], c) by {
            assert(t[j] == s[j + 1]);
        }
        if k < s.len() {
            assert(t[k - 1] == s[k]);
        }
        lemma_run_len(t, c, k - 1);
    }
}

pub proof fn lemma_run_len_bound(s: Seq<u8>, c: ByteClass)
    ensures
        run_len(s, c) <= s.len(),
        forall|j: int| 0 <= j < run_len(s, c) ==> in_class(#[trigger] s[j], c),
        run_len(s, c) < s.len() ==> !in_class(s[run_len(s, c) as int], c),
    decreases s.len(),
{
    if s.len() > 0 && in_class(s[0], c) {
        let t = s.drop_first();
        lemma_run_len_bound(t, c);
        assert forall|j: int| 0 <= j < run_len(s, c) implies in_class(#[trigger] s[j], c) by {
            if j > 0 {
                assert(s[j] == t[j - 1]);
            }
        }
        if run_len(s, c) < s.len() {
            assert(s[run_len(s, c) as int] == t[run_len(t, c) as int]);
        }
    }
}

pub fn byte_in_class(b: u8, c: ByteClass) -> (r: bool)
    ensures
        r == in_class(b, c),
{
    match c {
        ByteClass::Space => b == 0x20 || b == 0x09 || b == 0x0D || b == 0x0A,
        ByteClass::Ident => b.is_alpha() || b.is_0_to_9() || b == 0x5F,
        ByteClass::Digit => b.is_0_to_9(),
        ByteClass::NotQuote => b != 0x27,
    }
}

/// Counts the bytes at the start of `i` that are in class `c`.
pub fn scan(i: &[u8], c: ByteClass) -> (k: usize)
    ensures
        k == run_len(i@, c),
        k <= i@.len(),
{
    let mut k: usize = 0;
    while k < i.len() && byte_in_class(i[k], c)
        invariant
            k <= i@.len(),
            forall|j: int| 0 <= j < k ==> in_class(#[trigger] i@[j], c),
        decreases i@.len() - k,
    {
        k = k + 1;
    }
    proof {
        lemma_run_len(i@, c, k as int);
    }
    k
}

/// Byte-level character predicates, as the lexical rules use them.
pub trait AsChar: Sized {
    spec fn spec_byte(self) -> u8;

    fn as_char(self) -> (r: char)
        ensures
            r == (self.spec_byte() as char),
    ;

    fn is_alpha(self) -> (r: bool)
        ensures
            r == spec_is_alpha(self.spec_byte()),
    ;

    fn is_alphanum(self) -> (r: bool)
        ensures
            r == (spec_is_alpha(self.spec_byte()) || spec_is_digit(self.spec_byte())),
    ;

    fn is_0_to_9(self) -> (r: bool)
        ensures
            r == spec_is_digit(self.spec_byte()),
    ;

    fn is_hex_digit(self) -> (r: bool)
        ensures
            r == (spec_is_digit(self.spec_byte()) || (0x41 <= self.spec_byte() <= 0x46) || (0x61
                <= self.spec_byte() <= 0x66)),
    ;

    fn is_oct_digit(self) -> (r: bool)
        ensures
            r == (0x30 <= self.spec_byte() <= 0x37),
    ;
}

impl AsChar for u8 {
    open spec fn spec_byte(self) -> u8 {
        self
    }

    fn as_char(self) -> (r: char) {
        self as char
    }

    fn is_alpha(self) -> (r: bool) {
        (self >= 0x41 && self <= 0x5A) || (self >= 0x61 && self <= 0x7A)
    }

    fn is_alphanum(self) -> (r: bool) {
        self.is_alpha() || self.is_0_to_9()
    }

    fn is_0_to_9(self) -> (r: bool) {
        self >= 0x30 && self <= 0x39
    }

    fn is_hex_digit(self) -> (r: bool) {
        (self >= 0x30 && self <= 0x39) || (self >= 0x41 && self <= 0x46) || (self >= 0x61 && self
            <= 0x66)
    }

    fn is_oct_digit(self) -> (r: bool) {
        self >= 0x30 && self <= 0x37
    }
}

/// The length of a parser input.
pub trait InputLength {
    spec fn spec_input_len(&self) -> nat;

    fn input_len(&self) -> (r: usize)
        ensures
            r == self.spec_input_len(),
    ;
}

impl<'a> InputLength for &'a [u8] {
    open spec fn spec_input_len(&self) -> nat {
        self@.len()
    }

    fn input_len(&self) -> (r: usize) {
        self.len()
    }
}

impl<'a> InputLength for &'a str {
    open spec fn spec_input_len(&self) -> nat {
        self.spec_bytes().len()
    }

    fn input_len(&self) -> (r: usize) {
        str::as_bytes(*self).len()
    }
}

/// The bytes of a parser input or literal.
pub trait AsBytes {
    spec fn spec_as_bytes(&self) -> Seq<u8>;

    fn as_bytes(&self) -> (r: &[u8])
        ensures
            r@ == self.spec_as_bytes(),
    ;
}

impl<'a> AsBytes for &'a [u8] {
    open spec fn spec_as_bytes(&self) -> Seq<u8> {
        self@
    }

    fn as_bytes(&self) -> (r: &[u8]) {
        *self
    }
}

impl<'a> AsBytes for &'a str {
    open spec fn spec_as_bytes(&self) -> Seq<u8> {
        self.spec_bytes()
    }

    fn as_bytes(&self) -> (r: &[u8]) {
        str::as_bytes(*self)
    }
}

/// Whitespace: a run of one or more spaces, tabs, carriage returns or line feeds.
pub open spec fn spec_multispace(s: Seq<u8>) -> IResult<Seq<u8>, Seq<u8>> {
    let k = run_len(s, ByteClass::Space);
    if k == 0 {
        IResult::Error(ParseError::Position(ErrorKind::MultiSpace, s))
    } else {
        IResult::Done(s.subrange(k as int, s.len() as int), s.subrange(0, k as int))
    }
}

/// Recognizes spaces, tabs, carriage returns and line feeds.
pub fn multispace<'a>(input: &'a [u8]) -> (r: IResult<&'a [u8], &'a [u8]>)
    ensures
        r@ == spec_multispace(input@),
        r@ is Done ==> r@->Done_0.len() < input@.len(),
{
    proof {
        lemma_run_len_bound(input@, ByteClass::Space);
    }
    let input_length = input.input_len();
    if input_length == 0 {
        return IResult::Error(ParseError::Position(ErrorKind::MultiSpace, input));
    }
    let idx = scan(input, ByteClass::Space);
    if idx == 0 {
        IResult::Error(ParseError::Position(ErrorKind::MultiSpace, input))
    } else {
        IResult::Done(
            vstd::slice::slice_subrange(input, idx, input_length),
            vstd::slice::slice_subrange(input, 0, idx),
        )
    }
}

/// Whitespace that must be there: where the input has ended, one more byte
/// is asked for.
pub open spec fn spec_required_ws(s: Seq<u8>) -> IResult<Seq<u8>, Seq<u8>> {
    if s.len() == 0 {
        IResult::Incomplete(Needed::Size(1))
    } else {
        spec_multispace(s)
    }
}

pub fn required_ws<'a>(i: &'a [u8]) -> (r: IResult<&'a [u8], &'a [u8]>)
    ensures
        r@ == spec_required_ws(i@),
        r@ is Done ==> r@->Done_0.len() < i@.len(),
{
    if i.len() == 0 {
        IResult::Incomplete(Needed::Size(1))
    } else {
        multispace(i)
    }
}

/// The input after optional whitespace.
pub open spec fn spec_skip_ws(s: Seq<u8>) -> Seq<u8> {
    s.subrange(run_len(s, ByteClass::Space) as int, s.len() as int)
}

/// Optional whitespace: what follows it, or the input itself where there is none.
pub fn skip_ws<'a>(i: &'a [u8]) -> (r: &'a [u8])
    ensures
        r@ == spec_skip_ws(i@),
        r@.len() <= i@.len(),
{
    proof {
        lemma_run_len_bound(i@, ByteClass::Space);
    }
    match multispace(i) {
        IResult::Done(rest, _) => rest,
        _ => {
            proof {
                assert(i@.subrange(0, i@.len() as int) =~= i@);
            }
            i
        },
    }
}

/// A byte as the comparison sees it: upper-case ASCII letters are folded to
/// lower case where matching ignores case.
pub open spec fn spec_fold(b: u8, caseless: bool) -> u8 {
    if caseless && 0x41 <= b && b <= 0x5A {
        (b + 32) as u8
    } else {
        b
    }
}

pub fn fold(b: u8, caseless: bool) -> (r: u8)
    ensures
        r == spec_fold(b, caseless),
{
    if caseless && 0x41 <= b && b <= 0x5A {
        b + 32
    } else {
        b
    }
}

/// The first `m` bytes of `s` and `lit` agree, under the folding chosen.
pub open spec fn agrees(s: Seq<u8>, lit: Seq<u8>, m: int, caseless: bool) -> bool {
    forall|j: int| 0 <= j < m ==> #[trigger] spec_fold(s[j], caseless) == spec_fold(lit[j], caseless)
}

/// Matching a literal at the start of `s`. A mismatch within the bytes
/// available fails; input that agrees but is too short asks for the whole literal.
pub open spec fn spec_tag_with(s: Seq<u8>, lit: Seq<u8>, caseless: bool) -> IResult<Seq<u8>, Seq<u8>> {
    let m = if s.len() < lit.len() { s.len() } else { lit.len() };
    if !agrees(s, lit, m as int, caseless) {
        IResult::Error(ParseError::Position(ErrorKind::Tag, s))
    } else if m < lit.len() {
        IResult::Incomplete(Needed::Size(lit.len() as usize))
    } else {
        IResult::Done(s.subrange(lit.len() as int, s.len() as int), s.subrange(0, lit.len() as int))
    }
}

/// Literal matching, with or without case folding.
pub fn tag_with<'a>(i: &'a [u8], lit: &[u8], caseless: bool) -> (r: IResult<&'a [u8], &'a [u8]>)
    ensures
        r@ == spec_tag_with(i@, lit@, caseless),
{
    let len = i.len();
    let blen = lit.len();
    let m = if len < blen { len } else { blen };
    let mut k: usize = 0;
    while k < m
        invariant
            m <= i@.len(),
            m <= lit@.len(),
            k <= m,
            agrees(i@, lit@, k as int, caseless),
        decreases m - k,
    {
        if fold(i[k], caseless) != fold(lit[k], caseless) {
            return IResult::Error(ParseError::Position(ErrorKind::Tag, i));
        }
        k = k + 1;
    }
    if m < blen {
        IResult::Incomplete(Needed::Size(blen))
    } else {
        IResult::Done(vstd::slice::slice_subrange(i, blen, len), vstd::slice::slice_subrange(i, 0, blen))
    }
}

/// Case-sensitive literal match.
pub fn tag<'a>(i: &'a [u8], lit: &[u8]) -> (r: IResult<&'a [u8], &'a [u8]>)
    ensures
        r@ == spec_tag_with(i@, lit@, false),
{
    tag_with(i, lit, false)
}

/// Literal match that ignores the case of ASCII letters.
pub fn caseless_tag<'a>(i: &'a [u8], lit: &[u8]) -> (r: IResult<&'a [u8], &'a [u8]>)
    ensures
        r@ == spec_tag_with(i@, lit@, true),
{
    tag_with(i, lit, true)
}

/// Input that agrees with a literal but stops short of its end asks for more;
/// the literal followed by anything is matched.
pub proof fn law_truncated_literal(lit: Seq<u8>, prefix: Seq<u8>, rest: Seq<u8>, caseless: bool)
    requires
        prefix.len() < lit.len() <= usize::MAX,
        prefix =~= lit.subrange(0, prefix.len() as int),
    ensures
        spec_tag_with(prefix, lit, caseless) == IResult::<Seq<u8>, Seq<u8>>::Incomplete(
            Needed::Size(lit.len() as usize),
        ),
        spec_tag_with(lit + rest, lit, caseless) == IResult::<Seq<u8>, Seq<u8>>::Done(rest, lit),
{
    assert(agrees(prefix, lit, prefix.len() as int, caseless)) by {
        assert forall|j: int| 0 <= j < prefix.len() implies #[trigger] spec_fold(prefix[j], caseless)
            == spec_fold(lit[j], caseless) by {
            assert(prefix[j] == lit[j]);
        }
    }
    let whole = lit + rest;
    assert(agrees(whole, lit, lit.len() as int, caseless)) by {
        assert forall|j: int| 0 <= j < lit.len() implies #[trigger] spec_fold(whole[j], caseless)
            == spec_fold(lit[j], caseless) by {
            assert(whole[j] == lit[j]);
        }
    }
    assert(whole.subrange(lit.len() as int, whole.len() as int) =~= rest);
    assert(whole.subrange(0, lit.len() as int) =~= lit);
}

} // verus!
