use std::num::ParseIntError;
use vstd::prelude::*;

verus! {

/// Relies on `core::num::ParseIntError`, the error of integer parsing, which
/// this library carries through without looking inside.
#[verifier::external_type_specification]
#[verifier::external_body]
pub struct ExParseIntError(ParseIntError);

/// Relies on the `Clone` of `ParseIntError`, which the derived `Clone` of
/// `InvalidPercentage` calls; nothing is assumed of the copy.
pub assume_specification[ <ParseIntError as Clone>::clone ](e: &ParseIntError) -> ParseIntError;

pub open spec fn is_digit(c: char) -> bool {
    '0' <= c && c <= '9'
}

/// The digits of an unsigned literal: the text without an optional leading `+`.
pub open spec fn literal_digits(t: Seq<char>) -> Seq<char> {
    if t.len() > 0 && t[0] == '+' {
        t.drop_first()
    } else {
        t
    }
}

/// An unsigned decimal literal: an optional `+`, then one or more ASCII digits.
pub open spec fn is_unsigned_literal(t: Seq<char>) -> bool {
    let d = literal_digits(t);
    d.len() > 0 && forall|i: int| 0 <= i < d.len() ==> is_digit(#[trigger] d[i])
}

/// The value of a string of decimal digits, most significant first.
pub open spec fn digits_value(d: Seq<char>) -> nat
    decreases d.len(),
{
    if d.len() == 0 {
        0
    } else {
        digits_value(d.drop_last()) * 10 + (d.last() as nat - '0' as nat) as nat
    }
}

pub open spec fn literal_value(t: Seq<char>) -> nat {
    digits_value(literal_digits(t))
}

/// The three ways in which a text fails to be a percentage.
#[derive(Debug, Clone, Copy, PartialEq, Eq, Structural)]
pub enum FailureKind {
    InvalidNumber,
    OutOfBound,
    MissingModuleSymbol,
}

/// What parsing a text gives: the percentage's value, or the kind of failure.
/// The text must end with `%`; what stands before that last `%` must be an
/// unsigned literal; and its value must be at most 100.
pub open spec fn spec_parse(s: Seq<char>) -> Result<nat, FailureKind> {
    if s.len() == 0 || s.last() != '%' {
        Err(FailureKind::MissingModuleSymbol)
    } else if !is_unsigned_literal(s.drop_last()) {
        Err(FailureKind::InvalidNumber)
    } else if literal_value(s.drop_last()) > 100 {
        Err(FailureKind::OutOfBound)
    } else {
        Ok(literal_value(s.drop_last()))
    }
}

/// A share of a dataset, from 0 to 100 percent.
#[derive(Debug, Clone, Copy, PartialEq, Eq, PartialOrd, Ord, Hash, Structural)]
pub struct Percentage(pub u8);

/// Why a text is not a percentage.
#[derive(Debug, Clone, PartialEq, Eq)]
pub enum InvalidPercentage {
    /// What stands before the `%` is not an unsigned number.
    InvalidNumber(ParseIntError),
    /// The number is above 100.
    OutOfBound,
    /// The text does not end with `%`.
    MissingModuleSymbol,
}

impl InvalidPercentage {
    pub open spec fn spec_kind(&self) -> FailureKind {
        match self {
            InvalidPercentage::InvalidNumber(_) => FailureKind::InvalidNumber,
            InvalidPercentage::OutOfBound => FailureKind::OutOfBound,
            InvalidPercentage::MissingModuleSymbol => FailureKind::MissingModuleSymbol,
        }
    }

    pub fn kind(&self) -> (r: FailureKind)
        ensures
            r == self.spec_kind(),
    {
        match self {
            InvalidPercentage::InvalidNumber(_) => FailureKind::InvalidNumber,
            InvalidPercentage::OutOfBound => FailureKind::OutOfBound,
            InvalidPercentage::MissingModuleSymbol => FailureKind::MissingModuleSymbol,
        }
    }
}

/// Relies on `u8`'s `FromStr` (`u8::from_str_radix` in base 10), which accepts
/// an optional `+` followed by ASCII digits only, and fails on a value above
/// `u8::MAX`.
#[verifier::external_body]
fn parse_u8(t: &str) -> (r: Result<u8, ParseIntError>)
    ensures
        r.is_ok() == (is_unsigned_literal(t@) && literal_value(t@) <= u8::MAX),
        r matches Ok(v) ==> v as nat == literal_value(t@),
{
    t.parse::<u8>()
}

impl Percentage {
    pub open spec fn valid(&self) -> bool {
        self.0 <= 100
    }

    /// Parses the text form `<0-100>%`.
    pub fn parse(s: &str) -> (r: Result<Percentage, InvalidPercentage>)
        ensures
            r is Ok <==> spec_parse(s@) is Ok,
            r matches Ok(p) ==> spec_parse(s@) == Ok::<nat, FailureKind>(p.0 as nat) && p.valid(),
            r matches Err(e) ==> spec_parse(s@) == Err::<nat, FailureKind>(e.spec_kind()),
    {
        let n = s.unicode_len();
        if n == 0 || s.get_char(n - 1) != '%' {
            return Err(InvalidPercentage::MissingModuleSymbol);
        }
        let left = s.substring_char(0, n - 1);
        assert(left@ == s@.drop_last());
        match parse_u8(left) {
            Ok(v) => {
                if v > 100 {
                    Err(InvalidPercentage::OutOfBound)
                } else {
                    Ok(Percentage(v))
                }
            },
            Err(e) => {
                if unsigned_literal(left) {
                    Err(InvalidPercentage::OutOfBound)
                } else {
                    Err(InvalidPercentage::InvalidNumber(e))
                }
            },
        }
    }
}

impl Percentage {
    /// The percentage `value`, when it is at most 100.
    pub fn new(value: u8) -> (r: Option<Percentage>)
        ensures
            r is Some <==> value <= 100,
            r matches Some(p) ==> p.0 == value && p.valid(),
    {
        if value <= 100 {
            Some(Percentage(value))
        } else {
            None
        }
    }

    pub fn value(&self) -> (r: u8)
        ensures
            r == self.0,
    {
        self.0
    }
}

impl std::str::FromStr for Percentage {
    type Err = InvalidPercentage;

    fn from_str(s: &str) -> Result<Percentage, InvalidPercentage> {
        Percentage::parse(s)
    }
}

impl InvalidPercentage {
    /// A message for people: the parse error's own for an invalid number, a
    /// fixed sentence for each other kind.
    pub fn message(&self) -> (r: String)
        ensures
            self is OutOfBound ==> r@ == "The percentage is out of the [0:100] bounds"@,
            self is MissingModuleSymbol ==> r@
                == "The percentage must be followed by the `%` symbol"@,
    {
        match self {
            InvalidPercentage::InvalidNumber(error) => error.to_string(),
            InvalidPercentage::OutOfBound => "The percentage is out of the [0:100] bounds".to_owned(),
            InvalidPercentage::MissingModuleSymbol => {
                "The percentage must be followed by the `%` symbol".to_owned()
            },
        }
    }
}

/// Tells whether `t` is an unsigned decimal literal.
fn unsigned_literal(t: &str) -> (r: bool)
    ensures
        r == is_unsigned_literal(t@),
{
    let n = t.unicode_len();
    let start: usize = if n > 0 && t.get_char(0) == '+' { 1 } else { 0 };
    if start >= n {
        return false;
    }
    let ghost d = literal_digits(t@);
    assert(d == t@.subrange(start as int, n as int));
    let mut i: usize = start;
    while i < n
        invariant
            start <= i <= n,
            n == t@.len(),
            d == t@.subrange(start as int, n as int),
            d == literal_digits(t@),
            forall|j: int| start <= j < i ==> is_digit(#[trigger] t@[j]),
        decreases n - i,
    {
        let c = t.get_char(i);
        if !('0' <= c && c <= '9') {
            assert(d[i - start] == c && !is_digit(d[i - start]));
            return false;
        }
        i = i + 1;
    }
    assert forall|j: int| 0 <= j < d.len() implies is_digit(#[trigger] d[j]) by {
        assert(d[j] == t@[j + start]);
    }
    true
}

/// The ASCII digit of `d`, for `d` below ten.
pub open spec fn digit_char(d: nat) -> char {
    seq!['0', '1', '2', '3', '4', '5', '6', '7', '8', '9'][d as int]
}

/// The decimal text of `n`, without sign or leading zeros.
pub open spec fn decimal_of(n: nat) -> Seq<char>
    decreases n,
{
    if n < 10 {
        seq![digit_char(n)]
    } else {
        decimal_of(n / 10).push(digit_char(n % 10))
    }
}

proof fn lemma_decimal_is_literal(n: nat)
    ensures
        decimal_of(n).len() > 0,
        forall|i: int| 0 <= i < decimal_of(n).len() ==> is_digit(#[trigger] decimal_of(n)[i]),
        digits_value(decimal_of(n)) == n,
    decreases n,
{
    let ds = seq!['0', '1', '2', '3', '4', '5', '6', '7', '8', '9'];
    assert(forall|k: int| 0 <= k < 10 ==> is_digit(#[trigger] ds[k]) && ds[k] as nat - '0' as nat
        == k);
    if n < 10 {
        let s = decimal_of(n);
        assert(s.drop_last().len() == 0);
        assert(digits_value(s.drop_last()) == 0);
    } else {
        lemma_decimal_is_literal(n / 10);
        let s = decimal_of(n);
        assert(s.drop_last() == decimal_of(n / 10));
        assert(s.last() == digit_char(n % 10));
        assert(forall|i: int| 0 <= i < s.len() - 1 ==> s[i] == decimal_of(n / 10)[i]);
    }
}

/// A number written in decimal and followed by `%` is a percentage exactly
/// when it is at most 100; above that, parsing fails as out of bound.
pub proof fn lemma_parse_decimal(n: nat)
    ensures
        spec_parse(decimal_of(n).push('%')) == if n <= 100 {
            Ok::<nat, FailureKind>(n)
        } else {
            Err::<nat, FailureKind>(FailureKind::OutOfBound)
        },
{
    lemma_decimal_is_literal(n);
    let s = decimal_of(n).push('%');
    assert(s.drop_last() == decimal_of(n));
    assert(is_digit(decimal_of(n)[0]));
    assert(literal_digits(decimal_of(n)) == decimal_of(n));
}

/// A text with no `%`, or with characters after its last `%`, fails for a
/// missing `%`.
pub proof fn lemma_parse_missing_symbol(s: Seq<char>)
    requires
        (forall|i: int| 0 <= i < s.len() ==> s[i] != '%') || (exists|i: int|
            0 <= i < s.len() - 1 && s[i] == '%' && forall|j: int| i < j < s.len() ==> s[j] != '%'),
    ensures
        spec_parse(s) == Err::<nat, FailureKind>(FailureKind::MissingModuleSymbol),
{
    if s.len() > 0 {
        assert(s.last() == s[s.len() - 1]);
    }
}

/// A text that ends with `%`, but whose part before that `%` is no unsigned
/// number, fails for an invalid number.
pub proof fn lemma_parse_invalid_number(s: Seq<char>)
    requires
        s.len() > 0,
        s.last() == '%',
        !is_unsigned_literal(s.drop_last()),
    ensures
        spec_parse(s) == Err::<nat, FailureKind>(FailureKind::InvalidNumber),
{
}

} // verus!
