use vstd::prelude::*;

verus! {

/// What an element type must offer to be stored as text: a display string
/// that never fails, and a parse that may.
pub trait TextElement: Sized + View {
    /// The display string of a value.
    spec fn display_spec(v: Self::V) -> Seq<char>;

    /// The value that a text parses to, if any.
    spec fn parse_spec(s: Seq<char>) -> Option<Self::V>;

    fn display(&self) -> (r: String)
        ensures
            r@ == Self::display_spec(self@),
    ;

    fn parse(s: &str) -> (r: Option<Self>)
        ensures
            r.is_some() == Self::parse_spec(s@).is_some(),
            r matches Some(v) ==> Self::parse_spec(s@) == Some(v@),
    ;
}

impl TextElement for String {
    open spec fn display_spec(v: Seq<char>) -> Seq<char> {
        v
    }

    open spec fn parse_spec(s: Seq<char>) -> Option<Seq<char>> {
        Some(s)
    }

    fn display(&self) -> (r: String) {
        self.clone()
    }

    fn parse(s: &str) -> (r: Option<String>) {
        Some(String::from_str(s))
    }
}

pub open spec fn is_ascii_digit(c: char) -> bool {
    0x30 <= (c as u32) && (c as u32) <= 0x39
}

pub open spec fn digit_char(d: nat) -> char {
    ((d + 0x30) as u32) as char
}

/// The decimal digits of `n`, most significant first, without leading zeros.
pub open spec fn decimal(n: nat) -> Seq<char>
    decreases n,
{
    if n < 10 {
        seq![digit_char(n)]
    } else {
        decimal(n / 10).push(digit_char(n % 10))
    }
}

/// A non-empty run of ASCII digits.
pub open spec fn all_digits(s: Seq<char>) -> bool {
    s.len() > 0 && forall|i: int| 0 <= i < s.len() ==> is_ascii_digit(#[trigger] s[i])
}

/// The number that a run of ASCII digits writes in base ten.
pub open spec fn digits_value(s: Seq<char>) -> nat
    decreases s.len(),
{
    if s.len() == 0 {
        0
    } else {
        digits_value(s.drop_last()) * 10 + ((s.last() as u32) - 0x30) as nat
    }
}

/// `s` without one leading `+`.
pub open spec fn unsigned_part(s: Seq<char>) -> Seq<char> {
    if s.len() > 0 && s[0] == '+' {
        s.drop_first()
    } else {
        s
    }
}

/// What `u64`'s `FromStr` accepts: an optional `+`, then digits, within range.
pub open spec fn parse_u64_spec(s: Seq<char>) -> Option<u64> {
    let d = unsigned_part(s);
    if all_digits(d) && digits_value(d) <= u64::MAX {
        Some(digits_value(d) as u64)
    } else {
        None
    }
}

/// What `i64`'s `FromStr` accepts: an optional sign, then digits, within range.
pub open spec fn parse_i64_spec(s: Seq<char>) -> Option<i64> {
    if s.len() > 0 && s[0] == '-' {
        let d = s.drop_first();
        if all_digits(d) && digits_value(d) <= 0x8000_0000_0000_0000 {
            Some((0 - digits_value(d)) as i64)
        } else {
            None
        }
    } else {
        let d = unsigned_part(s);
        if all_digits(d) && digits_value(d) <= i64::MAX {
            Some(digits_value(d) as i64)
        } else {
            None
        }
    }
}

/// How `i64` displays: a `-` before the digits of a negative value.
pub open spec fn signed_decimal(n: int) -> Seq<char> {
    if n < 0 {
        seq!['-'] + decimal((0 - n) as nat)
    } else {
        decimal(n as nat)
    }
}

/// Relies on `u64`'s `Display` (through `to_string`): decimal digits, no sign,
/// no leading zeros.
#[verifier::external_body]
fn u64_text(n: u64) -> (r: String)
    ensures
        r@ == decimal(n as nat),
{
    n.to_string()
}

/// Relies on `u64`'s `FromStr` (through `str::parse`): an optional `+` and
/// ASCII digits whose value fits, else an error.
#[verifier::external_body]
fn u64_from_text(s: &str) -> (r: Option<u64>)
    ensures
        r == parse_u64_spec(s@),
{
    s.parse::<u64>().ok()
}

/// Relies on `i64`'s `Display` (through `to_string`): a `-` for negative
/// values, then decimal digits without leading zeros.
#[verifier::external_body]
fn i64_text(n: i64) -> (r: String)
    ensures
        r@ == signed_decimal(n as int),
{
    n.to_string()
}

/// Relies on `i64`'s `FromStr` (through `str::parse`): an optional sign and
/// ASCII digits whose value fits, else an error.
#[verifier::external_body]
fn i64_from_text(s: &str) -> (r: Option<i64>)
    ensures
        r == parse_i64_spec(s@),
{
    s.parse::<i64>().ok()
}

impl TextElement for u64 {
    open spec fn display_spec(v: u64) -> Seq<char> {
        decimal(v as nat)
    }

    open spec fn parse_spec(s: Seq<char>) -> Option<u64> {
        parse_u64_spec(s)
    }

    fn display(&self) -> (r: String) {
        u64_text(*self)
    }

    fn parse(s: &str) -> (r: Option<u64>) {
        u64_from_text(s)
    }
}

impl TextElement for i64 {
    open spec fn display_spec(v: i64) -> Seq<char> {
        signed_decimal(v as int)
    }

    open spec fn parse_spec(s: Seq<char>) -> Option<i64> {
        parse_i64_spec(s)
    }

    fn display(&self) -> (r: String) {
        i64_text(*self)
    }

    fn parse(s: &str) -> (r: Option<i64>) {
        i64_from_text(s)
    }
}

} // verus!
