//! Building the text of messages: concatenation, decimal numbers, and UTF-8.

use vstd::prelude::*;
use vstd::string::*;
use vstd::utf8::{decode_utf8, valid_utf8};

verus! {

/// The text of one decimal digit.
pub open spec fn digit_text(digit: int) -> Seq<char> {
    if digit == 0 {
        "0"@
    } else if digit == 1 {
        "1"@
    } else if digit == 2 {
        "2"@
    } else if digit == 3 {
        "3"@
    } else if digit == 4 {
        "4"@
    } else if digit == 5 {
        "5"@
    } else if digit == 6 {
        "6"@
    } else if digit == 7 {
        "7"@
    } else if digit == 8 {
        "8"@
    } else {
        "9"@
    }
}

/// The decimal text of a natural number, without leading zeros.
pub open spec fn nat_text(n: nat) -> Seq<char>
    decreases n,
{
    if n < 10 {
        digit_text(n as int)
    } else {
        nat_text(n / 10) + digit_text((n % 10) as int)
    }
}

/// The decimal text of an integer, with a leading minus sign when negative.
pub open spec fn int_text(n: int) -> Seq<char> {
    if n < 0 {
        "-"@ + nat_text((-n) as nat)
    } else {
        nat_text(n as nat)
    }
}

fn digit_str(digit: u64) -> (r: &'static str)
    requires
        digit < 10,
    ensures
        r@ == digit_text(digit as int),
{
    if digit == 0 {
        "0"
    } else if digit == 1 {
        "1"
    } else if digit == 2 {
        "2"
    } else if digit == 3 {
        "3"
    } else if digit == 4 {
        "4"
    } else if digit == 5 {
        "5"
    } else if digit == 6 {
        "6"
    } else if digit == 7 {
        "7"
    } else if digit == 8 {
        "8"
    } else {
        "9"
    }
}

/// Decimal text of an unsigned number.
pub fn decimal_u64(n: u64) -> (r: String)
    ensures
        r@ == nat_text(n as nat),
    decreases n,
{
    if n < 10 {
        digit_str(n).to_owned()
    } else {
        let mut text = decimal_u64(n / 10);
        text.append(digit_str(n % 10));
        text
    }
}

/// Decimal text of a signed number.
pub fn decimal_i64(n: i64) -> (r: String)
    ensures
        r@ == int_text(n as int),
{
    if n < 0 {
        let mut text = "-".to_owned();
        let magnitude: u64 = (-(n as i128)) as u64;
        text.append(decimal_u64(magnitude).as_str());
        text
    } else {
        decimal_u64(n as u64)
    }
}

/// `std::str::from_utf8`: the text that `bytes` encode, when they are valid
/// UTF-8, and nothing otherwise.
#[verifier::external_body]
pub(crate) fn utf8_text(bytes: &[u8]) -> (r: Option<&str>)
    ensures
        r is Some <==> valid_utf8(bytes@),
        r matches Some(text) ==> text@ == decode_utf8(bytes@),
{
    std::str::from_utf8(bytes).ok()
}

/// What [`quoted`] answers: a text between quotation marks, with the characters
/// that need it escaped.
pub uninterp spec fn quoted_text(text: Seq<char>) -> Seq<char>;

/// `<str as std::fmt::Debug>::fmt`: the text between quotation marks, with the
/// characters that need it escaped.
#[verifier::external_body]
pub(crate) fn quoted(text: &str) -> (r: String)
    ensures
        r@ == quoted_text(text@),
{
    format!("{text:?}")
}

/// Whether two texts are the same.
pub fn same_text(a: &str, b: &str) -> (r: bool)
    ensures
        r == (a@ == b@),
{
    let x = a.to_owned();
    let y = b.to_owned();
    x == y
}

/// The number that decimal digits stand for.
pub open spec fn decimal_value(text: Seq<char>) -> int
    decreases text.len(),
{
    if text.len() == 0 {
        0
    } else {
        10 * decimal_value(text.drop_last()) + (text.last() as int - '0' as int)
    }
}

proof fn lemma_digit(digit: int)
    requires
        0 <= digit < 10,
    ensures
        digit_text(digit) == seq![(48 + digit) as char],
{
    reveal_strlit("0");
    reveal_strlit("1");
    reveal_strlit("2");
    reveal_strlit("3");
    reveal_strlit("4");
    reveal_strlit("5");
    reveal_strlit("6");
    reveal_strlit("7");
    reveal_strlit("8");
    reveal_strlit("9");
    assert(digit_text(digit) =~= seq![(48 + digit) as char]);
}

/// The text of a number is its decimal digits, the first of them not zero unless it is the only
/// one; a negative one has a minus sign before them.
pub proof fn law_decimal_text_is_read_back(n: nat)
    ensures
        decimal_value(nat_text(n)) == n,
        forall|i: int| 0 <= i < nat_text(n).len() ==> '0' <= #[trigger] nat_text(n)[i] <= '9',
        nat_text(n).len() > 0,
        nat_text(n)[0] == '0' ==> n == 0,
        int_text(n as int) == nat_text(n),
        n > 0 ==> int_text(-n) == seq!['-'] + nat_text(n),
    decreases n,
{
    reveal_strlit("-");
    assert("-"@ =~= seq!['-']);
    lemma_digit((n % 10) as int);
    let last = (48 + n % 10) as char;
    if n >= 10 {
        law_decimal_text_is_read_back(n / 10);
        let text = nat_text(n);
        assert(text =~= nat_text(n / 10).push(last));
        assert(text.drop_last() =~= nat_text(n / 10));
    } else {
        assert(nat_text(n) =~= seq![last]);
        assert(seq![last].drop_last() =~= Seq::empty());
        assert(decimal_value(seq![last]) == 10 * decimal_value(Seq::empty()) + (last as int - 48));
    }
}

} // verus!
