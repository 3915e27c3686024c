//! Decimal arithmetic and comparison on float-literal texts.
//!
//! A float value of the language is carried as the decimal text of its
//! literal. The operations on such texts are performed by the `rust_decimal`
//! crate; each is named by an uninterpreted function of the argument texts,
//! so that the evaluator's contracts are exact relative to those names. Every
//! operation yields nothing when a text does not parse as a decimal or the
//! result overflows the decimal's range.

use vstd::prelude::*;

verus! {

/// The sum of two decimal texts, or nothing.
pub uninterp spec fn dec_add_text(a: Seq<char>, b: Seq<char>) -> Option<Seq<char>>;

/// The difference of two decimal texts, or nothing.
pub uninterp spec fn dec_sub_text(a: Seq<char>, b: Seq<char>) -> Option<Seq<char>>;

/// The product of two decimal texts, or nothing.
pub uninterp spec fn dec_mul_text(a: Seq<char>, b: Seq<char>) -> Option<Seq<char>>;

/// The quotient of two decimal texts; nothing on a zero divisor.
pub uninterp spec fn dec_div_text(a: Seq<char>, b: Seq<char>) -> Option<Seq<char>>;

/// Whether two decimal texts denote the same number, or nothing.
pub uninterp spec fn dec_eq_text(a: Seq<char>, b: Seq<char>) -> Option<bool>;

/// Whether the first decimal text denotes a smaller number than the second,
/// or nothing.
pub uninterp spec fn dec_lt_text(a: Seq<char>, b: Seq<char>) -> Option<bool>;

/// Relies on rust_decimal: `Decimal::from_str` on the two texts,
/// `Decimal::checked_add`, and `Decimal`'s `Display`. The outcome depends on
/// the argument texts alone.
#[verifier::external_body]
pub fn dec_add(a: &str, b: &str) -> (r: Option<String>)
    ensures
        match r {
            Some(s) => dec_add_text(a@, b@) == Some(s@),
            None => dec_add_text(a@, b@) is None,
        },
{
    let x: rust_decimal::Decimal = match a.parse() {
        Ok(v) => v,
        Err(_) => return None,
    };
    let y: rust_decimal::Decimal = match b.parse() {
        Ok(v) => v,
        Err(_) => return None,
    };
    x.checked_add(y).map(|d| d.to_string())
}

/// Relies on rust_decimal: `Decimal::from_str` on the two texts,
/// `Decimal::checked_sub`, and `Decimal`'s `Display`. The outcome depends on
/// the argument texts alone.
#[verifier::external_body]
pub fn dec_sub(a: &str, b: &str) -> (r: Option<String>)
    ensures
        match r {
            Some(s) => dec_sub_text(a@, b@) == Some(s@),
            None => dec_sub_text(a@, b@) is None,
        },
{
    let x: rust_decimal::Decimal = match a.parse() {
        Ok(v) => v,
        Err(_) => return None,
    };
    let y: rust_decimal::Decimal = match b.parse() {
        Ok(v) => v,
        Err(_) => return None,
    };
    x.checked_sub(y).map(|d| d.to_string())
}

/// Relies on rust_decimal: `Decimal::from_str` on the two texts,
/// `Decimal::checked_mul`, and `Decimal`'s `Display`. The outcome depends on
/// the argument texts alone.
#[verifier::external_body]
pub fn dec_mul(a: &str, b: &str) -> (r: Option<String>)
    ensures
        match r {
            Some(s) => dec_mul_text(a@, b@) == Some(s@),
            None => dec_mul_text(a@, b@) is None,
        },
{
    let x: rust_decimal::Decimal = match a.parse() {
        Ok(v) => v,
        Err(_) => return None,
    };
    let y: rust_decimal::Decimal = match b.parse() {
        Ok(v) => v,
        Err(_) => return None,
    };
    x.checked_mul(y).map(|d| d.to_string())
}

/// Relies on rust_decimal: `Decimal::from_str` on the two texts,
/// `Decimal::checked_div` (which yields nothing on a zero divisor), and
/// `Decimal`'s `Display`. The outcome depends on the argument texts alone.
#[verifier::external_body]
pub fn dec_div(a: &str, b: &str) -> (r: Option<String>)
    ensures
        match r {
            Some(s) => dec_div_text(a@, b@) == Some(s@),
            None => dec_div_text(a@, b@) is None,
        },
{
    let x: rust_decimal::Decimal = match a.parse() {
        Ok(v) => v,
        Err(_) => return None,
    };
    let y: rust_decimal::Decimal = match b.parse() {
        Ok(v) => v,
        Err(_) => return None,
    };
    x.checked_div(y).map(|d| d.to_string())
}

/// Relies on rust_decimal: `Decimal::from_str` on the two texts and
/// `Decimal`'s `PartialEq`, which compares the denoted numbers. The outcome
/// depends on the argument texts alone.
#[verifier::external_body]
pub fn dec_eq(a: &str, b: &str) -> (r: Option<bool>)
    ensures
        r == dec_eq_text(a@, b@),
{
    let x: rust_decimal::Decimal = match a.parse() {
        Ok(v) => v,
        Err(_) => return None,
    };
    let y: rust_decimal::Decimal = match b.parse() {
        Ok(v) => v,
        Err(_) => return None,
    };
    Some(x == y)
}

/// Relies on rust_decimal: `Decimal::from_str` on the two texts and
/// `Decimal`'s `Ord`, which orders the denoted numbers. The outcome depends
/// on the argument texts alone.
#[verifier::external_body]
pub fn dec_lt(a: &str, b: &str) -> (r: Option<bool>)
    ensures
        r == dec_lt_text(a@, b@),
{
    let x: rust_decimal::Decimal = match a.parse() {
        Ok(v) => v,
        Err(_) => return None,
    };
    let y: rust_decimal::Decimal = match b.parse() {
        Ok(v) => v,
        Err(_) => return None,
    };
    Some(x < y)
}

} // verus!
