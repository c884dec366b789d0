//! Short textual renderings for logs and diagnostics.

use vstd::prelude::*;
use crate::types::{OutPoint, Output};

verus! {

/// Base58Check text of `data`.
pub uninterp spec fn base58check_of(data: Seq<u8>) -> Seq<char>;

/// Text of an amount of `sat` satoshis in bitcoin units.
pub uninterp spec fn btc_amount_text_of(sat: u64) -> Seq<char>;

/// Relies on bs58::encode(..).with_check().into_string(): the Base58Check
/// text of the bytes, a function of the bytes alone.
#[verifier::external_body]
fn base58check(data: &[u8]) -> (r: String)
    ensures
        r@ == base58check_of(data@),
{
    bs58::encode(data).with_check().into_string()
}

/// Relies on the Display of bitcoin::Amount::from_sat(sat): the amount in
/// bitcoin units, a function of the amount alone.
#[verifier::external_body]
fn btc_amount_text(sat: u64) -> (r: String)
    ensures
        r@ == btc_amount_text_of(sat),
{
    bitcoin::Amount::from_sat(sat).to_string()
}

/// Relies on String::push, which appends one character.
#[verifier::external_body]
fn push_char(s: &mut String, c: char)
    ensures
        final(s)@ == old(s)@.push(c),
{
    s.push(c)
}

/// Relies on String::push_str, which appends the characters of `t`.
#[verifier::external_body]
fn push_str(s: &mut String, t: &str)
    ensures
        final(s)@ == old(s)@ + t@,
{
    s.push_str(t)
}

/// The decimal digit for `d`, below ten.
pub open spec fn digit_char(d: nat) -> char {
    (48 + d) as char
}

/// The decimal digits of `n`, most significant first, with no leading zeros.
pub open spec fn decimal(n: nat) -> Seq<char>
    decreases n,
{
    if n < 10 {
        seq![digit_char(n)]
    } else {
        decimal(n / 10).push(digit_char(n % 10))
    }
}

/// The rendering of an outpoint: `r:<transaction>:<output>`,
/// `c:<block>:<output>` or `d:<sequence>`.
pub open spec fn outpoint_text(p: OutPoint) -> Seq<char> {
    match p {
        OutPoint::Regular { transaction_number, output_number } => seq!['r', ':'] + decimal(
            transaction_number as nat,
        ) + seq![':'] + decimal(output_number as nat),
        OutPoint::Coinbase { block_number, output_number } => seq!['c', ':'] + decimal(
            block_number as nat,
        ) + seq![':'] + decimal(output_number as nat),
        OutPoint::Deposit { sequence_number } => seq!['d', ':'] + decimal(sequence_number as nat),
    }
}

/// The rendering of a regular output: the Base58Check text of its address,
/// a colon and a space, and its value in bitcoin units.
pub open spec fn regular_output_text(o: Output) -> Seq<char>
    recommends
        o is Regular,
{
    base58check_of(o->Regular_address@) + seq![':', ' '] + btc_amount_text_of(o->Regular_value)
}

fn push_decimal(s: &mut String, n: u64)
    ensures
        final(s)@ == old(s)@ + decimal(n as nat),
    decreases n,
{
    if n >= 10 {
        push_decimal(s, n / 10);
    }
    let d = (n % 10) as u8;
    push_char(s, (48u8 + d) as char);
    assert(final(s)@ =~= old(s)@ + decimal(n as nat));
}

impl OutPoint {
    /// The short rendering of the outpoint used in logs.
    pub fn to_string(&self) -> (r: String)
        ensures
            r@ == outpoint_text(*self),
    {
        let mut s = String::new();
        match self {
            OutPoint::Regular { transaction_number, output_number } => {
                push_char(&mut s, 'r');
                push_char(&mut s, ':');
                push_decimal(&mut s, *transaction_number);
                push_char(&mut s, ':');
                push_decimal(&mut s, *output_number as u64);
            },
            OutPoint::Coinbase { block_number, output_number } => {
                push_char(&mut s, 'c');
                push_char(&mut s, ':');
                push_decimal(&mut s, *block_number as u64);
                push_char(&mut s, ':');
                push_decimal(&mut s, *output_number as u64);
            },
            OutPoint::Deposit { sequence_number } => {
                push_char(&mut s, 'd');
                push_char(&mut s, ':');
                push_decimal(&mut s, *sequence_number);
            },
        }
        assert(s@ =~= outpoint_text(*self));
        s
    }
}

impl Output {
    /// The rendering of a regular output used in logs. Withdrawals have no
    /// agreed rendering yet.
    pub fn to_string(&self) -> (r: String)
        requires
            self is Regular,
        ensures
            r@ == regular_output_text(*self),
    {
        match self {
            Output::Regular { address, value } => {
                let mut s = String::new();
                let a = base58check(address.as_slice());
                push_str(&mut s, a.as_str());
                push_char(&mut s, ':');
                push_char(&mut s, ' ');
                let v = btc_amount_text(*value);
                push_str(&mut s, v.as_str());
                assert(s@ =~= regular_output_text(*self));
                s
            },
            Output::Withdrawal { .. } => {
                proof {
                    assert(false);
                }
                String::new()
            },
        }
    }
}

} // verus!
