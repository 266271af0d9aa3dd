//! Settings that come as text, with a default for what is missing or unreadable.
use crate::numbers;
use crate::text;
use vstd::prelude::*;

verus! {

/// The number that a variable gives, or the default where the variable is
/// missing, does not read as an unsigned number, or goes beyond `max`.
pub open spec fn env_unsigned(value: Option<Seq<char>>, default: nat, max: nat) -> nat {
    match value {
        Some(v) => match numbers::unsigned_value(v) {
            Some(n) => if n <= max {
                n
            } else {
                default
            },
            None => default,
        },
        None => default,
    }
}

/// The number that a variable gives, or the default where the variable is
/// missing, does not read as a signed number, or does not fit in 32 bits.
pub open spec fn env_i32(value: Option<Seq<char>>, default: i32) -> i32 {
    match value {
        Some(v) => match numbers::signed_value(v) {
            Some(n) => if i32::MIN <= n <= i32::MAX {
                n as i32
            } else {
                default
            },
            None => default,
        },
        None => default,
    }
}

/// The truth value that a variable gives, or the default where the variable is
/// missing or is neither `true` nor `false`.
pub open spec fn env_bool(value: Option<Seq<char>>, default: bool) -> bool {
    match value {
        Some(v) => match numbers::bool_value(v) {
            Some(b) => b,
            None => default,
        },
        None => default,
    }
}

/// Reads a `usize` from the text of a variable.
pub fn parse_env_usize(value: &Option<String>, default: usize) -> (r: usize)
    ensures
        r == env_unsigned(text::option_view(*value), default as nat, usize::MAX as nat),
{
    match value {
        Some(v) => match numbers::parse_unsigned(v.as_str(), usize::MAX as u64) {
            Some(n) => n as usize,
            None => default,
        },
        None => default,
    }
}

/// Reads a `u64` from the text of a variable.
pub fn parse_env_u64(value: &Option<String>, default: u64) -> (r: u64)
    ensures
        r == env_unsigned(text::option_view(*value), default as nat, u64::MAX as nat),
{
    match value {
        Some(v) => match numbers::parse_unsigned(v.as_str(), u64::MAX) {
            Some(n) => n,
            None => default,
        },
        None => default,
    }
}

/// Reads a `u32` from the text of a variable.
pub fn parse_env_u32(value: &Option<String>, default: u32) -> (r: u32)
    ensures
        r == env_unsigned(text::option_view(*value), default as nat, u32::MAX as nat),
{
    match value {
        Some(v) => match numbers::parse_unsigned(v.as_str(), u32::MAX as u64) {
            Some(n) => n as u32,
            None => default,
        },
        None => default,
    }
}

/// Reads an `i32` from the text of a variable.
pub fn parse_env_i32(value: &Option<String>, default: i32) -> (r: i32)
    ensures
        r == env_i32(text::option_view(*value), default),
{
    match value {
        Some(v) => match numbers::parse_i32(v.as_str()) {
            Some(n) => n,
            None => default,
        },
        None => default,
    }
}

/// Reads a truth value from the text of a variable.
pub fn parse_env_bool(value: &Option<String>, default: bool) -> (r: bool)
    ensures
        r == env_bool(text::option_view(*value), default),
{
    match value {
        Some(v) => match numbers::parse_bool(v.as_str()) {
            Some(b) => b,
            None => default,
        },
        None => default,
    }
}

/// A variable that says a number in decimal gives that number, up to the largest that is
/// allowed. Where it says a larger one, or no number, or is not set, the default counts.
pub proof fn law_variable_gives_the_number_that_it_says(n: nat, default: nat, max: nat, s: Seq<char>)
    ensures
        n <= max ==> env_unsigned(Some(numbers::decimal(n)), default, max) == n,
        n > max ==> env_unsigned(Some(numbers::decimal(n)), default, max) == default,
        env_unsigned(None, default, max) == default,
        numbers::unsigned_value(s) is None ==> env_unsigned(Some(s), default, max) == default,
{
    numbers::law_decimal_reads_back(n);
}

/// A variable that says a signed number of 32 bits in decimal gives that number. Where it
/// says another number, or none, or is not set, the default counts.
pub proof fn law_variable_gives_the_signed_number_that_it_says(n: int, default: i32, s: Seq<char>)
    ensures
        i32::MIN <= n <= i32::MAX ==> env_i32(Some(numbers::signed_decimal(n)), default) == n,
        n < i32::MIN || n > i32::MAX ==> env_i32(Some(numbers::signed_decimal(n)), default)
            == default,
        env_i32(None, default) == default,
        numbers::signed_value(s) is None ==> env_i32(Some(s), default) == default,
{
    let m = (if n < 0 {
        -n
    } else {
        n
    }) as nat;
    numbers::law_decimal_reads_back(m);
}

/// A variable that says `true` or `false` gives just that; anything else gives the
/// default.
pub proof fn law_variable_gives_the_truth_that_it_says(default: bool, s: Seq<char>)
    ensures
        env_bool(Some("true"@), default),
        !env_bool(Some("false"@), default),
        s != "true"@ && s != "false"@ ==> env_bool(Some(s), default) == default,
        env_bool(None, default) == default,
{
    reveal_strlit("true");
    reveal_strlit("false");
    assert("true"@[0] == 't');
    assert("false"@[0] == 'f');
}

} // verus!
