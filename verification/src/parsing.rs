//! Reading optional fields out of loosely structured rows: a blank cell is
//! an absent value, a malformed non-blank cell is an error.

use vstd::prelude::*;
use crate::text::{
    chars_to_string, int_syntax_ok, int_value, lower, lower_chars, parse_i64_chars, str_to_chars,
    trim, trim_chars,
};

verus! {

/// A non-blank cell that does not read as the expected type.
#[derive(Debug, PartialEq, Eq)]
pub struct BadField;

/// Blank reads as `None`; otherwise the trimmed cell must be a decimal
/// integer that fits an `i64`.
pub fn parse_opt_i64(s: &str) -> (r: Result<Option<i64>, BadField>)
    ensures
        trim(s@).len() == 0 <==> r == Result::<Option<i64>, BadField>::Ok(None::<i64>),
        r matches Ok(Some(x)) ==> int_syntax_ok(trim(s@)) && x as int == int_value(trim(s@)),
        trim(s@).len() > 0 && int_syntax_ok(trim(s@)) && i64::MIN <= int_value(trim(s@))
            <= i64::MAX ==> (r matches Ok(Some(x)) && x as int == int_value(trim(s@))),
        r is Err <==> trim(s@).len() > 0 && !(int_syntax_ok(trim(s@)) && i64::MIN <= int_value(
            trim(s@),
        ) <= i64::MAX),
{
    let t = trim_chars(&str_to_chars(s));
    if t.len() == 0 {
        return Ok(None);
    }
    match parse_i64_chars(&t) {
        Some(x) => Ok(Some(x)),
        None => Err(BadField),
    }
}

/// Blank reads as `None`; otherwise the trimmed cell must be a decimal
/// integer that fits an `i32`.
pub fn parse_opt_i32(s: &str) -> (r: Result<Option<i32>, BadField>)
    ensures
        trim(s@).len() == 0 <==> r == Result::<Option<i32>, BadField>::Ok(None::<i32>),
        r matches Ok(Some(x)) ==> int_syntax_ok(trim(s@)) && x as int == int_value(trim(s@)),
        trim(s@).len() > 0 && int_syntax_ok(trim(s@)) && i32::MIN <= int_value(trim(s@))
            <= i32::MAX ==> (r matches Ok(Some(x)) && x as int == int_value(trim(s@))),
        r is Err <==> trim(s@).len() > 0 && !(int_syntax_ok(trim(s@)) && i32::MIN <= int_value(
            trim(s@),
        ) <= i32::MAX),
{
    let t = trim_chars(&str_to_chars(s));
    if t.len() == 0 {
        return Ok(None);
    }
    match crate::text::parse_i32_chars(&t) {
        Some(x) => Ok(Some(x)),
        None => Err(BadField),
    }
}

/// The accepted spellings of a boolean cell, after trimming and
/// lowercasing.
pub open spec fn bool_of_cell(t: Seq<char>) -> Option<bool> {
    if t == "true"@ || t == "t"@ || t == "1"@ || t == "yes"@ {
        Some(true)
    } else if t == "false"@ || t == "f"@ || t == "0"@ || t == "no"@ {
        Some(false)
    } else {
        None
    }
}

/// Blank reads as `None`; otherwise the lowercased trimmed cell must be
/// one of the accepted boolean spellings.
pub fn parse_opt_bool(s: &str) -> (r: Result<Option<bool>, BadField>)
    ensures
        ({
            let t = lower(trim(s@));
            if t.len() == 0 {
                r == Result::<Option<bool>, BadField>::Ok(None::<bool>)
            } else {
                match bool_of_cell(t) {
                    Some(b) => r == Result::<Option<bool>, BadField>::Ok(Some(b)),
                    None => r is Err,
                }
            }
        }),
{
    let t = lower_chars(&trim_chars(&str_to_chars(s)));
    if t.len() == 0 {
        return Ok(None);
    }
    if crate::text::chars_eq(&t, &str_to_chars("true")) || crate::text::chars_eq(
        &t,
        &str_to_chars("t"),
    ) || crate::text::chars_eq(&t, &str_to_chars("1")) || crate::text::chars_eq(
        &t,
        &str_to_chars("yes"),
    ) {
        Ok(Some(true))
    } else if crate::text::chars_eq(&t, &str_to_chars("false")) || crate::text::chars_eq(
        &t,
        &str_to_chars("f"),
    ) || crate::text::chars_eq(&t, &str_to_chars("0")) || crate::text::chars_eq(
        &t,
        &str_to_chars("no"),
    ) {
        Ok(Some(false))
    } else {
        Err(BadField)
    }
}

/// Blank reads as `None`; anything else is kept, trimmed.
pub fn parse_opt_string(s: &str) -> (r: Option<String>)
    ensures
        match r {
            Some(out) => trim(s@).len() > 0 && out@ == trim(s@),
            None => trim(s@).len() == 0,
        },
{
    let t = trim_chars(&str_to_chars(s));
    if t.len() == 0 {
        None
    } else {
        Some(chars_to_string(&t))
    }
}

} // verus!
