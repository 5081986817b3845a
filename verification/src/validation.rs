//! Validation entry points for token, meteor and meteor-shower text.

use vstd::prelude::*;
use crate::validators::{
    is_valid_meteor_format, is_valid_meteor_shower_format, is_valid_token_format,
    meteor_format_ok, shower_format_ok, token_format_ok,
};

verus! {

/// Whether `s` is a token `key=value`.
pub fn is_valid_token(s: &str) -> (r: bool)
    ensures
        r == token_format_ok(s@),
{
    is_valid_token_format(s)
}

/// Whether `s` is a meteor `context:namespace:key=value; key2=value2`.
pub fn is_valid_meteor(s: &str) -> (r: bool)
    ensures
        r == meteor_format_ok(s@),
{
    is_valid_meteor_format(s)
}

/// Whether `s` is a meteor shower: meteors separated by `:;:`.
pub fn is_valid_meteor_shower(s: &str) -> (r: bool)
    ensures
        r == shower_format_ok(s@),
{
    is_valid_meteor_shower_format(s)
}

} // verus!
