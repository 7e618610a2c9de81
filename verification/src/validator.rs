//! Checks run on an edited file before it replaces the original.
use vstd::prelude::*;

use crate::{QuartzError, QuartzResult};

verus! {

/// Whether `serde_json` reads the text as a JSON value.
pub uninterp spec fn json_parses(s: Seq<char>) -> bool;

/// Whether the `toml` crate reads the text as a TOML value.
pub uninterp spec fn toml_parses(s: Seq<char>) -> bool;

/// Why `serde_json` refuses `s`, or `None` when it reads a JSON value.
///
/// Trusted: calls `serde_json::from_str::<serde_json::Value>`, whose
/// outcome depends on the text alone, and returns its error's text.
#[verifier::external_body]
fn json_error(s: &str) -> (res: Option<String>)
    ensures
        res is None == json_parses(s@),
{
    match serde_json::from_str::<serde_json::Value>(s) {
        Ok(_) => None,
        Err(e) => Some(e.to_string()),
    }
}

/// Why the `toml` crate refuses `s`, or `None` when it reads a TOML value.
///
/// Trusted: calls `toml::from_str::<toml::Value>`, whose outcome depends on
/// the text alone, and returns its error's text.
#[verifier::external_body]
fn toml_error(s: &str) -> (res: Option<String>)
    ensures
        res is None == toml_parses(s@),
{
    match toml::from_str::<toml::Value>(s) {
        Ok(_) => None,
        Err(e) => Some(e.to_string()),
    }
}

/// A check that accepts every text.
pub fn infallible(_input: &str) -> (res: QuartzResult)
    ensures
        res is Ok,
{
    Ok(())
}

/// Accepts exactly the texts that are JSON.
pub fn json(input: &str) -> (res: QuartzResult)
    ensures
        res is Ok <==> json_parses(input@),
{
    match json_error(input) {
        None => Ok(()),
        Some(e) => Err(QuartzError::Message(e)),
    }
}

/// Accepts exactly the texts that are TOML.
pub fn toml(input: &str) -> (res: QuartzResult)
    ensures
        res is Ok <==> toml_parses(input@),
{
    match toml_error(input) {
        None => Ok(()),
        Some(e) => Err(QuartzError::Message(e)),
    }
}

} // verus!
