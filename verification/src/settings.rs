//! Decisions taken from settings in the environment: whether archiving is
//! switched off, whether tracing is on, and whether the build runs in
//! archiver-only mode.

use vstd::prelude::*;
use crate::text::{is_blank, trim};

verus! {

/// A setting counts as set when the variable holds a non-empty value (white
/// space included). `value` is the variable's value, `None` when unset.
pub fn env_flag_set(value: Option<&str>) -> (r: bool)
    ensures
        r == (value matches Some(v) && v@.len() > 0),
{
    match value {
        Some(v) => !v.is_empty(),
        None => false,
    }
}

/// Archiver-only mode is the default: only a full-CLI setting with something
/// other than white space in it switches it off. `full_cli` is the
/// variable's value, `None` when it is unset or not Unicode.
pub fn archiver_only(full_cli: Option<&str>) -> (r: bool)
    ensures
        r == !(full_cli matches Some(v) && !is_blank(v@)),
{
    match full_cli {
        Some(v) => trim(v).is_empty(),
        None => true,
    }
}

} // verus!
