//! DST Lua configuration files, which the panel reads and writes as text.
use vstd::prelude::*;

verus! {

broadcast use vstd::string::group_string_axioms;

/// The contents of a Lua file, or `return {}` when it is missing or empty.
pub fn contents_or_default(contents: Option<String>) -> (s: String)
    ensures
        s@ == match contents {
            Some(c) => if c@.len() == 0 { "return {}"@ } else { c@ },
            None => "return {}"@,
        },
{
    match contents {
        None => "return {}".to_string(),
        Some(c) => if c.as_str().is_empty() { "return {}".to_string() } else { c },
    }
}

} // verus!
