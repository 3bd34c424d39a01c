//! The plugins' web interface script.
use vstd::prelude::*;
use crate::text::{chars_of, push_str, string_of};

verus! {

broadcast use vstd::string::group_string_axioms;

/// The script of a plugin's page: the shared interface library `core`, a line
/// feed, the plugin's own script `custom`, and a line feed.
pub fn create_js(core: &str, custom: &str) -> (s: String)
    ensures
        s@ == core@ + "\n"@ + custom@ + "\n"@,
{
    let mut v = chars_of(core);
    push_str(&mut v, "\n");
    push_str(&mut v, custom);
    push_str(&mut v, "\n");
    string_of(&v)
}

} // verus!
