//! The bass synthesizer.
use vstd::prelude::*;
use crate::interface::{connection_views, Config};
use crate::plugin::{has_settings, instrument_config, instrument_connections};
use crate::webui::create_js;

verus! {

broadcast use vstd::string::group_string_axioms;

/// The bass synthesizer's configuration: `Bass`, a simple instrument.
pub fn init() -> (c: Config)
    ensures
        has_settings(c, "Bass"@, 16, 0, 1, 1, 0),
        connection_views(c.connections@) == instrument_connections("Bass"@),
{
    instrument_config("Bass")
}

/// The bass synthesizer's markup: none.
pub fn html() -> (s: String)
    ensures
        s@ == Seq::<char>::empty(),
{
    String::new()
}

/// The bass synthesizer's style sheet: none.
pub fn css() -> (s: String)
    ensures
        s@ == Seq::<char>::empty(),
{
    String::new()
}

/// The bass synthesizer's script: the default interface.
pub fn js(core: &str) -> (s: String)
    ensures
        s@ == core@ + "\n"@ + "createDefaultUI();"@ + "\n"@,
{
    create_js(core, "createDefaultUI();")
}

} // verus!
