//! The kick drum plugin.
use vstd::prelude::*;
use crate::interface::{connection_views, Config};
use crate::plugin::{has_settings, instrument_config, instrument_connections};
use crate::webui::create_js;

verus! {

broadcast use vstd::string::group_string_axioms;

/// The kick drum's configuration: `Kick`, a simple instrument.
pub fn init() -> (c: Config)
    ensures
        has_settings(c, "Kick"@, 16, 0, 1, 1, 0),
        connection_views(c.connections@) == instrument_connections("Kick"@),
{
    instrument_config("Kick")
}

/// The kick drum's markup: none.
pub fn html() -> (s: String)
    ensures
        s@ == Seq::<char>::empty(),
{
    String::new()
}

/// The kick drum's style sheet: none.
pub fn css() -> (s: String)
    ensures
        s@ == Seq::<char>::empty(),
{
    String::new()
}

/// The kick drum's script: the default interface.
pub fn js(core: &str) -> (s: String)
    ensures
        s@ == core@ + "\n"@ + "createDefaultUI();"@ + "\n"@,
{
    create_js(core, "createDefaultUI();")
}

} // verus!
