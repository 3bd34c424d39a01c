//! The patch library: the plugin that it exports is the current patch, the
//! default Csound plugin.
pub mod bass;
pub mod csound;
pub mod scratchpad;

use vstd::prelude::*;
use crate::csound_config::{connection_names, spec_connections, ConfigError, ConfigErrorView,
    ForeignPorts, PortRef, YmlConfig};
use crate::interface::{connection_views, Config};

verus! {

broadcast use vstd::string::group_string_axioms;

/// The current patch's configuration (see [`csound::init`]).
pub fn init(yml: &YmlConfig, foreign: &ForeignPorts) -> (r: Result<Config, ConfigError>)
    ensures
        match r {
            Ok(c) => {
                &&& spec_connections(*yml) matches Ok(refs)
                &&& c.name@ == match yml.name {
                    Some(n) => n@,
                    None => "DA-Csound"@,
                }
                &&& c.upsampling_factor == match yml.upsample { Some(v) => v, None => 1u32 }
                &&& c.num_in_channels == match yml.audio_in { Some(v) => v, None => 0u32 }
                &&& c.num_out_channels == match yml.audio_out { Some(v) => v, None => 1u32 }
                &&& c.num_midi_in_ports == match yml.midi_in { Some(v) => v, None => 1u32 }
                &&& c.num_midi_out_ports == match yml.midi_out { Some(v) => v, None => 0u32 }
                &&& connection_views(c.connections@) == connection_names(c.name@, *foreign, refs)
            },
            Err(e) => spec_connections(*yml) == Err::<Seq<(PortRef, PortRef)>, ConfigErrorView>(e@),
        },
{
    csound::init(yml, foreign)
}

/// The current patch's markup.
pub fn html() -> (s: String)
    ensures
        s@ == Seq::<char>::empty(),
{
    csound::html()
}

/// The current patch's style sheet.
pub fn css() -> (s: String)
    ensures
        s@ == Seq::<char>::empty(),
{
    csound::css()
}

/// The current patch's script.
pub fn js(core: &str) -> (s: String)
    ensures
        s@ == core@ + "\n"@ + "createDefaultUI();"@ + "\n"@,
{
    csound::js(core)
}

} // verus!
