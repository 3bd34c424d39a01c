use vstd::prelude::*;

pub mod text;
pub mod interface;
pub mod midi_codec;
pub mod signal;
pub mod midi_routing;
pub mod csound_config;
pub mod csd;
pub mod http;
pub mod host;
pub mod webui;
pub mod plugin;
pub mod kick;
pub mod patch;

verus! {

} // verus!
