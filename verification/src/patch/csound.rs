//! The default Csound plugin: its settings come from the `<Config>` block of
//! the document that it plays.
use vstd::prelude::*;
use crate::csound_config::{apply_yml_config, connect_port_refs, connection_names, spec_connections,
    ConfigError, ConfigErrorView, ForeignPorts, PortRef, YmlConfig};
use crate::interface::{connection_views, make_config, Config};
use crate::webui::create_js;

verus! {

broadcast use vstd::string::group_string_axioms;

/// The plugin's configuration: `DefaultCsound` with one upsampling, no audio
/// input, one output, one MIDI input and no MIDI output, with the document's
/// settings applied over it and every connection that they ask for made, in
/// order, with the keyboard's and REAPER's ports named by `foreign`. Gives the
/// configuration, or the first refusal of the settings.
pub fn init(yml: &YmlConfig, foreign: &ForeignPorts) -> (r: Result<Config, ConfigError>)
    ensures
        match r {
            Ok(c) => {
                &&& spec_connections(*yml) matches Ok(refs)
                &&& c.name@ == match yml.name {
                    Some(n) => n@,
                    None => "DA-Csound"@,
                }
                &&& c.upsampling_factor == match yml.upsample { Some(v) => v, None => 1u32 }
                &&& c.num_in_channels == match yml.audio_in { Some(v) => v, None => 0u32 }
                &&& c.num_out_channels == match yml.audio_out { Some(v) => v, None => 1u32 }
                &&& c.num_midi_in_ports == match yml.midi_in { Some(v) => v, None => 1u32 }
                &&& c.num_midi_out_ports == match yml.midi_out { Some(v) => v, None => 0u32 }
                &&& connection_views(c.connections@) == connection_names(c.name@, *foreign, refs)
            },
            Err(e) => spec_connections(*yml) == Err::<Seq<(PortRef, PortRef)>, ConfigErrorView>(e@),
        },
{
    let mut c = make_config("DefaultCsound", 1, 0, 1, 1, 0);
    let refs = match apply_yml_config(&mut c, yml) {
        Ok(refs) => refs,
        Err(e) => return Err(e),
    };
    assert(connection_views(c.connections@) =~= Seq::<(Seq<char>, Seq<char>)>::empty());
    connect_port_refs(&mut c, &refs, foreign);
    assert(connection_views(c.connections@) =~= connection_names(c.name@, *foreign, refs@));
    Ok(c)
}

/// The plugin's markup: none.
pub fn html() -> (s: String)
    ensures
        s@ == Seq::<char>::empty(),
{
    String::new()
}

/// The plugin's style sheet: none.
pub fn css() -> (s: String)
    ensures
        s@ == Seq::<char>::empty(),
{
    String::new()
}

/// The plugin's script: the default interface.
pub fn js(core: &str) -> (s: String)
    ensures
        s@ == core@ + "\n"@ + "createDefaultUI();"@ + "\n"@,
{
    create_js(core, "createDefaultUI();")
}

} // verus!
