//! The host/plugin interface: a plugin's configuration, the names of JACK ports,
//! and MIDI events.
use vstd::prelude::*;
use crate::text::{chars_of, decimal, push_chars, push_str, render_decimal, string_of};

verus! {

broadcast use vstd::string::group_string_axioms;

/// A plugin's configuration: its name, its sample-rate factor, how many audio
/// channels and MIDI ports it has, and the JACK connections to make.
#[derive(Debug, Clone)]
pub struct Config {
    pub upsampling_factor: u32,
    pub num_in_channels: u32,
    pub num_out_channels: u32,
    pub num_midi_in_ports: u32,
    pub num_midi_out_ports: u32,
    pub name: String,
    pub connections: Vec<(String, String)>,
}

/// The connections as pairs of character sequences.
pub open spec fn connection_views(c: Seq<(String, String)>) -> Seq<(Seq<char>, Seq<char>)> {
    c.map_values(|p: (String, String)| (p.0@, p.1@))
}

impl Config {
    /// A configuration with the given name and sizes and no connections.
    pub fn new(
        name: &str,
        upsampling_factor: u32,
        num_in_channels: u32,
        num_out_channels: u32,
        num_midi_in_ports: u32,
        num_midi_out_ports: u32,
    ) -> (c: Self)
        ensures
            c.name@ == name@,
            c.upsampling_factor == upsampling_factor,
            c.num_in_channels == num_in_channels,
            c.num_out_channels == num_out_channels,
            c.num_midi_in_ports == num_midi_in_ports,
            c.num_midi_out_ports == num_midi_out_ports,
            c.connections@.len() == 0,
    {
        Config {
            upsampling_factor,
            num_in_channels,
            num_out_channels,
            num_midi_in_ports,
            num_midi_out_ports,
            name: name.to_string(),
            connections: Vec::new(),
        }
    }
}

/// Makes the configuration of a plugin (the one that the other functions of
/// this module then read and extend).
pub fn make_config(
    name: &str,
    upsampling_factor: u32,
    num_in_channels: u32,
    num_out_channels: u32,
    num_midi_in_ports: u32,
    num_midi_out_ports: u32,
) -> (c: Config)
    ensures
        c.name@ == name@,
        c.upsampling_factor == upsampling_factor,
        c.num_in_channels == num_in_channels,
        c.num_out_channels == num_out_channels,
        c.num_midi_in_ports == num_midi_in_ports,
        c.num_midi_out_ports == num_midi_out_ports,
        c.connections@.len() == 0,
{
    Config::new(
        name,
        upsampling_factor,
        num_in_channels,
        num_out_channels,
        num_midi_in_ports,
        num_midi_out_ports,
    )
}

/// Adds the connection `from -> to` at the end of the configuration's list.
pub fn connect(config: &mut Config, from: String, to: String)
    ensures
        final(config).connections@ == old(config).connections@.push((from, to)),
        final(config).name == old(config).name,
        final(config).upsampling_factor == old(config).upsampling_factor,
        final(config).num_in_channels == old(config).num_in_channels,
        final(config).num_out_channels == old(config).num_out_channels,
        final(config).num_midi_in_ports == old(config).num_midi_in_ports,
        final(config).num_midi_out_ports == old(config).num_midi_out_ports,
{
    config.connections.push((from, to));
}

/// The name of a port of this plugin: the plugin's name, `:`, a port kind and a number.
pub open spec fn own_port_name(name: Seq<char>, kind: Seq<char>, n: u32) -> Seq<char> {
    name + seq![':'] + kind + decimal(n as nat)
}

fn own_port(config: &Config, kind: &str, n: u32) -> (s: String)
    ensures
        s@ == own_port_name(config.name@, kind@, n),
{
    let mut v = chars_of(config.name.as_str());
    v.push(':');
    push_str(&mut v, kind);
    let d = render_decimal(n as u64);
    push_chars(&mut v, &d);
    string_of(&v)
}

/// `{name}:in{channel}`: an audio input of this plugin.
pub fn self_in(config: &Config, channel: u32) -> (s: String)
    ensures
        s@ == own_port_name(config.name@, "in"@, channel),
{
    own_port(config, "in", channel)
}

/// `{name}:out{channel}`: an audio output of this plugin.
pub fn self_out(config: &Config, channel: u32) -> (s: String)
    ensures
        s@ == own_port_name(config.name@, "out"@, channel),
{
    own_port(config, "out", channel)
}

/// `{name}:midi_in{port}`: a MIDI input of this plugin.
pub fn self_midi_in(config: &Config, port: u32) -> (s: String)
    ensures
        s@ == own_port_name(config.name@, "midi_in"@, port),
{
    own_port(config, "midi_in", port)
}

/// `{name}:midi_out{port}`: a MIDI output of this plugin.
pub fn self_midi_out(config: &Config, port: u32) -> (s: String)
    ensures
        s@ == own_port_name(config.name@, "midi_out"@, port),
{
    own_port(config, "midi_out", port)
}

pub(crate) fn prefixed_number(prefix: &str, n: u32) -> (s: String)
    ensures
        s@ == prefix@ + decimal(n as nat),
{
    let mut v = chars_of(prefix);
    let d = render_decimal(n as u64);
    push_chars(&mut v, &d);
    string_of(&v)
}

/// `system:capture_{channel}`: a capture channel of the sound card.
pub fn system_capture(channel: u32) -> (s: String)
    ensures
        s@ == "system:capture_"@ + decimal(channel as nat),
{
    prefixed_number("system:capture_", channel)
}

/// `system:playback_{channel}`: a playback channel of the sound card.
pub fn system_playback(channel: u32) -> (s: String)
    ensures
        s@ == "system:playback_"@ + decimal(channel as nat),
{
    prefixed_number("system:playback_", channel)
}

/// The JACK name of the MIDI keyboard's output.
pub fn keyboard_in() -> (s: String)
    ensures
        s@ == "a2j:A-Series Keyboard [28] (capture): A-Series Keyboard Keyboard"@,
{
    "a2j:A-Series Keyboard [28] (capture): A-Series Keyboard Keyboard".to_string()
}

// ---------------------------------------------------------------------------
// MIDI events
// ---------------------------------------------------------------------------

/// A note-on event. `velocity` is the raw 7-bit MIDI value (0 to 127 stands for 0.0 to 1.0).
#[derive(Debug, Clone, Copy, PartialEq, Eq, Structural)]
pub struct NoteOn {
    pub port: u8,
    pub channel: u8,
    pub note: u8,
    pub velocity: u8,
}

/// A note-off event. `velocity` is the raw 7-bit MIDI value.
#[derive(Debug, Clone, Copy, PartialEq, Eq, Structural)]
pub struct NoteOff {
    pub port: u8,
    pub channel: u8,
    pub note: u8,
    pub velocity: u8,
}

/// A control change. `value` is the raw 7-bit MIDI value.
#[derive(Debug, Clone, Copy, PartialEq, Eq, Structural)]
pub struct CC {
    pub port: u8,
    pub channel: u8,
    pub cc: u8,
    pub value: u8,
}

/// A pitch bend. `value` is the raw 14-bit MIDI value (0 to 16383 stands for 0.0 to 1.0).
#[derive(Debug, Clone, Copy, PartialEq, Eq, Structural)]
pub struct PB {
    pub port: u8,
    pub channel: u8,
    pub value: u16,
}

/// A MIDI event.
#[derive(Debug, Clone, Copy, PartialEq, Eq, Structural)]
pub enum Midi {
    On(NoteOn),
    Off(NoteOff),
    CC(CC),
    PB(PB),
}

impl Midi {
    /// The port of the event.
    pub open spec fn port_of(self) -> u8 {
        match self {
            Midi::On(e) => e.port,
            Midi::Off(e) => e.port,
            Midi::CC(e) => e.port,
            Midi::PB(e) => e.port,
        }
    }

    /// The channel of the event.
    pub open spec fn channel_of(self) -> u8 {
        match self {
            Midi::On(e) => e.channel,
            Midi::Off(e) => e.channel,
            Midi::CC(e) => e.channel,
            Midi::PB(e) => e.channel,
        }
    }

    /// The port of the event.
    pub fn port(&self) -> (p: u8)
        ensures
            p == self.port_of(),
    {
        match self {
            Midi::On(e) => e.port,
            Midi::Off(e) => e.port,
            Midi::CC(e) => e.port,
            Midi::PB(e) => e.port,
        }
    }

    /// The channel of the event.
    pub fn channel(&self) -> (c: u8)
        ensures
            c == self.channel_of(),
    {
        match self {
            Midi::On(e) => e.channel,
            Midi::Off(e) => e.channel,
            Midi::CC(e) => e.channel,
            Midi::PB(e) => e.channel,
        }
    }
}

} // verus!
