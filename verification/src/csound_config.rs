//! The `<Config>` block of a Csound document: finding it, and applying the
//! YAML settings that it holds to a plugin's configuration.
use vstd::prelude::*;
use crate::interface::{Config, own_port_name, prefixed_number, self_in, self_out, self_midi_in, self_midi_out,
    system_capture, system_playback};
use crate::midi_routing::MidiRouting;
use crate::interface::{connect, connection_views};
use crate::text::{is_ws, lemma_find_after_plain, law_parse_decimal, lemma_decimal_shape, chars_eq_str, chars_of, decimal, find, find_chars, lemma_find, parse_signed,
    parse_signed_chars, parse_unsigned, parse_unsigned_chars, slice_chars, string_of, trim,
    trim_chars};

verus! {

broadcast use vstd::string::group_string_axioms;

/// A MIDI connection of the YAML settings: from, to.
#[derive(PartialEq, Debug)]
pub struct MidiConnect(pub String, pub String);

/// An audio connection of the YAML settings: from, to.
#[derive(PartialEq, Debug)]
pub struct AudioConnect(pub String, pub String);

/// The YAML settings of a Csound document.
#[derive(PartialEq, Debug)]
pub struct YmlConfig {
    pub name: Option<String>,
    pub upsample: Option<u32>,
    pub audio_in: Option<u32>,
    pub audio_out: Option<u32>,
    pub midi_in: Option<u32>,
    pub midi_out: Option<u32>,
    pub midi_connect: Option<Vec<MidiConnect>>,
    pub audio_connect: Option<Vec<AudioConnect>>,
    pub param: Option<Vec<Vec<String>>>,
    pub midi_routing: Option<Vec<MidiRouting>>,
}

/// Which end of which kind of connection a port text names.
#[derive(Copy, Clone, PartialEq, Eq, Debug, Structural)]
pub enum Side {
    MidiOut,
    MidiIn,
    AudioOut,
    AudioIn,
}

/// A port that a connection text names.
#[derive(Copy, Clone, PartialEq, Eq, Debug, Structural)]
pub enum PortRef {
    /// The MIDI keyboard's output (`keyboard`).
    KeyboardOut,
    /// A port of this plugin (`self:N`), on the given side.
    Own(Side, u32),
    /// A channel of the sound card (`system:N`), on the given audio side.
    System(Side, u32),
    /// A port of REAPER (`reaper:N`), on the given side.
    Reaper(Side, u32),
}

/// Why a Csound document's configuration was refused.
#[derive(PartialEq, Debug)]
pub enum ConfigError {
    /// There is no `<Config>` block.
    MissingConfigStart,
    /// There is no `</Config>` terminator.
    MissingConfigEnd,
    /// The text between `<Config>` and `</Config>` cannot be cut out.
    MisplacedConfig,
    /// A connection text has no colon; `true` for a MIDI connection.
    NoColon(bool),
    /// The port number of a connection text is not a `u32`; the text after the colon.
    BadPort(Side, String),
    /// The port owner of a connection text is unknown; the trimmed owner.
    UnknownId(Side, String),
    /// A parameter row has too few entries.
    ShortParamRow,
    /// A parameter row's type is neither `lin` nor `exp`; the type.
    UnknownParamType(String),
    /// A parameter row's digits entry is not an `i32`; the entry.
    BadParamDigits(String),
}

/// What a [`ConfigError`] holds, with its texts as character sequences.
pub enum ConfigErrorView {
    MissingConfigStart,
    MissingConfigEnd,
    MisplacedConfig,
    NoColon(bool),
    BadPort(Side, Seq<char>),
    UnknownId(Side, Seq<char>),
    ShortParamRow,
    UnknownParamType(Seq<char>),
    BadParamDigits(Seq<char>),
}

impl View for ConfigError {
    type V = ConfigErrorView;

    open spec fn view(&self) -> ConfigErrorView {
        match self {
            ConfigError::MissingConfigStart => ConfigErrorView::MissingConfigStart,
            ConfigError::MissingConfigEnd => ConfigErrorView::MissingConfigEnd,
            ConfigError::MisplacedConfig => ConfigErrorView::MisplacedConfig,
            ConfigError::NoColon(m) => ConfigErrorView::NoColon(*m),
            ConfigError::BadPort(s, t) => ConfigErrorView::BadPort(*s, t@),
            ConfigError::UnknownId(s, t) => ConfigErrorView::UnknownId(*s, t@),
            ConfigError::ShortParamRow => ConfigErrorView::ShortParamRow,
            ConfigError::UnknownParamType(t) => ConfigErrorView::UnknownParamType(t@),
            ConfigError::BadParamDigits(t) => ConfigErrorView::BadParamDigits(t@),
        }
    }
}

// ---------------------------------------------------------------------------
// The `<Config>` block
// ---------------------------------------------------------------------------

/// The text of a Csound document's `<Config>` block and the document after it.
#[derive(Debug)]
pub struct ConfigBlock {
    pub yml: String,
    pub rest: String,
}

/// The YAML text between `<Config>` (and the character after it) and
/// `</Config>`, and the document after `</Config>`. The text is refused where
/// slicing it by bytes would fail: when the character after `<Config>` is not
/// a single byte, or when the text would end before it begins.
pub open spec fn spec_config_block(s: Seq<char>) -> Result<(Seq<char>, Seq<char>), ConfigErrorView> {
    match find(s, "<Config>"@) {
        None => Err(ConfigErrorView::MissingConfigStart),
        Some(a) => match find(s, "</Config>"@) {
            None => Err(ConfigErrorView::MissingConfigEnd),
            Some(b) => if a + 9 <= b && (s[a + 8] as u32) < 0x80 {
                Ok((s.subrange(a + 9, b), s.skip(b + 9)))
            } else {
                Err(ConfigErrorView::MisplacedConfig)
            },
        },
    }
}

/// Cuts a Csound document's `<Config>` block out of it.
pub fn extract_config_block(csd: &str) -> (r: Result<ConfigBlock, ConfigError>)
    ensures
        match r {
            Ok(b) => spec_config_block(csd@) == Ok::<(Seq<char>, Seq<char>), ConfigErrorView>((b.yml@, b.rest@)),
            Err(e) => spec_config_block(csd@) == Err::<(Seq<char>, Seq<char>), ConfigErrorView>(e@),
        },
{
    proof {
        reveal_strlit("<Config>");
        reveal_strlit("</Config>");
    }
    let s = chars_of(csd);
    let start = chars_of("<Config>");
    let end = chars_of("</Config>");
    proof {
        lemma_find(s@, start@);
        lemma_find(s@, end@);
    }
    let a = match find_chars(&s, &start) {
        Some(a) => a,
        None => return Err(ConfigError::MissingConfigStart),
    };
    let b = match find_chars(&s, &end) {
        Some(b) => b,
        None => return Err(ConfigError::MissingConfigEnd),
    };
    if a < b && b - a >= 9 && (s[a + 8] as u32) < 0x80 {
        let yml = slice_chars(&s, a + 9, b);
        let rest = slice_chars(&s, b + 9, s.len());
        assert(rest@ =~= s@.skip(b + 9));
        Ok(ConfigBlock { yml: string_of(&yml), rest: string_of(&rest) })
    } else {
        Err(ConfigError::MisplacedConfig)
    }
}


// ---------------------------------------------------------------------------
// Connection texts
// ---------------------------------------------------------------------------

/// Whether `side` is a MIDI side.
pub open spec fn is_midi_side(side: Side) -> bool {
    side == Side::MidiOut || side == Side::MidiIn
}

/// The port that owner `id` and number `n` name on `side`, if the owner is known there.
pub open spec fn spec_owned_port(side: Side, id: Seq<char>, n: u32) -> Option<PortRef> {
    if id == "self"@ {
        Some(PortRef::Own(side, n))
    } else if id == "system"@ && !is_midi_side(side) {
        Some(PortRef::System(side, n))
    } else if id == "reaper"@ {
        Some(PortRef::Reaper(side, n))
    } else {
        None
    }
}

/// The port that the connection text `s` names on `side`: `keyboard` (for
/// the sending end of a MIDI connection), or an owner and a port number
/// around the first colon, each with surrounding whitespace ignored.
pub open spec fn spec_parse_port(side: Side, s: Seq<char>) -> Result<PortRef, ConfigErrorView> {
    if side == Side::MidiOut && s == "keyboard"@ {
        Ok(PortRef::KeyboardOut)
    } else {
        match find(s, seq![':']) {
            None => Err(ConfigErrorView::NoColon(is_midi_side(side))),
            Some(i) => {
                let id = trim(s.take(i));
                let port = s.skip(i + 1);
                match parse_unsigned(trim(port), u32::MAX as nat) {
                    None => Err(ConfigErrorView::BadPort(side, port)),
                    Some(n) => match spec_owned_port(side, id, n as u32) {
                        Some(r) => Ok(r),
                        None => Err(ConfigErrorView::UnknownId(side, id)),
                    },
                }
            },
        }
    }
}

/// The port that the connection text `s` names on `side`.
pub fn parse_port(side: Side, s: &str) -> (r: Result<PortRef, ConfigError>)
    ensures
        match r {
            Ok(p) => spec_parse_port(side, s@) == Ok::<PortRef, ConfigErrorView>(p),
            Err(e) => spec_parse_port(side, s@) == Err::<PortRef, ConfigErrorView>(e@),
        },
{
    let v = chars_of(s);
    if side == Side::MidiOut && chars_eq_str(&v, "keyboard") {
        return Ok(PortRef::KeyboardOut);
    }
    let mut colon: Vec<char> = Vec::new();
    colon.push(':');
    assert(colon@ =~= seq![':']);
    let i = match find_chars(&v, &colon) {
        None => return Err(ConfigError::NoColon(side == Side::MidiOut || side == Side::MidiIn)),
        Some(i) => i,
    };
    proof {
        lemma_find(v@, colon@);
    }
    let id_raw = slice_chars(&v, 0, i);
    let id = trim_chars(&id_raw);
    let port = slice_chars(&v, i + 1, v.len());
    assert(id_raw@ =~= v@.take(i as int));
    assert(port@ =~= v@.skip(i + 1));
    let port_trimmed = trim_chars(&port);
    let n = match parse_unsigned_chars(&port_trimmed, u32::MAX as u64) {
        None => return Err(ConfigError::BadPort(side, string_of(&port))),
        Some(n) => n as u32,
    };
    if chars_eq_str(&id, "self") {
        Ok(PortRef::Own(side, n))
    } else if chars_eq_str(&id, "system") && !(side == Side::MidiOut || side == Side::MidiIn) {
        Ok(PortRef::System(side, n))
    } else if chars_eq_str(&id, "reaper") {
        Ok(PortRef::Reaper(side, n))
    } else {
        Err(ConfigError::UnknownId(side, string_of(&id)))
    }
}

/// The MIDI connection texts of the settings, in order.
pub open spec fn midi_pairs(v: Option<Vec<MidiConnect>>) -> Seq<(Seq<char>, Seq<char>)> {
    match v {
        Some(v) => v@.map_values(|c: MidiConnect| (c.0@, c.1@)),
        None => Seq::empty(),
    }
}

/// The audio connection texts of the settings, in order.
pub open spec fn audio_pairs(v: Option<Vec<AudioConnect>>) -> Seq<(Seq<char>, Seq<char>)> {
    match v {
        Some(v) => v@.map_values(|c: AudioConnect| (c.0@, c.1@)),
        None => Seq::empty(),
    }
}

/// The ports that the connection texts `pairs` name, or the first refusal
/// (the sending end of a pair is read before its receiving end).
pub open spec fn resolve_pairs(pairs: Seq<(Seq<char>, Seq<char>)>, from: Side, to: Side) -> Result<
    Seq<(PortRef, PortRef)>,
    ConfigErrorView,
>
    decreases pairs.len(),
{
    if pairs.len() == 0 {
        Ok(Seq::empty())
    } else {
        match resolve_pairs(pairs.drop_last(), from, to) {
            Err(e) => Err(e),
            Ok(done) => match spec_parse_port(from, pairs.last().0) {
                Err(e) => Err(e),
                Ok(a) => match spec_parse_port(to, pairs.last().1) {
                    Err(e) => Err(e),
                    Ok(b) => Ok(done.push((a, b))),
                },
            },
        }
    }
}

/// The connections that the settings ask for: the MIDI ones, then the audio ones.
pub open spec fn spec_connections(yml: YmlConfig) -> Result<Seq<(PortRef, PortRef)>, ConfigErrorView> {
    match resolve_pairs(midi_pairs(yml.midi_connect), Side::MidiOut, Side::MidiIn) {
        Err(e) => Err(e),
        Ok(m) => match resolve_pairs(audio_pairs(yml.audio_connect), Side::AudioOut, Side::AudioIn) {
            Err(e) => Err(e),
            Ok(a) => Ok(m + a),
        },
    }
}

/// A connection of the YAML settings, read as the texts that name its ends.
trait ConnectionText {
    spec fn texts(&self) -> (Seq<char>, Seq<char>);

    fn from_text(&self) -> (s: &str)
        ensures
            s@ == self.texts().0,
    ;

    fn to_text(&self) -> (s: &str)
        ensures
            s@ == self.texts().1,
    ;
}

impl ConnectionText for MidiConnect {
    spec fn texts(&self) -> (Seq<char>, Seq<char>) {
        (self.0@, self.1@)
    }

    fn from_text(&self) -> (s: &str) {
        self.0.as_str()
    }

    fn to_text(&self) -> (s: &str) {
        self.1.as_str()
    }
}

impl ConnectionText for AudioConnect {
    spec fn texts(&self) -> (Seq<char>, Seq<char>) {
        (self.0@, self.1@)
    }

    fn from_text(&self) -> (s: &str) {
        self.0.as_str()
    }

    fn to_text(&self) -> (s: &str) {
        self.1.as_str()
    }
}

/// Reads the ports of the connections `v`, from `from` to `to`, onto `out`,
/// or gives the first refusal.
fn resolve_connections<C: ConnectionText>(v: &Vec<C>, from: Side, to: Side, out: &mut Vec<(PortRef, PortRef)>) -> (r: Result<(), ConfigError>)
    ensures
        match resolve_pairs(v@.map_values(|c: C| c.texts()), from, to) {
            Ok(ps) => r is Ok && final(out)@ == old(out)@ + ps,
            Err(e) => r matches Err(e2) && e2@ == e,
        },
{
    let ghost pairs = v@.map_values(|c: C| c.texts());
    let ghost start = out@;
    let mut k: usize = 0;
    assert(pairs.take(0) =~= Seq::<(Seq<char>, Seq<char>)>::empty());
    assert(out@.skip(start.len() as int) =~= Seq::<(PortRef, PortRef)>::empty());
    while k < v.len()
        invariant
            k <= v.len(),
            pairs == v@.map_values(|c: C| c.texts()),
            pairs.len() == v@.len(),
            resolve_pairs(pairs.take(k as int), from, to) == Ok::<Seq<(PortRef, PortRef)>, ConfigErrorView>(out@.skip(start.len() as int)),
            out@.len() >= start.len(),
            out@.take(start.len() as int) == start,
        decreases v.len() - k,
    {
        assert(pairs.take(k + 1).drop_last() =~= pairs.take(k as int));
        assert(pairs.take(k + 1).last() == v@[k as int].texts());
        let a = match parse_port(from, v[k].from_text()) {
            Ok(a) => a,
            Err(e) => {
                proof {
                    lemma_resolve_prefix_error(pairs, from, to, k + 1);
                }
                return Err(e);
            },
        };
        let b = match parse_port(to, v[k].to_text()) {
            Ok(b) => b,
            Err(e) => {
                proof {
                    lemma_resolve_prefix_error(pairs, from, to, k + 1);
                }
                return Err(e);
            },
        };
        let ghost before = out@;
        out.push((a, b));
        assert(out@.skip(start.len() as int) =~= before.skip(start.len() as int).push((a, b)));
        assert(out@.take(start.len() as int) =~= start);
        k = k + 1;
    }
    assert(pairs.take(k as int) =~= pairs);
    assert(out@ =~= start + out@.skip(start.len() as int));
    Ok(())
}

/// A refusal on a prefix of the connection texts is the refusal of all of them.
proof fn lemma_resolve_prefix_error(pairs: Seq<(Seq<char>, Seq<char>)>, from: Side, to: Side, k: int)
    requires
        0 <= k <= pairs.len(),
        resolve_pairs(pairs.take(k), from, to) is Err,
    ensures
        resolve_pairs(pairs, from, to) == resolve_pairs(pairs.take(k), from, to),
    decreases pairs.len(),
{
    if k < pairs.len() {
        assert(pairs.drop_last().take(k) =~= pairs.take(k));
        lemma_resolve_prefix_error(pairs.drop_last(), from, to, k);
    } else {
        assert(pairs.take(k) =~= pairs);
    }
}

/// Applies the YAML settings to the plugin's configuration: the name
/// (`DA-Csound` by default), the upsampling factor (1), the audio inputs (0)
/// and outputs (1), the MIDI inputs (1) and outputs (0); and reads the
/// connections that they ask for, the MIDI ones first, or the first refusal.
pub fn apply_yml_config(config: &mut Config, yml: &YmlConfig) -> (r: Result<Vec<(PortRef, PortRef)>, ConfigError>)
    ensures
        final(config).name@ == match yml.name {
            Some(n) => n@,
            None => "DA-Csound"@,
        },
        final(config).upsampling_factor == match yml.upsample { Some(v) => v, None => 1u32 },
        final(config).num_in_channels == match yml.audio_in { Some(v) => v, None => 0u32 },
        final(config).num_out_channels == match yml.audio_out { Some(v) => v, None => 1u32 },
        final(config).num_midi_in_ports == match yml.midi_in { Some(v) => v, None => 1u32 },
        final(config).num_midi_out_ports == match yml.midi_out { Some(v) => v, None => 0u32 },
        final(config).connections == old(config).connections,
        match r {
            Ok(v) => spec_connections(*yml) == Ok::<Seq<(PortRef, PortRef)>, ConfigErrorView>(v@)
                && refs_nameable(v@),
            Err(e) => spec_connections(*yml) == Err::<Seq<(PortRef, PortRef)>, ConfigErrorView>(e@),
        },
{
    proof {
        lemma_connections_nameable(*yml);
    }
    config.name = match &yml.name {
        Some(n) => n.clone(),
        None => "DA-Csound".to_string(),
    };
    config.upsampling_factor = match yml.upsample { Some(v) => v, None => 1 };
    config.num_in_channels = match yml.audio_in { Some(v) => v, None => 0 };
    config.num_out_channels = match yml.audio_out { Some(v) => v, None => 1 };
    config.num_midi_in_ports = match yml.midi_in { Some(v) => v, None => 1 };
    config.num_midi_out_ports = match yml.midi_out { Some(v) => v, None => 0 };
    let mut out: Vec<(PortRef, PortRef)> = Vec::new();
    match &yml.midi_connect {
        Some(v) => {
            assert(midi_pairs(yml.midi_connect) =~= v@.map_values(|c: MidiConnect| c.texts()));
            match resolve_connections(v, Side::MidiOut, Side::MidiIn, &mut out) {
                Ok(()) => {},
                Err(e) => return Err(e),
            }
        },
        None => {
            assert(midi_pairs(yml.midi_connect) =~= Seq::<(Seq<char>, Seq<char>)>::empty());
        },
    }
    let ghost midi_done = out@;
    assert(midi_done =~= Seq::<(PortRef, PortRef)>::empty() + midi_done);
    match &yml.audio_connect {
        Some(v) => {
            assert(audio_pairs(yml.audio_connect) =~= v@.map_values(|c: AudioConnect| c.texts()));
            match resolve_connections(v, Side::AudioOut, Side::AudioIn, &mut out) {
                Ok(()) => {},
                Err(e) => return Err(e),
            }
        },
        None => {
            assert(audio_pairs(yml.audio_connect) =~= Seq::<(Seq<char>, Seq<char>)>::empty());
            assert(out@ =~= midi_done + Seq::<(PortRef, PortRef)>::empty());
        },
    }
    Ok(out)
}


// ---------------------------------------------------------------------------
// Naming the ports and making the connections
// ---------------------------------------------------------------------------

/// The JACK names of the ports outside this plugin that a connection text can
/// name: the keyboard's MIDI output, and for each side of REAPER the text that
/// its port numbers follow (REAPER's port `n` on a side is that side's text
/// followed by `n` in decimal).
pub struct ForeignPorts {
    pub keyboard_out: String,
    pub reaper_midi_out: String,
    pub reaper_midi_in: String,
    pub reaper_out: String,
    pub reaper_in: String,
}

/// Whether a port reference can stand in a connection: every one but a sound
/// card channel on a MIDI side, which no connection text names.
pub open spec fn nameable(r: PortRef) -> bool {
    !(r matches PortRef::System(side, _) && is_midi_side(side))
}

/// Whether both ends of every connection of `refs` can stand in a connection.
pub open spec fn refs_nameable(refs: Seq<(PortRef, PortRef)>) -> bool {
    forall|k: int| 0 <= k < refs.len() ==> nameable((#[trigger] refs[k]).0) && nameable(refs[k].1)
}

/// The JACK name of `r` for a plugin named `name`: the plugin's own ports, the
/// sound card's channels, and the keyboard's and REAPER's ports as `foreign`
/// names them. A sound card channel on a MIDI side has no name.
pub open spec fn spec_port_ref_name(name: Seq<char>, foreign: ForeignPorts, r: PortRef) -> Option<Seq<char>> {
    match r {
        PortRef::KeyboardOut => Some(foreign.keyboard_out@),
        PortRef::Own(Side::MidiOut, n) => Some(own_port_name(name, "midi_out"@, n)),
        PortRef::Own(Side::MidiIn, n) => Some(own_port_name(name, "midi_in"@, n)),
        PortRef::Own(Side::AudioOut, n) => Some(own_port_name(name, "out"@, n)),
        PortRef::Own(Side::AudioIn, n) => Some(own_port_name(name, "in"@, n)),
        PortRef::System(Side::AudioOut, n) => Some("system:capture_"@ + decimal(n as nat)),
        PortRef::System(Side::AudioIn, n) => Some("system:playback_"@ + decimal(n as nat)),
        PortRef::Reaper(Side::MidiOut, n) => Some(foreign.reaper_midi_out@ + decimal(n as nat)),
        PortRef::Reaper(Side::MidiIn, n) => Some(foreign.reaper_midi_in@ + decimal(n as nat)),
        PortRef::Reaper(Side::AudioOut, n) => Some(foreign.reaper_out@ + decimal(n as nat)),
        PortRef::Reaper(Side::AudioIn, n) => Some(foreign.reaper_in@ + decimal(n as nat)),
        _ => None,
    }
}

/// The JACK name of `r` for this plugin, with the keyboard's and REAPER's
/// ports named by `foreign`; none for a sound card channel on a MIDI side.
pub fn port_ref_name(config: &Config, foreign: &ForeignPorts, r: PortRef) -> (s: Option<String>)
    ensures
        match s {
            Some(s) => spec_port_ref_name(config.name@, *foreign, r) == Some(s@),
            None => spec_port_ref_name(config.name@, *foreign, r) is None,
        },
        s is Some <==> nameable(r),
{
    match r {
        PortRef::KeyboardOut => Some(foreign.keyboard_out.clone()),
        PortRef::Own(Side::MidiOut, n) => Some(self_midi_out(config, n)),
        PortRef::Own(Side::MidiIn, n) => Some(self_midi_in(config, n)),
        PortRef::Own(Side::AudioOut, n) => Some(self_out(config, n)),
        PortRef::Own(Side::AudioIn, n) => Some(self_in(config, n)),
        PortRef::System(Side::AudioOut, n) => Some(system_capture(n)),
        PortRef::System(Side::AudioIn, n) => Some(system_playback(n)),
        PortRef::Reaper(Side::MidiOut, n) => Some(prefixed_number(foreign.reaper_midi_out.as_str(), n)),
        PortRef::Reaper(Side::MidiIn, n) => Some(prefixed_number(foreign.reaper_midi_in.as_str(), n)),
        PortRef::Reaper(Side::AudioOut, n) => Some(prefixed_number(foreign.reaper_out.as_str(), n)),
        PortRef::Reaper(Side::AudioIn, n) => Some(prefixed_number(foreign.reaper_in.as_str(), n)),
        _ => None,
    }
}

/// The names of the connections `refs`, one for one and in order.
pub open spec fn connection_names(name: Seq<char>, foreign: ForeignPorts, refs: Seq<(PortRef, PortRef)>) -> Seq<(Seq<char>, Seq<char>)> {
    refs.map_values(|p: (PortRef, PortRef)|
        (spec_port_ref_name(name, foreign, p.0).unwrap(), spec_port_ref_name(name, foreign, p.1).unwrap()))
}

/// Adds the connections `refs` to the configuration, every one of them and in
/// order, after those that it already has.
pub fn connect_port_refs(config: &mut Config, refs: &Vec<(PortRef, PortRef)>, foreign: &ForeignPorts)
    requires
        refs_nameable(refs@),
    ensures
        connection_views(final(config).connections@) == connection_views(old(config).connections@)
            + connection_names(old(config).name@, *foreign, refs@),
        final(config).name == old(config).name,
        final(config).upsampling_factor == old(config).upsampling_factor,
        final(config).num_in_channels == old(config).num_in_channels,
        final(config).num_out_channels == old(config).num_out_channels,
        final(config).num_midi_in_ports == old(config).num_midi_in_ports,
        final(config).num_midi_out_ports == old(config).num_midi_out_ports,
{
    let ghost name = config.name@;
    let ghost start = connection_views(config.connections@);
    let ghost c0 = *config;
    let ghost want = connection_names(name, *foreign, refs@);
    let mut k: usize = 0;
    assert(start =~= start + want.take(0));
    while k < refs.len()
        invariant
            k <= refs.len(),
            refs_nameable(refs@),
            config.name@ == name,
            config.name == c0.name,
            config.upsampling_factor == c0.upsampling_factor,
            config.num_in_channels == c0.num_in_channels,
            config.num_out_channels == c0.num_out_channels,
            config.num_midi_in_ports == c0.num_midi_in_ports,
            config.num_midi_out_ports == c0.num_midi_out_ports,
            want == connection_names(name, *foreign, refs@),
            connection_views(config.connections@) == start + want.take(k as int),
        decreases refs.len() - k,
    {
        let (a, b) = refs[k];
        assert(refs@[k as int] == (a, b));
        let na = port_ref_name(config, foreign, a);
        let nb = port_ref_name(config, foreign, b);
        match (na, nb) {
            (Some(x), Some(y)) => {
                let ghost before = config.connections@;
                let ghost xv = x@;
                let ghost yv = y@;
                connect(config, x, y);
                assert(want[k as int] == (xv, yv));
                assert(connection_views(config.connections@) =~= connection_views(before).push((xv, yv)));
                assert(want.take(k + 1) =~= want.take(k as int).push((xv, yv)));
                assert(start + want.take(k + 1) =~= (start + want.take(k as int)).push((xv, yv)));
            },
            _ => {
                assert(false);
            },
        }
        k = k + 1;
    }
    assert(want.take(k as int) =~= want);
}

/// Every port that a connection text names can stand in a connection.
proof fn lemma_parse_port_nameable(side: Side, s: Seq<char>)
    ensures
        spec_parse_port(side, s) matches Ok(r) ==> nameable(r) && (r matches PortRef::System(t, _) ==> t == side),
{
}

/// The connections that connection texts name can all stand in a connection.
proof fn lemma_resolve_nameable(pairs: Seq<(Seq<char>, Seq<char>)>, from: Side, to: Side)
    ensures
        resolve_pairs(pairs, from, to) matches Ok(v) ==> refs_nameable(v),
    decreases pairs.len(),
{
    if pairs.len() > 0 {
        lemma_resolve_nameable(pairs.drop_last(), from, to);
        lemma_parse_port_nameable(from, pairs.last().0);
        lemma_parse_port_nameable(to, pairs.last().1);
        if let Ok(v) = resolve_pairs(pairs, from, to) {
            let done = resolve_pairs(pairs.drop_last(), from, to)->Ok_0;
            assert(v =~= done.push(v.last()));
            assert forall|k: int| 0 <= k < v.len() implies nameable((#[trigger] v[k]).0) && nameable(v[k].1) by {
                if k < done.len() {
                    assert(v[k] == done[k]);
                }
            }
        }
    }
}

/// The connections that the settings ask for can all stand in a connection.
pub proof fn lemma_connections_nameable(yml: YmlConfig)
    ensures
        spec_connections(yml) matches Ok(v) ==> refs_nameable(v),
{
    let m = resolve_pairs(midi_pairs(yml.midi_connect), Side::MidiOut, Side::MidiIn);
    let a = resolve_pairs(audio_pairs(yml.audio_connect), Side::AudioOut, Side::AudioIn);
    lemma_resolve_nameable(midi_pairs(yml.midi_connect), Side::MidiOut, Side::MidiIn);
    lemma_resolve_nameable(audio_pairs(yml.audio_connect), Side::AudioOut, Side::AudioIn);
    if let (Ok(mv), Ok(av)) = (m, a) {
        let v = mv + av;
        assert forall|k: int| 0 <= k < v.len() implies nameable((#[trigger] v[k]).0) && nameable(v[k].1) by {
            if k < mv.len() {
                assert(v[k] == mv[k]);
            } else {
                assert(v[k] == av[k - mv.len()]);
            }
        }
    }
}

// ---------------------------------------------------------------------------
// Parameter rows and MIDI routings
// ---------------------------------------------------------------------------

/// How a parameter's control maps its range.
#[derive(Copy, Clone, PartialEq, Eq, Debug, Structural)]
pub enum ParamKind {
    Linear,
    Exponential,
}

/// A parameter row of the settings: `[type, name, default, min, max, digits]`,
/// with the numbers that are not integers kept as text.
#[derive(Debug)]
pub struct ParamSpec {
    pub kind: ParamKind,
    pub name: String,
    pub default_text: String,
    pub min_text: String,
    pub max_text: String,
    pub digits: i32,
}

/// The views of a row's entries.
pub open spec fn row_views(row: Seq<String>) -> Seq<Seq<char>> {
    row.map_values(|s: String| s@)
}

/// The kind of a parameter type text, if it is `lin` or `exp`.
pub open spec fn spec_param_kind(t: Seq<char>) -> Option<ParamKind> {
    if t == "lin"@ {
        Some(ParamKind::Linear)
    } else if t == "exp"@ {
        Some(ParamKind::Exponential)
    } else {
        None
    }
}

/// What a parameter row is read as: its kind, its digits, and the first refusal.
pub open spec fn spec_param_row(row: Seq<Seq<char>>) -> Result<(ParamKind, i32), ConfigErrorView> {
    if row.len() < 3 {
        Err(ConfigErrorView::ShortParamRow)
    } else {
        match spec_param_kind(row[0]) {
            None => Err(ConfigErrorView::UnknownParamType(row[0])),
            Some(kind) => if row.len() < 6 {
                Err(ConfigErrorView::ShortParamRow)
            } else {
                match parse_signed(row[5], i32::MAX as nat) {
                    None => Err(ConfigErrorView::BadParamDigits(row[5])),
                    Some(d) => Ok((kind, d as i32)),
                }
            },
        }
    }
}

/// Reads a parameter row of the settings.
pub fn parse_param_row(row: &Vec<String>) -> (r: Result<ParamSpec, ConfigError>)
    ensures
        match r {
            Ok(p) => {
                &&& spec_param_row(row_views(row@)) == Ok::<(ParamKind, i32), ConfigErrorView>((p.kind, p.digits))
                &&& p.name@ == row@[1]@
                &&& p.default_text@ == row@[2]@
                &&& p.min_text@ == row@[3]@
                &&& p.max_text@ == row@[4]@
            },
            Err(e) => spec_param_row(row_views(row@)) == Err::<(ParamKind, i32), ConfigErrorView>(e@),
        },
{
    if row.len() < 3 {
        return Err(ConfigError::ShortParamRow);
    }
    let t = chars_of(row[0].as_str());
    let kind = if chars_eq_str(&t, "lin") {
        ParamKind::Linear
    } else if chars_eq_str(&t, "exp") {
        ParamKind::Exponential
    } else {
        return Err(ConfigError::UnknownParamType(row[0].clone()));
    };
    if row.len() < 6 {
        return Err(ConfigError::ShortParamRow);
    }
    let d = chars_of(row[5].as_str());
    let digits = match parse_signed_chars(&d, i32::MAX as u64) {
        None => return Err(ConfigError::BadParamDigits(row[5].clone())),
        Some(v) => v as i32,
    };
    Ok(ParamSpec {
        kind,
        name: row[1].clone(),
        default_text: row[2].clone(),
        min_text: row[3].clone(),
        max_text: row[4].clone(),
        digits,
    })
}

/// The MIDI routings of the settings, in order.
pub open spec fn spec_yml_routings(yml: YmlConfig) -> Seq<MidiRouting> {
    match yml.midi_routing {
        Some(v) => v@,
        None => Seq::empty(),
    }
}

/// The MIDI routings of the settings, in order.
pub fn yml_routings(yml: &YmlConfig) -> (r: Vec<MidiRouting>)
    ensures
        r@ == spec_yml_routings(*yml),
{
    let mut r: Vec<MidiRouting> = Vec::new();
    match &yml.midi_routing {
        Some(v) => {
            let mut k: usize = 0;
            while k < v.len()
                invariant
                    k <= v.len(),
                    r@ == v@.take(k as int),
                decreases v.len() - k,
            {
                r.push(v[k]);
                k = k + 1;
                assert(r@ =~= v@.take(k as int));
            }
            assert(v@.take(k as int) =~= v@);
        },
        None => {},
    }
    r
}


// ---------------------------------------------------------------------------
// Laws
// ---------------------------------------------------------------------------

proof fn lemma_trim_plain(s: Seq<char>)
    requires
        s.len() > 0,
        !is_ws(s[0]),
        !is_ws(s.last()),
    ensures
        trim(s) == s,
{
}

/// A connection text `self:N` names this plugin's port `N` on its side, and
/// the interface's name of that port is the one that `self_in`, `self_out`,
/// `self_midi_in` or `self_midi_out` gives.
pub proof fn law_own_port_text(side: Side, n: u32, name: Seq<char>, foreign: ForeignPorts)
    ensures
        spec_parse_port(side, "self:"@ + decimal(n as nat)) == Ok::<PortRef, ConfigErrorView>(PortRef::Own(side, n)),
        spec_port_ref_name(name, foreign, PortRef::Own(side, n)) == Some(own_port_name(
            name,
            match side {
                Side::MidiOut => "midi_out"@,
                Side::MidiIn => "midi_in"@,
                Side::AudioOut => "out"@,
                Side::AudioIn => "in"@,
            },
            n,
        )),
{
    reveal_strlit("self:");
    reveal_strlit("self");
    reveal_strlit("keyboard");
    let digits = decimal(n as nat);
    let s = "self:"@ + digits;
    let id = "self"@;
    assert(s =~= id + seq![':'] + digits);
    assert(s[0] == 's');
    assert("keyboard"@[0] == 'k');
    assert(s != "keyboard"@);
    lemma_find_after_plain(id, digits, ':');
    assert(s.take(4) =~= id);
    assert(s.skip(5) =~= digits);
    lemma_trim_plain(id);
    law_parse_decimal(n as nat, u32::MAX as nat);
    lemma_decimal_shape(n as nat);
    lemma_trim_plain(digits);
}

} // verus!
