# da_core

The logic of a small audio plugin host and its Csound plugins, verified with
Verus.

- `src/` is the verified library:
  - `text`: character-level text handling (search, split, trim, decimal
    rendering and integer reading as the standard library does them);
  - `interface`: a plugin's configuration, JACK port names, MIDI events;
  - `midi_codec`: the MIDI wire format, grouping a block's events by frame,
    routing emitted events to output ports;
  - `signal`: moving samples between JACK buffers, the channel buffers and
    the engine's interleaved buffers;
  - `midi_routing`: the Csound plugin's MIDI channel modes;
  - `csound_config`, `csd`: the `<Config>` block of a Csound document and the
    orchestra header;
  - `http`: the control page, its requests and the saved presets;
  - `host`, `webui`, `plugin`, `kick`, `patch`: the host's port names and
    connection lists, and the plugins' configurations and pages.
- `app/` is the host program: HTTP server, JACK client, plugin loading, and
  the floating-point conversions.
- `tests/` exercises the library on concrete values.
