# declavatar2

A declarative avatar compiler, verified with Verus: a script declares parameters, layers,
animations and menus, the transform checks every reference and compiles it, and the result
goes to a client as a versioned binary blob.

## Layout

- `src/` is the verified library.
  - `bytes`, `wire`, `codec`, `header`, `interop`: the wire format (little-endian integers,
    length-prefixed UTF-8 strings, tagged options and lists) and the blob header, with the
    round-trip laws for blobs and diagnostics.
  - `avatar_codec`: the plain-value parts of the avatar payload (enumeration tags, asset
    locators, animated properties, reference tables, transitions, menu axes).
  - `animated_wire`: animated values on the wire, each floating-point component carried as its
    IEEE 754 bits.
  - `target_codec`, `menu_codec`: compiled animation targets and the expression menu on the
    wire, read back against the parameters in scope, with their round-trip laws.
  - `resolution`, `external`, `unity_external`: references before and after resolution, and the
    deduplicated tables of references the client looks up.
  - `value_set`: sets of animated values keyed by target, and the two ways they are merged.
  - `first_pass`, `layers`, `parameters`, `drives`, `target_pass`: the first pass over
    parameters and layers, the parameter table and how references resolve against it, layer
    drives, and target compilation.
  - `state_graph`, `raw_pass`, `puppet_pass`, `menu_pass`: the second pass over group, switch,
    raw, puppet and blend layers and over the menu: their states, transitions, conditions,
    keyframe plans and controls.
  - `passes`: how the outcome of the transform is gathered, with every error of every pass
    reported together.
  - `transform_error`, `describe`, `text`, `compile`, `diagnostics`: how errors are worded and
    reported to the client.
  - `modules`, `bindings`, `host`: module lookup for `require`, the objects a script binds, and
    the decisions of the C interface.
- `tests/` exercises the library on concrete values.
- `app/` is the host side: the exported C functions, reading modules from disk, floating-point
  wire values, error types with their messages, and serialised forms.
