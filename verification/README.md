# light

The verified core of an RGB lighting application: device protocols, the per-device
configuration of effects and brightness (device, output and segment scopes with
inheritance), segment layouts, frame planning, effect switching, black border
detection, settings and the saved device configuration. Every function in `src/` is
verified with Verus against its contract, except two small wrappers whose contracts are
trusted: one around `hex::encode` and one around `String::from_utf8_lossy`. The public
proof functions named `law_*` state properties that hold across operations (restoring a saved configuration gives it
back, render targets tile the physical LED buffer, fragments of a configuration message
may arrive in any order, and so on).

Layout:

- `src/` — the library, one module per concern (`scope`, `segments`, `persist`,
  `render`, `switching`, `snapshot`, `border`, `led_matrix`, `drgb`, `skydimo`,
  `skydimo_device`, `serial_throttle`, `screen`, `audio`, `effects`, `params`,
  `app_config`, `lut`, `hex_text`, `text`, `layout`).
- `tests/` — tests of the library on concrete values.
- `app/` — the program around it: configuration files, device drivers (serial, HID,
  UDP with mDNS discovery), the effect registry, the render loop and floating point
  color math.
