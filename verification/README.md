# colorctl

Hardware control for Colorful AMD motherboards: RGB lighting through the
onboard USB HID controller (VID `0x2F4C`, PID `0x1000`) and fan control
through the Nuvoton NCT5584D Super I/O chip.

The library under `src/` is verified with Verus:

- `rgb` — channels and their LED ranges, channel configuration, the RGB
  state and its 35-byte state file (with round-trip laws), the LED buffer,
  the HID frames that carry it, recognising the controller from its uevent
  and report descriptor, and colour parsing.
- `fan` — fan headers, the Super I/O opening protocol as a step function
  over port-access scripts, and the hardware monitor register writes and
  readings.
- `cli` — command-line targets, built-in SmartFan profiles, 4-point curve
  parsing, and the choices the commands make from their arguments.
- `text` — trimming, splitting and integer parsing on characters.
- `utils` — percentage/PWM conversion and where state files live.

`app/` is the program: argument parsing with clap, `/dev/port` and
`/dev/hidraw` I/O, the state file on disk, and output.
