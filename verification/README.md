# cooling_control

A daemon that watches CPU, GPU, coolant and NIC temperatures and drives the
fans of an Aquacomputer Quadro and the pump of an Aquacomputer D5 Next.

## Layout

- `src/` — the verified library (Verus):
  - `aquacomputer.rs` — device layouts and the control feature report: every
    channel set to fixed percent, unnamed channels at the fallback duty, and a
    CRC-16/USB trailer over the report body.
  - `checksum.rs` — the CRC-16/USB checksum, stated bit by bit and computed
    by the `crc` crate.
  - `routing.rs` — which duty each channel gets in a cycle; an unavailable
    temperature source leaves its channels at full duty.
  - `sensors.rs` — finding the k10temp, D5 Next and NIC hwmon devices in a
    listing of `/sys/class/hwmon`, and the CCD die temperature inputs.
  - `notify.rs` — user session selection and the `notify-send` command line.
  - `config.rs` — the hardware section, and which default sections a
    configuration file lacks.
  - `text.rs` — trimming, prefix/suffix/substring tests and replacement.
- `app/` — the program: sysfs and HID I/O, NVML, signals, logging, the
  configuration file, and the floating-point parts (curve interpolation,
  smoothing, temperature thresholds).
- `tests/` — tests of the library.
