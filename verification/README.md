# ajazz_sdk

Protocol logic for Ajazz stream dock macro pads (AKP153, AKP815, AKP03 families and the N1),
written in Verus and verified.

- `src/` is the verified library: the command packets and their padding (`request`, `kind`),
  framing image data into output reports (`reports`), the N1 background upload protocol
  (`n1`), the image cache and its flush (`cache`), input events
  (`input`), session decisions such as initialization, interface choice and retries
  (`session`), and the command line of the `ajazz` tool (`cli`, `devices`) and the N1 probe
  reports (`probe`).
- `app/` holds the HID transport (via `hidapi`): it writes the packets the library builds,
  and runs the command-line tool and the probe.
- `tests/` exercises the library on concrete values.
