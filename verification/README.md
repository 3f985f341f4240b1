# esp32_s3_rhai

Firmware core for the ESP32-S3 Super Mini running Rhai scripts next to a
MAVLink link, as a verified library with a thin program around it.

Layout:

- `src/` — the library, verified with Verus:
  - `logging.rs` — the 4 KB RAM log ring (write, circular dump, clear), the log line
    format of the system logger, script `print()` redirection, Telegram and
    STATUSTEXT messages, and the laws that tie writes and dumps together;
  - `status_queue.rs` — the bounded FIFO of status messages;
  - `mavlink/state.rs` — the MAVLink telemetry record and mission zones;
  - `shared_state.rs` — the records shared between the two cores;
  - `rhai_bridge.rs` — the computing part of the script API (log records,
    LED pixel packet, MAVLink values);
  - `rhai_engine.rs` — the Core1 script runner as a state machine;
  - `mavlink_bridge.rs` — the MAVLink v1/v2 frame parser and what each handled
    message does to the state and the status queue;
  - `bounded_text.rs` — the `heapless` strings the firmware formats into;
  - `text.rs` — decimal rendering and the way a formatter fills a bounded
    buffer.
- `app/` — the program: the shared instances behind locks, the `log` facade,
  the Rhai engine driven by the runner, the hardware transfers (GPIO, I2C,
  UART, LED), the two core threads, and the fixed-point scaling of the
  telemetry that comes as floating point (attitude, mission radius), for
  messages the parser does not decode yet.
- `tests/` — tests of the library on concrete values.
