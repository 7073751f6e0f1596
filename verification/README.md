# pio_spi

An SPI bus driven by a PIO state machine of the RP2040/RP235x, with its
decisions verified by Verus.

- `src/divider.rs` — the 24.8 fixed-point clock divider (four state machine
  ticks per bus bit), computed through the `fixed` crate.
- `src/frame.rs` — shift register settings, word framing for the TX FIFO, and
  a model of the shift registers in which a framed word clocked out on MOSI
  and back in on MISO returns unchanged.
- `src/program.rs` — the two PIO programs (clock phase 0 and 1), with their
  instruction encodings and a model of what their instructions do; the laws
  in `src/driver.rs` tie one pass of each program to one bit of the
  shift-register model, in every clock mode.
- `src/exchange.rs` — the blocking word exchange as a state machine (push one
  entry, pull its answer, repeat), with laws on complete runs.
- `src/dma.rs` — plans of the DMA steps of the asynchronous operations, the
  state machine steps that carry them out, and laws that they store what the
  blocking operations store and leave the bus idle for the next operation.
- `src/driver.rs` — the driver state (`PioSpi`), pin setup steps, SPI configuration and the
  state machine commands it produces.
- `app/lib.rs` — the `embedded-hal`, `embedded-hal-async` and `SetConfig`
  implementations, which carry out the core's decisions on a state machine
  reached through the `PioStateMachine` trait.
