//! Verified core of a PIO-driven SPI bus driver: clock divider computation,
//! word framing for the PIO shift registers, the blocking word-exchange
//! protocol and the planning of DMA transfers.

pub mod divider;
pub mod frame;
pub mod exchange;
pub mod dma;
pub mod program;
pub mod driver;
