//! Host side of the Radtel RT-890 UART service protocol.
//!
//! The crate holds the protocol itself and performs no I/O of its own:
//!
//! - [`frame`]: the trailing checksum of a frame;
//! - [`uart`]: one request frame per radio-side opcode, and the reading of
//!   the radio's answers;
//! - [`spi`]: the image sizes and the table of SPI flash regions;
//! - [`session`]: the actions a transfer hands out and the events it takes;
//! - [`flash`], [`restore`], [`dump`]: the three transfers.
//!
//! A transfer is driven in a loop. Starting it yields the first action. The
//! caller performs each action on the serial link, reports the bytes that
//! came back, or that the link failed, to `step`, and gets the next action,
//! until the action is to finish.

pub mod dump;
pub mod flash;
pub mod frame;
pub mod restore;
pub mod session;
pub mod spi;
pub mod uart;
