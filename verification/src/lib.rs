//! Read-only monitoring of AMD graphics cards.
//!
//! The library works on what the kernel shows as plain values, and gives back plain values: which
//! devices there are, how they are, who uses them, and the lines that report it. It reads no files
//! and asks no driver; where an answer of the machine decides what comes next, it says what to do
//! and takes what came of it.
pub mod text;
pub mod number;
pub mod order;
pub mod pci;
pub mod device;
pub mod process;
pub mod drm;
pub mod telemetry;
pub mod options;
pub mod csv;
pub mod layout;
pub mod report;
pub mod session;
