//! Local-state core of a desktop utility that turns websites into standalone
//! applications.
//!
//! The crate owns two responsibilities: a consistent on-disk record of
//! profiles (isolated browsing contexts) and the sites (installed web apps)
//! that belong to them, and the detection and provisioning of a required
//! external archiving tool.  All file, network and platform calls live
//! outside this crate; the functions here are pure state transitions and
//! codecs with verified contracts.

pub mod ids;
pub mod model;
pub mod text;
pub mod lifecycle;
pub mod sevenzip;
pub mod codec;
