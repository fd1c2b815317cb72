//! Incoming-link routing and browser-launch decision engine.
//!
//! The crate models the state machine that receives candidate URLs, decides
//! which installed browser and profile should handle each one, and shapes the
//! command line for the launch, together with browser/profile discovery and a
//! bounded diagnostics log.

pub mod browser_details;
pub mod browser_probe;
pub mod defaults;
pub mod diagnostics;
pub mod domain;
pub mod host;
pub mod jsontext;
pub mod link;
pub mod preferences;
pub mod routing;
pub mod text;
pub mod weburl;
