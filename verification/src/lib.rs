//! Audio profile toggling: parsing of the audio daemon's textual status
//! reports, resolution of a saved profile's devices against the live device
//! list, and construction of the command sequence that applies a profile.

pub mod apply;
pub mod config;
pub mod resolve;
pub mod text;
pub mod wpctl;

pub use config::AppConfig;
pub use config::ProfileConfig;
pub use config::ProfileTag;
