//! Verified core of an interactive binary entropy visualizer: block
//! sampling, byte statistics, hex-view navigation and selection, byte
//! formatters, offset parsing and printing, and colour-theme resolution.

use vstd::prelude::*;

pub mod text;
pub mod units;
pub mod sampling;
pub mod hexfmt;
pub mod theme;
pub mod hexview;
pub mod export;
pub mod session;
pub mod options;


pub use export::ExportConfig;
pub use sampling::auto_adapt;
pub use session::FileInfo;
