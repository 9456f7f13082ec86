//! Discovery of nixpkgs packages that ship desktop entries, and the decisions
//! of the continuous Flatpak builder.

pub mod text;
pub mod types;
pub mod ci_builder;
pub mod desktop_parser;
pub mod discover;
pub mod discover_unfree;
pub mod runtime_detector;
pub mod stats;
