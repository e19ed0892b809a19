//! Entity extraction and design-hierarchy construction for SystemVerilog
//! sources: module, interface and package records, their ports and
//! parameters, instantiation edges, and the hierarchy rooted at the top-level
//! modules.
pub mod design;
pub mod diagnostics;
pub mod files;
pub mod hierarchy;
pub mod includes;
pub mod interfaces;
pub mod modules;
pub mod packages;
pub mod out;
pub mod ports;
pub mod syntax;
pub mod table;
pub mod text;
