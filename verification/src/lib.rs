//! Size, structure and gas analysis of WebAssembly binaries meant for
//! Arbitrum Stylus contracts.

pub mod analyzer;
pub mod compare;
pub mod display;
pub mod gas;
pub mod size;
pub mod text;
pub mod wasm;
