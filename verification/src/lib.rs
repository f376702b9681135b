pub mod builder;
pub mod fetcher;
pub mod frontend;
pub mod go;
pub mod goreleaser;
pub mod python;
pub mod rust;
pub mod inputs;
pub mod text;
pub mod utils;
