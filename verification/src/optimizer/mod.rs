pub mod buffer;
pub mod codeline;
pub mod errors;
pub mod optimizer;
pub mod optimizer_settings;
