pub mod text;
pub mod utils;
pub mod i18n;
pub mod cli;
pub mod config;
pub mod ranking;
pub mod scanner;
pub mod window;
pub mod project;
