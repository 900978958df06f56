pub mod editor;
pub mod extension;
pub mod meta;
pub mod pom;
pub mod resolver;
pub mod settings;
pub mod types;
pub mod utils;
