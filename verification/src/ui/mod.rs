pub mod panel;
pub mod settings;
