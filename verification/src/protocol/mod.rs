pub mod command;
pub mod packet;
pub mod extended_command;
pub mod scrolling_text;
pub mod bdf_font;
pub mod static_text;
pub mod video;
