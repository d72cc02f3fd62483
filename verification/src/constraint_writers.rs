pub mod debug_writer;
pub mod json_writer;
pub mod maple_writer;
