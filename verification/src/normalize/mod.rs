pub mod ansi;
pub mod boilerplate;
pub mod long_lines;
pub mod whitespace;
