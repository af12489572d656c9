pub mod check;
pub mod constant;
pub mod laws;
pub mod list;
pub mod m3u;
pub mod parse;
pub mod sort;
pub mod text;
