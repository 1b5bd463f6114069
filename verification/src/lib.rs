//! Verified core of a static course-site generator: YouTube link handling,
//! table-of-contents parsing, lesson front matter, site menus and request paths.

pub mod text;
pub mod youtube;
pub mod summary;
pub mod lesson;
pub mod config;
pub mod serve;
pub mod generate;
pub mod parser;
