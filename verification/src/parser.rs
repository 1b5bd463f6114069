//! The records and readers of course content, gathered under one path.

pub use crate::config::{default_lang, CourseInfo, GlobalSidebarItem, SiteConfig};
pub use crate::lesson::{Course, Lesson};
pub use crate::summary::{parse_summary, CourseSection, LessonItem};
