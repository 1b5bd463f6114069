use hochanh::summary::{lesson_files, parse_summary, summary_is_readable};

#[test]
fn parses_sections_and_lessons() {
    let content = "# Nội dung khóa học Sample\n\n- [Bài 1: Giới thiệu hệ thống](lesson1.md)\n";
    let sections = parse_summary(content);
    assert_eq!(sections.len(), 1);
    assert_eq!(sections[0].section_title, "Nội dung khóa học Sample");
    assert_eq!(sections[0].lessons.len(), 1);
    assert_eq!(sections[0].lessons[0].title, "Bài 1: Giới thiệu hệ thống");
    assert_eq!(sections[0].lessons[0].file, "lesson1.md");
    assert_eq!(sections[0].lessons[0].url, "lesson1.html");
}

#[test]
fn lessons_before_any_heading_form_an_untitled_section() {
    let content = "  - [A](a.md)  \r\n# Part 2\n- [B](b.md)\nsome text\n# Empty\n";
    let sections = parse_summary(content);
    assert_eq!(sections.len(), 3);
    assert_eq!(sections[0].section_title, "");
    assert_eq!(sections[0].lessons[0].title, "A");
    assert_eq!(sections[1].section_title, "Part 2");
    assert_eq!(sections[1].lessons[0].url, "b.html");
    assert_eq!(sections[2].section_title, "Empty");
    assert!(sections[2].lessons.is_empty());
}

#[test]
fn empty_untitled_section_is_dropped() {
    let sections = parse_summary("intro\n# One\n- [x](x.md)\n");
    assert_eq!(sections.len(), 1);
    assert_eq!(sections[0].section_title, "One");
    assert!(parse_summary("").is_empty());
}

#[test]
fn heading_title_is_trimmed() {
    let sections = parse_summary("#    Spaced   \n");
    assert_eq!(sections[0].section_title, "Spaced");
}

#[test]
fn incomplete_links_are_ignored() {
    let sections = parse_summary("- [no link\n- [x](y\n- [ok](ok.md)\n");
    assert_eq!(sections.len(), 1);
    assert_eq!(sections[0].lessons.len(), 1);
    assert_eq!(sections[0].lessons[0].file, "ok.md");
}

#[test]
fn file_runs_to_last_parenthesis_and_every_md_is_replaced() {
    let sections = parse_summary("- [T](dir.md/a.md) x)\n");
    assert_eq!(sections[0].lessons[0].file, "dir.md/a.md) x");
    assert_eq!(sections[0].lessons[0].url, "dir.html/a.html) x");
}

#[test]
fn readability_check() {
    assert!(summary_is_readable("- [A](a.md)\n# B\n"));
    assert!(!summary_is_readable("- [a)](b\n"));
    assert!(summary_is_readable("- [](x)\n"));
}

#[test]
fn lesson_files_in_order() {
    let sections = parse_summary("- [A](a.md)\n# S\n- [B](b.md)\n- [C](c.md)\n");
    assert_eq!(lesson_files(&sections), vec!["a.md".to_string(), "b.md".to_string(), "c.md".to_string()]);
}

#[test]
fn unicode_white_space_is_trimmed() {
    let sections = parse_summary("\u{3000}- [A](a.md)\u{a0}\n# \u{2003}X\u{85}\n");
    assert_eq!(sections[0].lessons[0].file, "a.md");
    assert_eq!(sections[1].section_title, "X");
}

#[test]
fn sample_course_summary() {
    let sample = "# Nội dung khóa học Sample\n\n- [Bài 1: Giới thiệu hệ thống](lesson1.md)\n";
    let sections = hochanh::parser::parse_summary(sample);
    assert_eq!(sections[0].lessons[0].url, hochanh::lesson::lesson_page_name(Some("lesson1.md")));
}
