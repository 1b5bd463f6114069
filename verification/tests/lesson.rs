use hochanh::lesson::{
    build_lesson, lesson_from_parts, lesson_page_name, new_course, split_frontmatter,
    FrontmatterError,
};

#[test]
fn splits_front_matter_from_body() {
    let (fm, body) = split_frontmatter("---\ntitle: A\n---\n# Body\n").unwrap();
    assert_eq!(fm, "\ntitle: A\n");
    assert_eq!(body, "\n# Body\n");
}

#[test]
fn body_keeps_later_fences() {
    let (fm, body) = split_frontmatter("---a---b---c").unwrap();
    assert_eq!(fm, "a");
    assert_eq!(body, "b---c");
}

#[test]
fn front_matter_errors() {
    assert_eq!(split_frontmatter("title: A\n"), Err(FrontmatterError::MissingOpening));
    assert_eq!(split_frontmatter("---\ntitle: A\n"), Err(FrontmatterError::Unclosed));
    assert_eq!(split_frontmatter(""), Err(FrontmatterError::MissingOpening));
}

#[test]
fn page_names() {
    assert_eq!(lesson_page_name(Some("lesson1.md")), "lesson1.html");
    assert_eq!(lesson_page_name(Some("notes.txt")), "notes.txt");
    assert_eq!(lesson_page_name(None), "lesson.html");
}

#[test]
fn markdown_is_rendered() {
    let lesson = lesson_from_parts("T".to_string(), None, None, "# Hi", "t.html".to_string());
    assert_eq!(lesson.content_html.as_deref(), Some("<h1>Hi</h1>\n"));
    assert_eq!(lesson.description, "");
    assert_eq!(lesson.youtube_html, None);
}

#[test]
fn video_link_gets_player() {
    let lesson = build_lesson(
        "T".to_string(),
        Some("D".to_string()),
        Some("https://youtu.be/XYZ".to_string()),
        "<p>x</p>".to_string(),
        "t.html".to_string(),
    );
    assert_eq!(lesson.description, "D");
    assert_eq!(lesson.youtube_url.as_deref(), Some("https://youtu.be/XYZ"));
    assert!(lesson.youtube_html.unwrap().contains("src=\"https://www.youtube.com/embed/XYZ\""));
    assert_eq!(lesson.content_html.as_deref(), Some("<p>x</p>"));
}

#[test]
fn non_video_link_gets_no_player() {
    let lesson = build_lesson("T".to_string(), None, Some("https://x.org".to_string()), String::new(), "p.html".to_string());
    assert_eq!(lesson.youtube_url.as_deref(), Some("https://x.org"));
    assert_eq!(lesson.youtube_html, None);
}

#[test]
fn course_is_named_after_its_directory() {
    let c = new_course("jlpt-n1".to_string(), Vec::new(), Vec::new());
    assert_eq!(c.name, "jlpt-n1");
    assert_eq!(c.slug, "jlpt-n1");
}

#[test]
fn front_matter_round_trip() {
    let fm = "\ntitle: A - B\ndescription: x\n";
    let body = "\nbody --- text\n";
    let content = format!("---{}---{}", fm, body);
    let (f, b) = split_frontmatter(&content).unwrap();
    assert_eq!(f, fm);
    assert_eq!(b, body);
}

#[test]
fn front_matter_ending_in_dash_loses_it() {
    let (f, b) = split_frontmatter("---a----b").unwrap();
    assert_eq!(f, "a");
    assert_eq!(b, "-b");
}

#[test]
fn sample_lesson_reads() {
    let content = "---\ntitle: Bài 1 - Giới thiệu hệ thống học\ndescription: Hướng dẫn cách sử dụng trang web để học hiệu quả nhất.\nyoutube: https://www.youtube.com/watch?v=1SGCu28948U\n---\n\n# Nội dung bài học\n";
    let (fm, body) = split_frontmatter(content).unwrap();
    assert!(fm.contains("youtube: https://www.youtube.com/watch?v=1SGCu28948U"));
    assert_eq!(body, "\n\n# Nội dung bài học\n");
    let lesson = lesson_from_parts(
        "Bài 1".to_string(),
        None,
        Some("https://www.youtube.com/watch?v=1SGCu28948U".to_string()),
        &body,
        lesson_page_name(Some("lesson1.md")),
    );
    assert_eq!(lesson.content_html.as_deref(), Some("<h1>Nội dung bài học</h1>\n"));
    assert!(lesson.youtube_html.unwrap().contains("https://www.youtube.com/embed/1SGCu28948U"));
    assert_eq!(lesson.file_name, "lesson1.html");
}
