use hochanh::generate::{lesson_stub_content, plan_lessons, summary_links, GenerateError};
use hochanh::lesson::split_frontmatter;

#[test]
fn plans_one_file_per_link() {
    let plan = plan_lessons("# S\n- [One](one.md)\n- [Two](two.md)\n", None).unwrap();
    assert_eq!(plan.len(), 2);
    assert_eq!(plan[0].file, "one.md");
    assert_eq!(
        plan[0].content,
        "---\ntitle: \"One\"\n---\n\nNội dung bài học **One** sẽ được viết tại đây...\n"
    );
    assert_eq!(plan[1].file, "two.md");
}

#[test]
fn videos_are_paired_in_order() {
    let plan = plan_lessons("- [One](one.md)\n- [Two](two.md)\n", Some("\n  https://youtu.be/a \n\nhttps://youtu.be/b\n")).unwrap();
    assert_eq!(
        plan[1].content,
        "---\ntitle: \"Two\"\nyoutube: https://youtu.be/b\n---\n\nNội dung bài học **Two** sẽ được viết tại đây...\n"
    );
}

#[test]
fn errors() {
    assert_eq!(plan_lessons("# nothing\n", None).unwrap_err(), GenerateError::EmptySummary);
    assert_eq!(
        plan_lessons("- [One](one.md)\n", Some("a\nb\n")).unwrap_err(),
        GenerateError::CountMismatch { lessons: 1, videos: 2 }
    );
    assert_eq!(
        plan_lessons("- [One](one.md)\n", Some("")).unwrap_err(),
        GenerateError::CountMismatch { lessons: 1, videos: 0 }
    );
}

#[test]
fn links_match_summary_lessons() {
    let links = summary_links("x\n- [A](a.md)\n# H\n- [B](b.md)\n");
    assert_eq!(links.len(), 2);
    assert_eq!(links[0].title, "A");
    assert_eq!(links[1].file, "b.md");
    let sections = hochanh::summary::parse_summary("x\n- [A](a.md)\n# H\n- [B](b.md)\n");
    let from_sections: Vec<(String, String)> = sections
        .iter()
        .flat_map(|s| s.lessons.iter().map(|l| (l.title.clone(), l.file.clone())))
        .collect();
    let from_links: Vec<(String, String)> = links.iter().map(|l| (l.title.clone(), l.file.clone())).collect();
    assert_eq!(from_sections, from_links);
}

#[test]
fn stub_reads_back() {
    let content = lesson_stub_content("T-1", Some("https://youtu.be/q"));
    let (fm, body) = split_frontmatter(&content).unwrap();
    assert_eq!(fm, "\ntitle: \"T-1\"\nyoutube: https://youtu.be/q\n");
    assert_eq!(body, "\n\nNội dung bài học **T-1** sẽ được viết tại đây...\n");
}
