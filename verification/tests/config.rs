use hochanh::config::{
    default_lang, trim_slashes, GlobalSidebarItem, MenuEntry, MenuLink, MenuNode, SiteConfig,
};

fn cfg(course: Option<Vec<Vec<MenuEntry>>>) -> SiteConfig {
    SiteConfig {
        site_name: "S".to_string(),
        description: "D".to_string(),
        author: "A".to_string(),
        lang: default_lang(),
        course,
    }
}

#[test]
fn default_language_is_english() {
    assert_eq!(default_lang(), "en");
}

#[test]
fn slashes_are_trimmed() {
    assert_eq!(trim_slashes("//n2-bunpo//"), "n2-bunpo");
    assert_eq!(trim_slashes("a/b"), "a/b");
    assert_eq!(trim_slashes("///"), "");
}

#[test]
fn no_course_list_gives_empty_menu() {
    assert!(cfg(None).get_sidebar_menu().is_empty());
}

#[test]
fn courses_and_sections() {
    let course = vec![
        vec![MenuEntry { title: Some("JLPT N2".to_string()), node: MenuNode::Slug("n2-bunpo/".to_string()) }],
        vec![
            MenuEntry {
                title: Some("Grammar".to_string()),
                node: MenuNode::Group(vec![
                    Some(vec![MenuLink { title: Some("N1".to_string()), slug: Some("/n1/".to_string()) }]),
                    None,
                    Some(vec![MenuLink { title: None, slug: None }]),
                ]),
            },
            MenuEntry { title: None, node: MenuNode::Other },
            MenuEntry { title: None, node: MenuNode::Slug("x".to_string()) },
        ],
    ];
    let menu = cfg(Some(course)).get_sidebar_menu();
    assert_eq!(menu.len(), 3);
    match &menu[0] {
        GlobalSidebarItem::Course { title, slug } => {
            assert_eq!(title, "JLPT N2");
            assert_eq!(slug, "n2-bunpo");
        }
        _ => panic!("expected a course"),
    }
    match &menu[1] {
        GlobalSidebarItem::Section { title, courses } => {
            assert_eq!(title, "Grammar");
            assert_eq!(courses.len(), 2);
            assert_eq!(courses[0].title, "N1");
            assert_eq!(courses[0].slug, "n1");
            assert_eq!(courses[1].title, "");
            assert_eq!(courses[1].slug, "");
        }
        _ => panic!("expected a section"),
    }
    match &menu[2] {
        GlobalSidebarItem::Course { title, slug } => {
            assert_eq!(title, "");
            assert_eq!(slug, "x");
        }
        _ => panic!("expected a course"),
    }
}
