//! The site configuration (`hochanh.yml`) and the global course menu built from it.
//!
//! The `course` list of the configuration is a YAML list of mappings. Each mapping
//! entry is either a course (`Title: slug/`) or a section whose value is a list of
//! one-entry mappings (`Title: slug/`). The configuration keeps, for each entry, what
//! the menu reads of it: the key when it is a string, and the value as a string, as a
//! list, or neither.

use vstd::prelude::*;
use crate::text::{
    chars_of, lemma_trim_char_clean, lemma_trim_char_end, lemma_trim_char_start, string_of,
    trim_char, trim_char_end, trim_char_start,
};
use crate::youtube::opt_view;

verus! {

broadcast use vstd::string::group_string_axioms;

// ---------------------------------------------------------------------------
// Data
// ---------------------------------------------------------------------------

/// One key/value pair of a mapping inside a menu section, each kept when it is a string.
#[derive(Debug, Clone)]
pub struct MenuLink {
    pub title: Option<String>,
    pub slug: Option<String>,
}

/// The value of a top-level menu entry.
#[derive(Debug, Clone)]
pub enum MenuNode {
    /// A string: the slug of a course.
    Slug(String),
    /// A list: a section; each item is a mapping (its pairs) or something else (`None`).
    Group(Vec<Option<Vec<MenuLink>>>),
    /// Any other value.
    Other,
}

/// One key/value pair of a top-level menu mapping; the key is kept when it is a string.
#[derive(Debug, Clone)]
pub struct MenuEntry {
    pub title: Option<String>,
    pub node: MenuNode,
}

/// The site configuration.
#[derive(Debug, Clone)]
pub struct SiteConfig {
    pub site_name: String,
    pub description: String,
    pub author: String,
    pub lang: String,
    /// The menu: a list of mappings, each a list of entries in file order.
    pub course: Option<Vec<Vec<MenuEntry>>>,
}

/// A course listed in a menu section.
#[derive(Debug, Clone)]
pub struct CourseInfo {
    pub title: String,
    pub slug: String,
}

/// An item of the global menu: a course, or a titled section of courses.
#[derive(Debug, Clone)]
pub enum GlobalSidebarItem {
    Course { title: String, slug: String },
    Section { title: String, courses: Vec<CourseInfo> },
}

// ---------------------------------------------------------------------------
// Views
// ---------------------------------------------------------------------------

pub struct MenuLinkView {
    pub title: Option<Seq<char>>,
    pub slug: Option<Seq<char>>,
}

pub enum MenuNodeView {
    Slug(Seq<char>),
    Group(Seq<Option<Seq<MenuLinkView>>>),
    Other,
}

pub struct MenuEntryView {
    pub title: Option<Seq<char>>,
    pub node: MenuNodeView,
}

pub struct CourseInfoView {
    pub title: Seq<char>,
    pub slug: Seq<char>,
}

pub enum SidebarItemView {
    Course { title: Seq<char>, slug: Seq<char> },
    Section { title: Seq<char>, courses: Seq<CourseInfoView> },
}

impl View for MenuLink {
    type V = MenuLinkView;

    open spec fn view(&self) -> MenuLinkView {
        MenuLinkView { title: opt_view(self.title), slug: opt_view(self.slug) }
    }
}

/// What a list of links holds.
pub open spec fn links_view(v: Seq<MenuLink>) -> Seq<MenuLinkView> {
    v.map_values(|l: MenuLink| l@)
}

/// What the items of a menu section hold.
pub open spec fn group_view(v: Seq<Option<Vec<MenuLink>>>) -> Seq<Option<Seq<MenuLinkView>>> {
    v.map_values(
        |o: Option<Vec<MenuLink>>|
            match o {
                Some(links) => Some(links_view(links@)),
                None => None,
            },
    )
}

impl View for MenuNode {
    type V = MenuNodeView;

    open spec fn view(&self) -> MenuNodeView {
        match self {
            MenuNode::Slug(s) => MenuNodeView::Slug(s@),
            MenuNode::Group(items) => MenuNodeView::Group(group_view(items@)),
            MenuNode::Other => MenuNodeView::Other,
        }
    }
}

impl View for MenuEntry {
    type V = MenuEntryView;

    open spec fn view(&self) -> MenuEntryView {
        MenuEntryView { title: opt_view(self.title), node: self.node@ }
    }
}

impl View for CourseInfo {
    type V = CourseInfoView;

    open spec fn view(&self) -> CourseInfoView {
        CourseInfoView { title: self.title@, slug: self.slug@ }
    }
}

impl View for GlobalSidebarItem {
    type V = SidebarItemView;

    open spec fn view(&self) -> SidebarItemView {
        match self {
            GlobalSidebarItem::Course { title, slug } => SidebarItemView::Course {
                title: title@,
                slug: slug@,
            },
            GlobalSidebarItem::Section { title, courses } => SidebarItemView::Section {
                title: title@,
                courses: courses@.map_values(|c: CourseInfo| c@),
            },
        }
    }
}

/// What the entries of one menu mapping hold.
pub open spec fn entries_view(v: Seq<MenuEntry>) -> Seq<MenuEntryView> {
    v.map_values(|e: MenuEntry| e@)
}

/// What the menu list of a configuration holds.
pub open spec fn menu_view(course: Option<Vec<Vec<MenuEntry>>>) -> Option<Seq<Seq<MenuEntryView>>> {
    match course {
        Some(maps) => Some(maps@.map_values(|m: Vec<MenuEntry>| entries_view(m@))),
        None => None,
    }
}

/// What a built menu holds.
pub open spec fn sidebar_view(v: Seq<GlobalSidebarItem>) -> Seq<SidebarItemView> {
    v.map_values(|i: GlobalSidebarItem| i@)
}

// ---------------------------------------------------------------------------
// Specification
// ---------------------------------------------------------------------------

/// A string key or value, or the empty string when it is not a string.
pub open spec fn text_or_empty(o: Option<Seq<char>>) -> Seq<char> {
    match o {
        Some(s) => s,
        None => Seq::empty(),
    }
}

/// The courses of one mapping inside a section, in order.
pub open spec fn link_courses(links: Seq<MenuLinkView>) -> Seq<CourseInfoView>
    decreases links.len(),
{
    if links.len() == 0 {
        Seq::empty()
    } else {
        link_courses(links.drop_last()).push(
            CourseInfoView {
                title: text_or_empty(links.last().title),
                slug: trim_char(text_or_empty(links.last().slug), '/'),
            },
        )
    }
}

/// The courses of a section: those of each mapping item, in order; other items add none.
pub open spec fn group_courses(items: Seq<Option<Seq<MenuLinkView>>>) -> Seq<CourseInfoView>
    decreases items.len(),
{
    if items.len() == 0 {
        Seq::empty()
    } else {
        group_courses(items.drop_last()) + match items.last() {
            Some(links) => link_courses(links),
            None => Seq::empty(),
        }
    }
}

/// The menu item of one entry: a course for a string value (slug without surrounding
/// `/`), a section for a list value, nothing otherwise.
pub open spec fn entry_item(e: MenuEntryView) -> Option<SidebarItemView> {
    match e.node {
        MenuNodeView::Slug(s) => Some(
            SidebarItemView::Course { title: text_or_empty(e.title), slug: trim_char(s, '/') },
        ),
        MenuNodeView::Group(items) => Some(
            SidebarItemView::Section { title: text_or_empty(e.title), courses: group_courses(items) },
        ),
        MenuNodeView::Other => None,
    }
}

/// The menu items of one mapping, in order.
pub open spec fn entries_items(entries: Seq<MenuEntryView>) -> Seq<SidebarItemView>
    decreases entries.len(),
{
    if entries.len() == 0 {
        Seq::empty()
    } else {
        entries_items(entries.drop_last()) + match entry_item(entries.last()) {
            Some(i) => seq![i],
            None => Seq::empty(),
        }
    }
}

/// The menu items of all mappings, in order.
pub open spec fn maps_items(maps: Seq<Seq<MenuEntryView>>) -> Seq<SidebarItemView>
    decreases maps.len(),
{
    if maps.len() == 0 {
        Seq::empty()
    } else {
        maps_items(maps.drop_last()) + entries_items(maps.last())
    }
}

/// The global menu of a configuration; empty when it has no menu list.
pub open spec fn sidebar_spec(course: Option<Seq<Seq<MenuEntryView>>>) -> Seq<SidebarItemView> {
    match course {
        Some(maps) => maps_items(maps),
        None => Seq::empty(),
    }
}

// ---------------------------------------------------------------------------
// Executable functions
// ---------------------------------------------------------------------------

/// The language used when the configuration names none.
pub fn default_lang() -> (r: String)
    ensures
        r@ == "en"@,
{
    "en".to_owned()
}

/// `s` without leading and trailing `/` (`str::trim_matches('/')`).
pub fn trim_slashes(s: &str) -> (r: String)
    ensures
        r@ == trim_char(s@, '/'),
{
    let c = chars_of(s);
    let mut a: usize = 0;
    let n = c.len();
    assert(c@.subrange(0, n as int) =~= c@);
    while a < n && c[a] == '/'
        invariant
            a <= n == c@.len(),
            trim_char_start(c@, '/') == trim_char_start(c@.subrange(a as int, n as int), '/'),
        decreases n - a,
    {
        assert(c@.subrange(a as int, n as int).drop_first() =~= c@.subrange(a + 1, n as int));
        a += 1;
    }
    let mut b: usize = n;
    while b > a && c[b - 1] == '/'
        invariant
            a <= b <= n == c@.len(),
            trim_char(c@, '/') == trim_char_end(c@.subrange(a as int, b as int), '/'),
        decreases b - a,
    {
        assert(c@.subrange(a as int, b as int).drop_last() =~= c@.subrange(a as int, b - 1));
        b -= 1;
    }
    string_of(c.as_slice(), a, b)
}

/// A string key or value, or the empty string.
fn text_or_empty_exec(o: &Option<String>) -> (r: String)
    ensures
        r@ == text_or_empty(opt_view(*o)),
{
    match o {
        Some(s) => s.clone(),
        None => String::new(),
    }
}

/// The courses of the items of a menu section.
fn section_courses(items: &Vec<Option<Vec<MenuLink>>>) -> (r: Vec<CourseInfo>)
    ensures
        r@.map_values(|c: CourseInfo| c@) == group_courses(group_view(items@)),
{
    let mut r: Vec<CourseInfo> = Vec::new();
    let mut i: usize = 0;
    while i < items.len()
        invariant
            i <= items@.len(),
            r@.map_values(|c: CourseInfo| c@) == group_courses(group_view(items@.take(i as int))),
        decreases items.len() - i,
    {
        let ghost before = r@.map_values(|c: CourseInfo| c@);
        assert(group_view(items@.take(i + 1)).drop_last() =~= group_view(items@.take(i as int)));
        match &items[i] {
            Some(links) => {
                let mut j: usize = 0;
                assert(links_view(links@.take(0)) =~= Seq::<MenuLinkView>::empty());
                while j < links.len()
                    invariant
                        j <= links@.len(),
                        r@.map_values(|c: CourseInfo| c@) == before + link_courses(
                            links_view(links@.take(j as int)),
                        ),
                    decreases links.len() - j,
                {
                    let title = text_or_empty_exec(&links[j].title);
                    let raw = text_or_empty_exec(&links[j].slug);
                    let slug = trim_slashes(raw.as_str());
                    let ghost prev = r@;
                    r.push(CourseInfo { title, slug });
                    assert(links_view(links@.take(j + 1)).drop_last() =~= links_view(
                        links@.take(j as int),
                    ));
                    assert(r@.map_values(|c: CourseInfo| c@) =~= prev.map_values(
                        |c: CourseInfo| c@,
                    ).push(r@.last()@));
                    j += 1;
                }
                assert(links@.take(j as int) =~= links@);
            },
            None => {
                assert(r@.map_values(|c: CourseInfo| c@) =~= before + Seq::<CourseInfoView>::empty());
            },
        }
        i += 1;
    }
    assert(items@.take(i as int) =~= items@);
    r
}

impl SiteConfig {
    /// The global menu: for each mapping of the `course` list, in order, each entry with
    /// a string value becomes a course (slug without surrounding `/`), each entry with a
    /// list value becomes a section of the courses in that list; keys that are not
    /// strings give empty titles.
    pub fn get_sidebar_menu(&self) -> (r: Vec<GlobalSidebarItem>)
        ensures
            sidebar_view(r@) == sidebar_spec(menu_view(self.course)),
    {
        let mut menu: Vec<GlobalSidebarItem> = Vec::new();
        match &self.course {
            Some(maps) => {
                let mut i: usize = 0;
                while i < maps.len()
                    invariant
                        i <= maps@.len(),
                        sidebar_view(menu@) == maps_items(
                            maps@.take(i as int).map_values(|m: Vec<MenuEntry>| entries_view(m@)),
                        ),
                    decreases maps.len() - i,
                {
                    let entries = &maps[i];
                    let ghost before = sidebar_view(menu@);
                    let mut j: usize = 0;
                    while j < entries.len()
                        invariant
                            j <= entries@.len(),
                            sidebar_view(menu@) == before + entries_items(
                                entries_view(entries@.take(j as int)),
                            ),
                        decreases entries.len() - j,
                    {
                        let entry = &entries[j];
                        let ghost prev = menu@;
                        assert(entries_view(entries@.take(j + 1)).drop_last() =~= entries_view(
                            entries@.take(j as int),
                        ));
                        match &entry.node {
                            MenuNode::Slug(s) => {
                                let title = text_or_empty_exec(&entry.title);
                                let slug = trim_slashes(s.as_str());
                                menu.push(GlobalSidebarItem::Course { title, slug });
                                assert(sidebar_view(menu@) =~= sidebar_view(prev).push(
                                    menu@.last()@,
                                ));
                            },
                            MenuNode::Group(items) => {
                                let title = text_or_empty_exec(&entry.title);
                                let courses = section_courses(items);
                                menu.push(GlobalSidebarItem::Section { title, courses });
                                assert(sidebar_view(menu@) =~= sidebar_view(prev).push(
                                    menu@.last()@,
                                ));
                            },
                            MenuNode::Other => {
                                assert(sidebar_view(menu@) =~= sidebar_view(prev) + Seq::<SidebarItemView>::empty());
                            },
                        }
                        j += 1;
                    }
                    assert(entries@.take(j as int) =~= entries@);
                    assert(maps@.take(i + 1).map_values(|m: Vec<MenuEntry>| entries_view(m@)).drop_last()
                        =~= maps@.take(i as int).map_values(|m: Vec<MenuEntry>| entries_view(m@)));
                    i += 1;
                }
                assert(maps@.take(i as int) =~= maps@);
            },
            None => {},
        }
        menu
    }
}


// ---------------------------------------------------------------------------
// Laws
// ---------------------------------------------------------------------------

/// A slug that neither begins nor ends with `/`.
pub open spec fn slug_clean(s: Seq<char>) -> bool {
    s.len() > 0 ==> s[0] != '/' && s.last() != '/'
}

/// All courses have clean slugs.
pub open spec fn courses_clean(v: Seq<CourseInfoView>) -> bool {
    forall|j: int| 0 <= j < v.len() ==> slug_clean(#[trigger] v[j].slug)
}

/// A menu item whose slugs are all clean.
pub open spec fn item_clean(i: SidebarItemView) -> bool {
    match i {
        SidebarItemView::Course { slug, .. } => slug_clean(slug),
        SidebarItemView::Section { courses, .. } => courses_clean(courses),
    }
}

/// Menu items whose slugs are all clean.
pub open spec fn items_clean(v: Seq<SidebarItemView>) -> bool {
    forall|j: int| 0 <= j < v.len() ==> item_clean(#[trigger] v[j])
}

proof fn lemma_link_courses_clean(links: Seq<MenuLinkView>)
    ensures
        courses_clean(link_courses(links)),
    decreases links.len(),
{
    if links.len() > 0 {
        lemma_link_courses_clean(links.drop_last());
        lemma_trim_char_clean(text_or_empty(links.last().slug), '/');
    }
}

proof fn lemma_group_courses_clean(items: Seq<Option<Seq<MenuLinkView>>>)
    ensures
        courses_clean(group_courses(items)),
    decreases items.len(),
{
    if items.len() > 0 {
        lemma_group_courses_clean(items.drop_last());
        let a = group_courses(items.drop_last());
        let b: Seq<CourseInfoView> = match items.last() {
            Some(links) => link_courses(links),
            None => Seq::empty(),
        };
        match items.last() {
            Some(links) => lemma_link_courses_clean(links),
            None => {},
        }
        assert forall|j: int| 0 <= j < (a + b).len() implies slug_clean(#[trigger] (a + b)[j].slug) by {
            if j < a.len() {
                assert((a + b)[j] == a[j]);
            } else {
                assert((a + b)[j] == b[j - a.len()]);
            }
        }
    }
}

proof fn lemma_entries_items_clean(entries: Seq<MenuEntryView>)
    ensures
        items_clean(entries_items(entries)),
    decreases entries.len(),
{
    if entries.len() > 0 {
        lemma_entries_items_clean(entries.drop_last());
        let e = entries.last();
        match e.node {
            MenuNodeView::Slug(s) => lemma_trim_char_clean(s, '/'),
            MenuNodeView::Group(items) => lemma_group_courses_clean(items),
            MenuNodeView::Other => {},
        }
        let a = entries_items(entries.drop_last());
        let b: Seq<SidebarItemView> = match entry_item(e) {
            Some(i) => seq![i],
            None => Seq::empty(),
        };
        assert forall|j: int| 0 <= j < (a + b).len() implies item_clean(#[trigger] (a + b)[j]) by {
            if j < a.len() {
                assert((a + b)[j] == a[j]);
            } else {
                assert((a + b)[j] == b[j - a.len()]);
            }
        }
    }
}

proof fn lemma_maps_items_clean(maps: Seq<Seq<MenuEntryView>>)
    ensures
        items_clean(maps_items(maps)),
    decreases maps.len(),
{
    if maps.len() > 0 {
        lemma_maps_items_clean(maps.drop_last());
        lemma_entries_items_clean(maps.last());
        let a = maps_items(maps.drop_last());
        let b = entries_items(maps.last());
        assert forall|j: int| 0 <= j < (a + b).len() implies item_clean(#[trigger] (a + b)[j]) by {
            if j < a.len() {
                assert((a + b)[j] == a[j]);
            } else {
                assert((a + b)[j] == b[j - a.len()]);
            }
        }
    }
}

/// The entries of one mapping whose value is a string or a list, in order.
pub open spec fn listed_entries(entries: Seq<MenuEntryView>) -> Seq<MenuEntryView>
    decreases entries.len(),
{
    if entries.len() == 0 {
        Seq::empty()
    } else {
        listed_entries(entries.drop_last()) + if entries.last().node is Other {
            Seq::<MenuEntryView>::empty()
        } else {
            seq![entries.last()]
        }
    }
}

/// The entries of all mappings whose value is a string or a list, in order.
pub open spec fn listed_in_maps(maps: Seq<Seq<MenuEntryView>>) -> Seq<MenuEntryView>
    decreases maps.len(),
{
    if maps.len() == 0 {
        Seq::empty()
    } else {
        listed_in_maps(maps.drop_last()) + listed_entries(maps.last())
    }
}

/// The pairs of all mappings of a menu section, in order; items that are not mappings
/// hold none.
pub open spec fn section_links(items: Seq<Option<Seq<MenuLinkView>>>) -> Seq<MenuLinkView>
    decreases items.len(),
{
    if items.len() == 0 {
        Seq::empty()
    } else {
        section_links(items.drop_last()) + match items.last() {
            Some(links) => links,
            None => Seq::empty(),
        }
    }
}

/// The title of a menu item.
pub open spec fn item_title(it: SidebarItemView) -> Seq<char> {
    match it {
        SidebarItemView::Course { title, .. } => title,
        SidebarItemView::Section { title, .. } => title,
    }
}

/// A course read from a pair `title: slug`: the key as title, the value without
/// surrounding `/` as slug.
pub open spec fn course_follows(link: MenuLinkView, c: CourseInfoView) -> bool {
    c.title == text_or_empty(link.title) && c.slug == trim_char(text_or_empty(link.slug), '/')
}

/// A menu item read from an entry: titled by the entry's key; a course with the value
/// without surrounding `/` for a string value, a section holding one course per pair of
/// the listed mappings for a list value.
pub open spec fn item_follows(e: MenuEntryView, it: SidebarItemView) -> bool {
    &&& item_title(it) == text_or_empty(e.title)
    &&& match e.node {
        MenuNodeView::Slug(s) => it is Course && it->Course_slug == trim_char(s, '/'),
        MenuNodeView::Group(items) => it is Section && it->Section_courses.len() == section_links(
            items,
        ).len() && forall|k: int|
            0 <= k < it->Section_courses.len() ==> course_follows(
                #[trigger] section_links(items)[k],
                it->Section_courses[k],
            ),
        MenuNodeView::Other => false,
    }
}

proof fn lemma_link_courses_follow(links: Seq<MenuLinkView>)
    ensures
        link_courses(links).len() == links.len(),
        forall|k: int|
            0 <= k < links.len() ==> course_follows(#[trigger] links[k], link_courses(links)[k]),
    decreases links.len(),
{
    if links.len() > 0 {
        lemma_link_courses_follow(links.drop_last());
        assert forall|k: int| 0 <= k < links.len() implies course_follows(
            #[trigger] links[k],
            link_courses(links)[k],
        ) by {
            if k < links.len() - 1 {
                assert(links[k] == links.drop_last()[k]);
            }
        }
    }
}

proof fn lemma_group_courses_follow(items: Seq<Option<Seq<MenuLinkView>>>)
    ensures
        group_courses(items).len() == section_links(items).len(),
        forall|k: int|
            0 <= k < section_links(items).len() ==> course_follows(
                #[trigger] section_links(items)[k],
                group_courses(items)[k],
            ),
    decreases items.len(),
{
    if items.len() > 0 {
        lemma_group_courses_follow(items.drop_last());
        let a = group_courses(items.drop_last());
        let la = section_links(items.drop_last());
        let lb: Seq<MenuLinkView> = match items.last() {
            Some(links) => links,
            None => Seq::empty(),
        };
        let b: Seq<CourseInfoView> = match items.last() {
            Some(links) => link_courses(links),
            None => Seq::empty(),
        };
        lemma_link_courses_follow(lb);
        assert(b =~= link_courses(lb)) by {
            match items.last() {
                Some(links) => {},
                None => {
                    assert(link_courses(lb) =~= Seq::<CourseInfoView>::empty());
                },
            }
        }
        assert forall|k: int| 0 <= k < (la + lb).len() implies course_follows(
            #[trigger] (la + lb)[k],
            (a + b)[k],
        ) by {
            if k < la.len() {
                assert((la + lb)[k] == la[k]);
                assert((a + b)[k] == a[k]);
            } else {
                assert((la + lb)[k] == lb[k - la.len()]);
                assert((a + b)[k] == b[k - a.len()]);
            }
        }
    }
}

proof fn lemma_entries_items_follow(entries: Seq<MenuEntryView>)
    ensures
        entries_items(entries).len() == listed_entries(entries).len(),
        forall|k: int|
            0 <= k < entries_items(entries).len() ==> item_follows(
                #[trigger] listed_entries(entries)[k],
                entries_items(entries)[k],
            ),
    decreases entries.len(),
{
    if entries.len() > 0 {
        lemma_entries_items_follow(entries.drop_last());
        let e = entries.last();
        let a = entries_items(entries.drop_last());
        let la = listed_entries(entries.drop_last());
        let b: Seq<SidebarItemView> = match entry_item(e) {
            Some(i) => seq![i],
            None => Seq::empty(),
        };
        let lb: Seq<MenuEntryView> = if e.node is Other {
            Seq::empty()
        } else {
            seq![e]
        };
        match e.node {
            MenuNodeView::Group(items) => lemma_group_courses_follow(items),
            _ => {},
        }
        assert(b.len() == lb.len());
        if b.len() > 0 {
            assert(item_follows(lb[0], b[0]));
        }
        assert forall|k: int| 0 <= k < (a + b).len() implies item_follows(
            #[trigger] (la + lb)[k],
            (a + b)[k],
        ) by {
            if k < a.len() {
                assert((la + lb)[k] == la[k]);
                assert((a + b)[k] == a[k]);
            } else {
                assert((la + lb)[k] == lb[k - la.len()]);
                assert((a + b)[k] == b[k - a.len()]);
            }
        }
    }
}

proof fn lemma_maps_items_follow(maps: Seq<Seq<MenuEntryView>>)
    ensures
        maps_items(maps).len() == listed_in_maps(maps).len(),
        forall|k: int|
            0 <= k < maps_items(maps).len() ==> item_follows(
                #[trigger] listed_in_maps(maps)[k],
                maps_items(maps)[k],
            ),
    decreases maps.len(),
{
    if maps.len() > 0 {
        lemma_maps_items_follow(maps.drop_last());
        lemma_entries_items_follow(maps.last());
        let a = maps_items(maps.drop_last());
        let la = listed_in_maps(maps.drop_last());
        let b = entries_items(maps.last());
        let lb = listed_entries(maps.last());
        assert forall|k: int| 0 <= k < (a + b).len() implies item_follows(
            #[trigger] (la + lb)[k],
            (a + b)[k],
        ) by {
            if k < a.len() {
                assert((la + lb)[k] == la[k]);
                assert((a + b)[k] == a[k]);
            } else {
                assert((la + lb)[k] == lb[k - la.len()]);
                assert((a + b)[k] == b[k - a.len()]);
            }
        }
    }
}

/// Law: the global menu has exactly one item per menu entry whose value is a string or
/// a list, in the order of the mappings and of their entries; each item is titled by its
/// entry's key; a string value gives a course whose slug is the value without
/// surrounding `/`; a list value gives a section with one course per pair of the
/// mappings in the list, in order, each titled by its key with its value without
/// surrounding `/` as slug. A configuration without menu list has an empty menu.
pub proof fn law_menu_follows_entries(course: Option<Seq<Seq<MenuEntryView>>>)
    ensures
        course is None ==> sidebar_spec(course).len() == 0,
        course matches Some(maps) ==> {
            &&& sidebar_spec(course).len() == listed_in_maps(maps).len()
            &&& forall|k: int|
                0 <= k < sidebar_spec(course).len() ==> item_follows(
                    #[trigger] listed_in_maps(maps)[k],
                    sidebar_spec(course)[k],
                )
        },
{
    match course {
        Some(maps) => lemma_maps_items_follow(maps),
        None => {},
    }
}

/// Law: trimming slashes removes exactly the `/` at both ends of a text and nothing
/// else: the result is the piece `s[a..b]`, every character before `a` and from `b` on
/// is `/`, and the piece neither begins nor ends with `/`.
pub proof fn law_trim_slashes_exact(s: Seq<char>) -> (ab: (int, int))
    ensures
        0 <= ab.0 <= ab.1 <= s.len(),
        trim_char(s, '/') == s.subrange(ab.0, ab.1),
        forall|j: int| 0 <= j < ab.0 ==> s[j] == '/',
        forall|j: int| ab.1 <= j < s.len() ==> s[j] == '/',
        slug_clean(trim_char(s, '/')),
{
    let a = lemma_trim_char_start(s, '/');
    let t = s.skip(a);
    let b = lemma_trim_char_end(t, '/');
    assert(t.take(b) =~= s.subrange(a, a + b));
    assert forall|j: int| a + b <= j < s.len() implies s[j] == '/' by {
        assert(s[j] == t[j - a]);
    }
    lemma_trim_char_clean(s, '/');
    (a, a + b)
}

/// Law: no slug in the global menu begins or ends with `/`.
pub proof fn law_menu_slugs_clean(course: Option<Seq<Seq<MenuEntryView>>>)
    ensures
        items_clean(sidebar_spec(course)),
{
    match course {
        Some(maps) => lemma_maps_items_clean(maps),
        None => {},
    }
}

} // verus!
