//! Lesson pages: the front matter between `---` fences, the page name of a lesson file,
//! the Markdown body rendered to HTML, and the assembled lesson and course records.

use vstd::prelude::*;
use crate::text::{
    chars_of, find, find_exec, lemma_find, lemma_find_is, lemma_occurs_in_prefix,
    lemma_occurs_in_suffix, occurs_at, replace_all, replace_all_exec, starts_with,
    starts_with_exec, string_of,
};
use crate::youtube::{embed_html, embed_url_of, get_embed_html, opt_view};
use crate::summary::{
    CourseSection, law_summary_sections_shape, lessons_named_after_files, parse_summary_spec,
};

verus! {

broadcast use vstd::string::group_string_axioms;

// ---------------------------------------------------------------------------
// Data
// ---------------------------------------------------------------------------

/// A lesson after its file has been read.
#[derive(Debug, Clone)]
pub struct Lesson {
    /// Title from the front matter.
    pub title: String,
    /// Description from the front matter; empty when absent.
    pub description: String,
    /// The YouTube link as written in the front matter.
    pub youtube_url: Option<String>,
    /// The embedded player for that link, when it names a video.
    pub youtube_html: Option<String>,
    /// The Markdown body rendered to HTML.
    pub content_html: Option<String>,
    /// Name of the page the lesson becomes (for example `lesson1.html`).
    pub file_name: String,
}

/// A course: a directory of lessons with its table of contents.
#[derive(Debug, Clone)]
pub struct Course {
    pub name: String,
    pub slug: String,
    pub summary: Vec<CourseSection>,
    pub lessons: Vec<Lesson>,
}

/// Why a lesson file's front matter could not be separated from its body.
#[derive(Debug, Clone, Copy, PartialEq, Eq)]
pub enum FrontmatterError {
    /// The file does not begin with `---`.
    MissingOpening,
    /// No second `---` closes the front matter.
    Unclosed,
}

/// What a [`Lesson`] holds.
pub struct LessonView {
    pub title: Seq<char>,
    pub description: Seq<char>,
    pub youtube_url: Option<Seq<char>>,
    pub youtube_html: Option<Seq<char>>,
    pub content_html: Option<Seq<char>>,
    pub file_name: Seq<char>,
}

impl View for Lesson {
    type V = LessonView;

    open spec fn view(&self) -> LessonView {
        LessonView {
            title: self.title@,
            description: self.description@,
            youtube_url: opt_view(self.youtube_url),
            youtube_html: opt_view(self.youtube_html),
            content_html: opt_view(self.content_html),
            file_name: self.file_name@,
        }
    }
}

// ---------------------------------------------------------------------------
// Specifications
// ---------------------------------------------------------------------------

/// Front matter and body of a lesson file: the file must begin with `---`; the front
/// matter runs to the next `---` and the body is everything after that.
pub open spec fn split_frontmatter_spec(content: Seq<char>) -> Result<
    (Seq<char>, Seq<char>),
    FrontmatterError,
> {
    if !starts_with(content, "---"@) {
        Err(FrontmatterError::MissingOpening)
    } else {
        match find(content.skip(3), "---"@) {
            Some(k) => Ok((content.subrange(3, 3 + k), content.skip(3 + k + 3))),
            None => Err(FrontmatterError::Unclosed),
        }
    }
}

/// The page name of a lesson file: its name with `.md` replaced by `.html`, or
/// `lesson.html` when the path has no usable file name.
pub open spec fn lesson_page_name_spec(file_name: Option<Seq<char>>) -> Seq<char> {
    match file_name {
        Some(n) => replace_all(n, ".md"@, ".html"@),
        None => "lesson.html"@,
    }
}

/// The HTML that the Markdown renderer produces for a document.
pub uninterp spec fn markdown_html(markdown: Seq<char>) -> Seq<char>;

/// The player markup for an optional link.
pub open spec fn youtube_html_of(url: Option<Seq<char>>) -> Option<Seq<char>> {
    match url {
        Some(u) => match embed_url_of(u) {
            Some(e) => Some(embed_html(e)),
            None => None,
        },
        None => None,
    }
}

/// The lesson record built from front matter fields, the rendered body and a page name.
pub open spec fn lesson_spec(
    title: Seq<char>,
    description: Option<Seq<char>>,
    youtube: Option<Seq<char>>,
    content_html: Seq<char>,
    file_name: Seq<char>,
) -> LessonView {
    LessonView {
        title: title,
        description: match description {
            Some(d) => d,
            None => Seq::empty(),
        },
        youtube_url: youtube,
        youtube_html: youtube_html_of(youtube),
        content_html: Some(content_html),
        file_name: file_name,
    }
}

// ---------------------------------------------------------------------------
// Trusted rendering
// ---------------------------------------------------------------------------

/// `pulldown_cmark::html::push_html` over `pulldown_cmark::Parser::new(markdown)`:
/// renders CommonMark (no extensions) to HTML.
/// Claimed: the result depends on the text alone and is named `markdown_html`.
#[verifier::external_body]
fn render_markdown(markdown: &str) -> (r: String)
    ensures
        r@ == markdown_html(markdown@),
{
    let mut out = String::new();
    pulldown_cmark::html::push_html(&mut out, pulldown_cmark::Parser::new(markdown));
    out
}

// ---------------------------------------------------------------------------
// Executable functions
// ---------------------------------------------------------------------------

/// Separates the front matter (between the leading `---` and the next `---`) from the
/// Markdown body after it.
pub fn split_frontmatter(content: &str) -> (r: Result<(String, String), FrontmatterError>)
    ensures
        match r {
            Ok((fm, body)) => split_frontmatter_spec(content@) == Ok::<
                (Seq<char>, Seq<char>),
                FrontmatterError,
            >((fm@, body@)),
            Err(e) => split_frontmatter_spec(content@) == Err::<
                (Seq<char>, Seq<char>),
                FrontmatterError,
            >(e),
        },
{
    let c = chars_of(content);
    let fence = chars_of("---");
    proof {
        reveal_strlit("---");
    }
    if !starts_with_exec(c.as_slice(), fence.as_slice()) {
        return Err(FrontmatterError::MissingOpening);
    }
    let rest = &c[3..c.len()];
    assert(rest@ =~= c@.skip(3));
    match find_exec(rest, fence.as_slice()) {
        Some(k) => {
            proof {
                lemma_find(rest@, fence@);
            }
            let fm = string_of(c.as_slice(), 3, 3 + k);
            let body = string_of(c.as_slice(), 3 + k + 3, c.len());
            assert(body@ =~= c@.skip(3 + k + 3));
            Ok((fm, body))
        },
        None => Err(FrontmatterError::Unclosed),
    }
}

/// The page name of a lesson file (`lesson1.md` becomes `lesson1.html`); `lesson.html`
/// when the path has no usable file name.
pub fn lesson_page_name(file_name: Option<&str>) -> (r: String)
    ensures
        r@ == lesson_page_name_spec(
            match file_name {
                Some(n) => Some(n@),
                None => None,
            },
        ),
{
    match file_name {
        Some(n) => {
            let cs = chars_of(n);
            let md = chars_of(".md");
            replace_all_exec(cs.as_slice(), md.as_slice(), ".html")
        },
        None => "lesson.html".to_owned(),
    }
}

/// Assembles a lesson from its front matter fields, its rendered body and its page
/// name; the player markup is derived from the YouTube link.
pub fn build_lesson(
    title: String,
    description: Option<String>,
    youtube: Option<String>,
    content_html: String,
    file_name: String,
) -> (r: Lesson)
    ensures
        r@ == lesson_spec(title@, opt_view(description), opt_view(youtube), content_html@, file_name@),
        r.title@ == title@,
        r.description@ == match description {
            Some(d) => d@,
            None => Seq::<char>::empty(),
        },
        opt_view(r.youtube_url) == opt_view(youtube),
        opt_view(r.youtube_html) == youtube_html_of(opt_view(youtube)),
        opt_view(r.content_html) == Some(content_html@),
        r.file_name@ == file_name@,
{
    let youtube_html = match &youtube {
        Some(u) => get_embed_html(u.as_str()),
        None => None,
    };
    let description = match description {
        Some(d) => d,
        None => String::new(),
    };
    Lesson {
        title,
        description,
        youtube_url: youtube,
        youtube_html,
        content_html: Some(content_html),
        file_name,
    }
}

/// Builds a lesson from its front matter fields and Markdown body: the body is
/// rendered to HTML.
pub fn lesson_from_parts(
    title: String,
    description: Option<String>,
    youtube: Option<String>,
    body: &str,
    file_name: String,
) -> (r: Lesson)
    ensures
        r@ == lesson_spec(
            title@,
            opt_view(description),
            opt_view(youtube),
            markdown_html(body@),
            file_name@,
        ),
        r.title@ == title@,
        r.description@ == match description {
            Some(d) => d@,
            None => Seq::<char>::empty(),
        },
        opt_view(r.youtube_url) == opt_view(youtube),
        opt_view(r.youtube_html) == youtube_html_of(opt_view(youtube)),
        opt_view(r.content_html) == Some(markdown_html(body@)),
        r.file_name@ == file_name@,
{
    let html = render_markdown(body);
    build_lesson(title, description, youtube, html, file_name)
}

/// A course named after its directory.
pub fn new_course(slug: String, summary: Vec<CourseSection>, lessons: Vec<Lesson>) -> (r: Course)
    ensures
        r.name@ == slug@,
        r.slug@ == slug@,
        r.summary@ == summary@,
        r.lessons@ == lessons@,
{
    Course { name: slug.clone(), slug, summary, lessons }
}


// ---------------------------------------------------------------------------
// Laws
// ---------------------------------------------------------------------------

/// A text holds no `---`.
pub open spec fn no_fence(s: Seq<char>) -> bool {
    find(s, "---"@) is None
}

/// A text without `-` holds no `---`.
pub proof fn lemma_no_dash_no_fence(s: Seq<char>)
    requires
        forall|j: int| 0 <= j < s.len() ==> s[j] != '-',
    ensures
        no_fence(s),
{
    reveal_strlit("---");
    lemma_find(s, "---"@);
    if find(s, "---"@) is Some {
        let k = find(s, "---"@)->Some_0;
        assert(s.subrange(k, k + 3)[0] == '-');
    }
}

/// Joining two texts without `---` makes a `---` only where both meet with a `-`.
pub proof fn lemma_no_fence_concat(a: Seq<char>, b: Seq<char>)
    requires
        no_fence(a),
        no_fence(b),
        !(a.len() > 0 && b.len() > 0 && a.last() == '-' && b[0] == '-'),
    ensures
        no_fence(a + b),
{
    reveal_strlit("---");
    let d = "---"@;
    lemma_find(a, d);
    lemma_find(b, d);
    lemma_find(a + b, d);
    assert forall|j: int| !#[trigger] occurs_at(a + b, d, j) by {
        if occurs_at(a + b, d, j) {
            if j + 3 <= a.len() {
                lemma_occurs_in_prefix(a, b, d, j);
            } else if j >= a.len() {
                lemma_occurs_in_suffix(a, b, d, j);
            } else {
                assert((a + b).subrange(j, j + 3)[a.len() - 1 - j] == '-');
                assert((a + b).subrange(j, j + 3)[a.len() - j] == '-');
                assert((a + b)[a.len() - 1] == a.last());
                assert((a + b)[a.len() as int] == b[0]);
            }
        }
    }
}

/// Law: front matter written between `---` fences is read back unchanged, with the
/// body after the closing fence, whenever it holds no `---` and does not end in `-`.
pub proof fn law_frontmatter_roundtrip(fm: Seq<char>, body: Seq<char>)
    requires
        no_fence(fm),
        !(fm.len() > 0 && fm.last() == '-'),
    ensures
        split_frontmatter_spec("---"@ + fm + "---"@ + body) == Ok::<
            (Seq<char>, Seq<char>),
            FrontmatterError,
        >((fm, body)),
{
    reveal_strlit("---");
    let d = "---"@;
    let c = d + fm + d + body;
    assert(c.take(3) =~= d);
    let s = c.skip(3);
    assert(s =~= fm + (d + body));
    assert(s.subrange(fm.len() as int, fm.len() + 3int) =~= d);
    lemma_find(fm, d);
    assert forall|j: int| 0 <= j < fm.len() implies !#[trigger] occurs_at(s, d, j) by {
        if occurs_at(s, d, j) {
            if j + 3 <= fm.len() {
                lemma_occurs_in_prefix(fm, d + body, d, j);
            } else {
                assert(s.subrange(j, j + 3)[fm.len() - 1 - j] == '-');
                assert(s[fm.len() - 1] == fm.last());
            }
        }
    }
    lemma_find_is(s, d, fm.len() as int);
    assert(c.subrange(3, 3 + fm.len() as int) =~= fm);
    assert(c.skip(3 + fm.len() as int + 3) =~= body);
}


/// Law: a lesson file named `n.md`, where `n` holds no `.`, becomes the page `n.html`.
pub proof fn law_page_name_of_markdown_file(n: Seq<char>)
    requires
        forall|j: int| 0 <= j < n.len() ==> n[j] != '.',
    ensures
        lesson_page_name_spec(Some(n + ".md"@)) == n + ".html"@,
    decreases n.len(),
{
    reveal_strlit(".md");
    reveal_strlit(".html");
    let md = ".md"@;
    let html = ".html"@;
    let s = n + md;
    if n.len() == 0 {
        assert(s =~= md);
        assert(s.take(3) =~= md);
        assert(s.skip(3) =~= Seq::<char>::empty());
        assert(replace_all(s, md, html) == html + replace_all(Seq::<char>::empty(), md, html));
        assert(n + html =~= html);
    } else {
        let m = n.drop_first();
        assert forall|j: int| 0 <= j < m.len() implies m[j] != '.' by {
            assert(m[j] == n[j + 1]);
        }
        law_page_name_of_markdown_file(m);
        assert(s[0] == n[0]);
        assert(!starts_with(s, md)) by {
            if starts_with(s, md) {
                assert(s.take(3)[0] == md[0]);
            }
        }
        assert(s.drop_first() =~= m + md);
        assert(seq![n[0]] + (m + html) =~= n + html);
    }
}

/// Law: a lesson record keeps the front matter it was built from character for
/// character: its title is the title given, its description the one given (empty when
/// absent), its YouTube link the one given, its page name the one given, and its
/// rendered body the HTML given.
pub proof fn law_lesson_keeps_front_matter(
    title: Seq<char>,
    description: Option<Seq<char>>,
    youtube: Option<Seq<char>>,
    content_html: Seq<char>,
    file_name: Seq<char>,
)
    ensures
        lesson_spec(title, description, youtube, content_html, file_name).title == title,
        lesson_spec(title, description, youtube, content_html, file_name).description == match description {
            Some(d) => d,
            None => Seq::<char>::empty(),
        },
        lesson_spec(title, description, youtube, content_html, file_name).youtube_url == youtube,
        lesson_spec(title, description, youtube, content_html, file_name).content_html == Some(
            content_html,
        ),
        lesson_spec(title, description, youtube, content_html, file_name).file_name == file_name,
        youtube is None ==> lesson_spec(
            title,
            description,
            youtube,
            content_html,
            file_name,
        ).youtube_html is None,
{
}

/// Law: the page that a table of contents links each lesson to is the page name that
/// the lesson's file receives when it is read, so menus and lesson pages agree.
pub proof fn law_summary_urls_are_page_names(content: Seq<char>)
    ensures
        forall|i: int, j: int|
            0 <= i < parse_summary_spec(content).len() && 0 <= j < parse_summary_spec(
                content,
            )[i].lessons.len() ==> lesson_page_name_spec(
                Some(#[trigger] parse_summary_spec(content)[i].lessons[j].file),
            ) == parse_summary_spec(content)[i].lessons[j].url,
{
    law_summary_sections_shape(content);
    assert forall|i: int, j: int|
        0 <= i < parse_summary_spec(content).len() && 0 <= j < parse_summary_spec(
            content,
        )[i].lessons.len() implies lesson_page_name_spec(
        Some(#[trigger] parse_summary_spec(content)[i].lessons[j].file),
    ) == parse_summary_spec(content)[i].lessons[j].url by {
        assert(lessons_named_after_files(parse_summary_spec(content)[i]));
    }
}

} // verus!
