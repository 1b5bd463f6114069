//! Lesson stubs generated from a table of contents: one Markdown file per lesson link,
//! with front matter holding its title and, optionally, one YouTube link per lesson.

use vstd::prelude::*;
use vstd::string::StringExecFns;
use crate::text::{chars_of, line_ranges, split_lines, starts_with, string_of, trim, trim_bounds};
use crate::summary::{
    LessonItemView, SectionView, all_lessons, keep_section, link_item, link_item_exec,
    link_line_ok, parse_summary_spec, summary_apply, summary_fold, summary_links_well_formed,
};
use crate::lesson::{
    FrontmatterError, lemma_no_dash_no_fence, lemma_no_fence_concat, law_frontmatter_roundtrip,
    no_fence, split_frontmatter_spec,
};

verus! {

broadcast use vstd::string::group_string_axioms;

// ---------------------------------------------------------------------------
// Data
// ---------------------------------------------------------------------------

/// A lesson link of a table of contents: its text and its file.
#[derive(Debug, Clone)]
pub struct LessonLink {
    pub title: String,
    pub file: String,
}

/// A lesson file to create: its name and its contents.
#[derive(Debug, Clone)]
pub struct LessonStub {
    pub file: String,
    pub content: String,
}

/// Why no lesson files can be generated.
#[derive(Debug, Clone, Copy, PartialEq, Eq)]
pub enum GenerateError {
    /// The table of contents holds no lesson link.
    EmptySummary,
    /// The number of YouTube links differs from the number of lessons.
    CountMismatch { lessons: usize, videos: usize },
}

pub struct LessonLinkView {
    pub title: Seq<char>,
    pub file: Seq<char>,
}

pub struct LessonStubView {
    pub file: Seq<char>,
    pub content: Seq<char>,
}

impl View for LessonLink {
    type V = LessonLinkView;

    open spec fn view(&self) -> LessonLinkView {
        LessonLinkView { title: self.title@, file: self.file@ }
    }
}

impl View for LessonStub {
    type V = LessonStubView;

    open spec fn view(&self) -> LessonStubView {
        LessonStubView { file: self.file@, content: self.content@ }
    }
}

/// What a list of links holds.
pub open spec fn links_view(v: Seq<LessonLink>) -> Seq<LessonLinkView> {
    v.map_values(|l: LessonLink| l@)
}

/// What an optional list of YouTube links holds.
pub open spec fn videos_view(o: Option<Vec<String>>) -> Option<Seq<Seq<char>>> {
    match o {
        Some(v) => Some(v@.map_values(|s: String| s@)),
        None => None,
    }
}

/// What a list of stubs holds.
pub open spec fn stubs_view(v: Seq<LessonStub>) -> Seq<LessonStubView> {
    v.map_values(|s: LessonStub| s@)
}

// ---------------------------------------------------------------------------
// Specification
// ---------------------------------------------------------------------------

/// The lesson links of the given lines, in order (each line trimmed first).
pub open spec fn links_of(lines: Seq<Seq<char>>) -> Seq<LessonLinkView>
    decreases lines.len(),
{
    if lines.len() == 0 {
        Seq::empty()
    } else {
        links_of(lines.drop_last()) + match link_item(trim(lines.last())) {
            Some(item) => seq![LessonLinkView { title: item.title, file: item.file }],
            None => Seq::empty(),
        }
    }
}

/// The nonempty trimmed lines, in order.
pub open spec fn nonempty_lines(lines: Seq<Seq<char>>) -> Seq<Seq<char>>
    decreases lines.len(),
{
    if lines.len() == 0 {
        Seq::empty()
    } else {
        nonempty_lines(lines.drop_last()) + if trim(lines.last()).len() > 0 {
            seq![trim(lines.last())]
        } else {
            Seq::empty()
        }
    }
}

/// The contents of a generated lesson file: front matter with the title (and the
/// YouTube link, if any), then a placeholder body naming the lesson.
pub open spec fn stub_content(title: Seq<char>, youtube: Option<Seq<char>>) -> Seq<char> {
    "---\ntitle: \""@ + title + "\""@ + match youtube {
        Some(u) => "\nyoutube: "@ + u,
        None => Seq::empty(),
    } + "\n---\n\nNội dung bài học **"@ + title + "** sẽ được viết tại đây...\n"@
}

/// The stub of the `i`-th link.
pub open spec fn stub_of(links: Seq<LessonLinkView>, videos: Option<Seq<Seq<char>>>, i: int) -> LessonStubView {
    LessonStubView {
        file: links[i].file,
        content: stub_content(
            links[i].title,
            match videos {
                Some(v) => Some(v[i]),
                None => None,
            },
        ),
    }
}

/// The lesson files for a table of contents and an optional list of YouTube links
/// (one per nonempty line): an error when there is no lesson link, or when links are
/// given and their number differs from the number of lessons.
pub open spec fn plan_spec(summary: Seq<char>, youtube: Option<Seq<char>>) -> Result<
    Seq<LessonStubView>,
    GenerateError,
> {
    let links = links_of(split_lines(summary));
    if links.len() == 0 {
        Err(GenerateError::EmptySummary)
    } else {
        match youtube {
            None => Ok(Seq::new(links.len(), |i: int| stub_of(links, None, i))),
            Some(y) => {
                let videos = nonempty_lines(split_lines(y));
                if videos.len() != links.len() {
                    Err(
                        GenerateError::CountMismatch {
                            lessons: links.len() as usize,
                            videos: videos.len() as usize,
                        },
                    )
                } else {
                    Ok(Seq::new(links.len(), |i: int| stub_of(links, Some(videos), i)))
                }
            },
        }
    }
}

/// One more line adds its link, if it has one.
proof fn lemma_links_step(lines: Seq<Seq<char>>, i: int)
    requires
        0 <= i < lines.len(),
    ensures
        links_of(lines.take(i + 1)) == links_of(lines.take(i)) + match link_item(trim(lines[i])) {
            Some(item) => seq![LessonLinkView { title: item.title, file: item.file }],
            None => Seq::<LessonLinkView>::empty(),
        },
{
    assert(lines.take(i + 1).drop_last() =~= lines.take(i));
}

/// One more line adds its trimmed text, if nonempty.
proof fn lemma_nonempty_step(lines: Seq<Seq<char>>, i: int)
    requires
        0 <= i < lines.len(),
    ensures
        nonempty_lines(lines.take(i + 1)) == nonempty_lines(lines.take(i)) + if trim(lines[i]).len()
            > 0 {
            seq![trim(lines[i])]
        } else {
            Seq::<Seq<char>>::empty()
        },
{
    assert(lines.take(i + 1).drop_last() =~= lines.take(i));
}

// ---------------------------------------------------------------------------
// Executable functions
// ---------------------------------------------------------------------------

/// The lesson links of a table of contents, in order.
pub fn summary_links(content: &str) -> (r: Vec<LessonLink>)
    requires
        summary_links_well_formed(content@),
    ensures
        links_view(r@) == links_of(split_lines(content@)),
{
    let c = chars_of(content);
    let ranges = line_ranges(c.as_slice());
    let ghost lines = split_lines(c@);
    let mut r: Vec<LessonLink> = Vec::new();
    let mut i: usize = 0;
    while i < ranges.len()
        invariant
            i <= ranges@.len() == lines.len(),
            forall|k: int| 0 <= k < lines.len() ==> link_line_ok(#[trigger] trim(lines[k])),
            forall|k: int|
                0 <= k < ranges@.len() ==> {
                    &&& (#[trigger] ranges@[k]).0 <= ranges@[k].1 <= c@.len()
                    &&& c@.subrange(ranges@[k].0 as int, ranges@[k].1 as int) == lines[k]
                },
            links_view(r@) == links_of(lines.take(i as int)),
        decreases ranges.len() - i,
    {
        let (from, to) = ranges[i];
        let (a, b) = trim_bounds(c.as_slice(), from, to);
        let line = &c[a..b];
        assert(line@ == trim(lines[i as int]));
        assert(link_line_ok(trim(lines[i as int])));
        proof {
            lemma_links_step(lines, i as int);
        }
        let ghost prev = r@;
        match link_item_exec(line) {
            Some(item) => {
                r.push(LessonLink { title: item.title, file: item.file });
                assert(links_view(r@) =~= links_view(prev).push(r@.last()@));
            },
            None => {
                assert(links_view(r@) =~= links_view(prev) + Seq::<LessonLinkView>::empty());
            },
        }
        i += 1;
    }
    assert(lines.take(i as int) =~= lines);
    r
}

/// The nonempty trimmed lines of `content`, in order.
pub fn nonempty_trimmed_lines(content: &str) -> (r: Vec<String>)
    ensures
        r@.map_values(|s: String| s@) == nonempty_lines(split_lines(content@)),
{
    let c = chars_of(content);
    let ranges = line_ranges(c.as_slice());
    let ghost lines = split_lines(c@);
    let mut r: Vec<String> = Vec::new();
    let mut i: usize = 0;
    while i < ranges.len()
        invariant
            i <= ranges@.len() == lines.len(),
            forall|k: int|
                0 <= k < ranges@.len() ==> {
                    &&& (#[trigger] ranges@[k]).0 <= ranges@[k].1 <= c@.len()
                    &&& c@.subrange(ranges@[k].0 as int, ranges@[k].1 as int) == lines[k]
                },
            r@.map_values(|s: String| s@) == nonempty_lines(lines.take(i as int)),
        decreases ranges.len() - i,
    {
        let (from, to) = ranges[i];
        let (a, b) = trim_bounds(c.as_slice(), from, to);
        assert(c@.subrange(a as int, b as int) == trim(lines[i as int]));
        proof {
            lemma_nonempty_step(lines, i as int);
        }
        let ghost prev = r@;
        if a < b {
            let s = string_of(c.as_slice(), a, b);
            r.push(s);
            assert(r@.map_values(|s: String| s@) =~= prev.map_values(|s: String| s@).push(s@));
        } else {
            assert(r@.map_values(|s: String| s@) =~= prev.map_values(|s: String| s@)
                + Seq::<Seq<char>>::empty());
        }
        i += 1;
    }
    assert(lines.take(i as int) =~= lines);
    r
}

/// The contents of a generated lesson file.
pub fn lesson_stub_content(title: &str, youtube: Option<&str>) -> (r: String)
    ensures
        r@ == stub_content(
            title@,
            match youtube {
                Some(u) => Some(u@),
                None => None,
            },
        ),
{
    let mut r = "---\ntitle: \"".to_owned();
    r.append(title);
    r.append("\"");
    match youtube {
        Some(u) => {
            r.append("\nyoutube: ");
            r.append(u);
        },
        None => {},
    }
    r.append("\n---\n\nNội dung bài học **");
    r.append(title);
    r.append("** sẽ được viết tại đây...\n");
    proof {
        assert(r@ =~= stub_content(
            title@,
            match youtube {
                Some(u) => Some(u@),
                None => None,
            },
        ));
    }
    r
}

/// The lesson files to create for a table of contents and, optionally, the contents of
/// a file of YouTube links (one per nonempty line, in lesson order).
pub fn plan_lessons(summary: &str, youtube: Option<&str>) -> (r: Result<Vec<LessonStub>, GenerateError>)
    requires
        summary_links_well_formed(summary@),
    ensures
        match r {
            Ok(v) => plan_spec(
                summary@,
                match youtube {
                    Some(y) => Some(y@),
                    None => None,
                },
            ) == Ok::<Seq<LessonStubView>, GenerateError>(stubs_view(v@)),
            Err(e) => plan_spec(
                summary@,
                match youtube {
                    Some(y) => Some(y@),
                    None => None,
                },
            ) == Err::<Seq<LessonStubView>, GenerateError>(e),
        },
{
    let links = summary_links(summary);
    if links.len() == 0 {
        return Err(GenerateError::EmptySummary);
    }
    let ghost lv = links_view(links@);
    let videos: Option<Vec<String>> = match youtube {
        Some(y) => {
            let v = nonempty_trimmed_lines(y);
            if v.len() != links.len() {
                return Err(GenerateError::CountMismatch { lessons: links.len(), videos: v.len() });
            }
            Some(v)
        },
        None => None,
    };
    let ghost vv = videos_view(videos);
    let mut r: Vec<LessonStub> = Vec::new();
    let mut i: usize = 0;
    while i < links.len()
        invariant
            i <= links@.len(),
            lv == links_view(links@),
            match videos {
                Some(v) => v@.len() == links@.len(),
                None => true,
            },
            vv == videos_view(videos),
            r@.len() == i,
            forall|k: int| 0 <= k < i ==> (#[trigger] r@[k])@ == stub_of(lv, vv, k),
        decreases links.len() - i,
    {
        let yt: Option<&str> = match &videos {
            Some(v) => Some(v[i].as_str()),
            None => None,
        };
        let content = lesson_stub_content(links[i].title.as_str(), yt);
        let file = links[i].file.clone();
        r.push(LessonStub { file, content });
        i += 1;
    }
    assert(stubs_view(r@) =~= Seq::new(lv.len(), |k: int| stub_of(lv, vv, k)));
    Ok(r)
}


// ---------------------------------------------------------------------------
// Laws
// ---------------------------------------------------------------------------

/// The link of a lesson item: its text and file.
pub open spec fn item_link(it: LessonItemView) -> LessonLinkView {
    LessonLinkView { title: it.title, file: it.file }
}

/// The links of a list of lesson items.
pub open spec fn items_links(items: Seq<LessonItemView>) -> Seq<LessonLinkView> {
    items.map_values(|it: LessonItemView| item_link(it))
}

proof fn lemma_all_lessons_push(secs: Seq<SectionView>, s: SectionView)
    ensures
        all_lessons(secs.push(s)) == all_lessons(secs) + s.lessons,
{
    assert(secs.push(s).drop_last() =~= secs);
}

proof fn lemma_fold_links(lines: Seq<Seq<char>>)
    ensures
        items_links(all_lessons(summary_fold(lines).done) + summary_fold(lines).current.lessons)
            == links_of(lines),
        !keep_section(summary_fold(lines).current) ==> summary_fold(lines).current.lessons.len()
            == 0,
    decreases lines.len(),
{
    if lines.len() == 0 {
        assert(items_links(Seq::<LessonItemView>::empty() + Seq::<LessonItemView>::empty())
            =~= Seq::<LessonLinkView>::empty());
    } else {
        lemma_fold_links(lines.drop_last());
        let st = summary_fold(lines.drop_last());
        let line = trim(lines.last());
        let st2 = summary_apply(st, line);
        let before = all_lessons(st.done) + st.current.lessons;
        if starts_with(line, "# "@) {
            reveal_strlit("# ");
            reveal_strlit("- [");
            assert(line.take(2)[0] == '#');
            assert(!starts_with(line, "- ["@)) by {
                if starts_with(line, "- ["@) {
                    assert(line.take(3)[0] == '-');
                }
            }
            assert(link_item(line) is None);
            if keep_section(st.current) {
                lemma_all_lessons_push(st.done, st.current);
            }
            assert(all_lessons(st2.done) + st2.current.lessons =~= before);
            assert(links_of(lines) =~= links_of(lines.drop_last()));
        } else {
            match link_item(line) {
                Some(item) => {
                    assert(all_lessons(st2.done) + st2.current.lessons =~= before.push(item));
                    assert(items_links(before.push(item)) =~= items_links(before).push(
                        item_link(item),
                    ));
                    assert(links_of(lines) =~= links_of(lines.drop_last()).push(item_link(item)));
                },
                None => {
                    assert(links_of(lines) =~= links_of(lines.drop_last()));
                },
            }
        }
    }
}

/// Law: the lessons of all sections that `parse_summary` finds, in order, are exactly
/// the lesson links that lesson generation reads from the same table of contents.
pub proof fn law_summary_lessons_are_links(content: Seq<char>)
    ensures
        items_links(all_lessons(parse_summary_spec(content))) == links_of(split_lines(content)),
{
    let lines = split_lines(content);
    lemma_fold_links(lines);
    let st = summary_fold(lines);
    if keep_section(st.current) {
        lemma_all_lessons_push(st.done, st.current);
    } else {
        assert(all_lessons(st.done) + st.current.lessons =~= all_lessons(st.done));
    }
}


/// Law: what lesson generation answers for a table of contents and an optional file of
/// YouTube links. No lesson link gives `EmptySummary`. Otherwise, without links the plan
/// succeeds; with links it succeeds exactly when the number of nonempty trimmed link
/// lines equals the number of lessons, and any other count gives `CountMismatch` with
/// both counts. A plan that succeeds has one file per lesson link, in order, named
/// after the link's file, whose front matter holds the link's title and the lesson's
/// own YouTube link.
pub proof fn law_plan_outcome(summary: Seq<char>, youtube: Option<Seq<char>>)
    ensures
        ({
            let links = links_of(split_lines(summary));
            let plan = plan_spec(summary, youtube);
            &&& links.len() == 0 ==> plan == Err::<Seq<LessonStubView>, GenerateError>(
                GenerateError::EmptySummary,
            )
            &&& (links.len() > 0 && youtube is None) ==> plan is Ok
            &&& (youtube is Some && links.len() > 0) ==> (plan is Ok <==> nonempty_lines(
                split_lines(youtube->Some_0),
            ).len() == links.len())
            &&& (youtube is Some && links.len() > 0 && nonempty_lines(
                split_lines(youtube->Some_0),
            ).len() != links.len()) ==> plan == Err::<Seq<LessonStubView>, GenerateError>(
                GenerateError::CountMismatch {
                    lessons: links.len() as usize,
                    videos: nonempty_lines(split_lines(youtube->Some_0)).len() as usize,
                },
            )
            &&& plan matches Ok(stubs) ==> {
                &&& stubs.len() == links.len()
                &&& forall|i: int|
                    0 <= i < stubs.len() ==> (#[trigger] stubs[i]).file == links[i].file
                        && stubs[i].content == stub_content(
                        links[i].title,
                        match youtube {
                            Some(y) => Some(nonempty_lines(split_lines(y))[i]),
                            None => None,
                        },
                    )
            }
        }),
{
}

/// The front matter of a generated lesson file.
pub open spec fn stub_frontmatter(title: Seq<char>, youtube: Option<Seq<char>>) -> Seq<char> {
    "\ntitle: \""@ + title + "\""@ + match youtube {
        Some(u) => "\nyoutube: "@ + u,
        None => Seq::empty(),
    } + "\n"@
}

/// The body of a generated lesson file.
pub open spec fn stub_body(title: Seq<char>) -> Seq<char> {
    "\n\nNội dung bài học **"@ + title + "** sẽ được viết tại đây...\n"@
}

/// Law: a generated lesson file reads back as front matter holding its title (and
/// link) and the placeholder body, whenever the title and the link hold no `---`.
pub proof fn law_stub_frontmatter_roundtrip(title: Seq<char>, youtube: Option<Seq<char>>)
    requires
        no_fence(title),
        youtube matches Some(u) ==> no_fence(u),
    ensures
        split_frontmatter_spec(stub_content(title, youtube)) == Ok::<
            (Seq<char>, Seq<char>),
            FrontmatterError,
        >((stub_frontmatter(title, youtube), stub_body(title))),
{
    reveal_strlit("---\ntitle: \"");
    reveal_strlit("\ntitle: \"");
    reveal_strlit("\"");
    reveal_strlit("\nyoutube: ");
    reveal_strlit("\n");
    reveal_strlit("---");
    reveal_strlit("\n---\n\nNội dung bài học **");
    reveal_strlit("\n\nNội dung bài học **");
    let p1 = "\ntitle: \""@;
    let p2 = "\""@;
    let nl = "\n"@;
    let yt: Seq<char> = match youtube {
        Some(u) => "\nyoutube: "@ + u,
        None => Seq::empty(),
    };
    lemma_no_dash_no_fence(p1);
    lemma_no_dash_no_fence(p2);
    lemma_no_dash_no_fence(nl);
    lemma_no_fence_concat(p1, title);
    let a = p1 + title;
    lemma_no_fence_concat(a, p2);
    let b = a + p2;
    assert(b.last() == '"');
    match youtube {
        Some(u) => {
            lemma_no_dash_no_fence("\nyoutube: "@);
            lemma_no_fence_concat("\nyoutube: "@, u);
            lemma_no_fence_concat(b, yt);
        },
        None => {
            lemma_no_dash_no_fence(yt);
            lemma_no_fence_concat(b, yt);
        },
    }
    let c = b + yt;
    lemma_no_fence_concat(c, nl);
    let fm = c + nl;
    assert(fm =~= stub_frontmatter(title, youtube));
    law_frontmatter_roundtrip(fm, stub_body(title));
    assert(stub_content(title, youtube) =~= "---"@ + fm + "---"@ + stub_body(title));
}

} // verus!
