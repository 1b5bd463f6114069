//! Course tables of contents (`SUMMARY.md`): sections introduced by `# ` headings and
//! lesson links written `- [Title](file.md)`.

use vstd::prelude::*;
use crate::text::{
    chars_of, find, find_exec, first_index_exec, first_index_of, last_index_exec, last_index_of,
    lemma_find, lemma_first_index_of, lemma_trimmed_heading_title, line_ranges, occurs_at,
    replace_all, replace_all_exec, split_lines, starts_with, starts_with_exec, string_of,
    strip_cr, trim, trim_bounds,
};

verus! {

broadcast use vstd::string::group_string_axioms;

// ---------------------------------------------------------------------------
// Data
// ---------------------------------------------------------------------------

/// One lesson link of a table of contents.
#[derive(Debug, Clone)]
pub struct LessonItem {
    /// The link text.
    pub title: String,
    /// The linked Markdown file.
    pub file: String,
    /// The page that the file becomes (`.md` replaced by `.html`).
    pub url: String,
}

/// A section of a table of contents: a heading and the lessons under it.
#[derive(Debug, Clone)]
pub struct CourseSection {
    /// The heading text; empty for lessons listed before any heading.
    pub section_title: String,
    /// The lessons of the section, in order.
    pub lessons: Vec<LessonItem>,
}

/// What a [`LessonItem`] holds.
pub struct LessonItemView {
    pub title: Seq<char>,
    pub file: Seq<char>,
    pub url: Seq<char>,
}

/// What a [`CourseSection`] holds.
pub struct SectionView {
    pub title: Seq<char>,
    pub lessons: Seq<LessonItemView>,
}

impl View for LessonItem {
    type V = LessonItemView;

    open spec fn view(&self) -> LessonItemView {
        LessonItemView { title: self.title@, file: self.file@, url: self.url@ }
    }
}

impl View for CourseSection {
    type V = SectionView;

    open spec fn view(&self) -> SectionView {
        SectionView {
            title: self.section_title@,
            lessons: self.lessons@.map_values(|l: LessonItem| l@),
        }
    }
}

/// What a list of sections holds.
pub open spec fn sections_view(v: Seq<CourseSection>) -> Seq<SectionView> {
    v.map_values(|s: CourseSection| s@)
}

// ---------------------------------------------------------------------------
// Specification
// ---------------------------------------------------------------------------

/// A section is listed when it has a heading or at least one lesson.
pub open spec fn keep_section(s: SectionView) -> bool {
    s.lessons.len() > 0 || s.title.len() > 0
}

/// The section that collects lessons listed before any heading.
pub open spec fn untitled_section() -> SectionView {
    SectionView { title: Seq::empty(), lessons: Seq::empty() }
}

/// The lesson that a (trimmed) line links to: text between `- [` and the first `](`,
/// file between that and the last `)`.
pub open spec fn link_item(line: Seq<char>) -> Option<LessonItemView> {
    if starts_with(line, "- ["@) && find(line, "]("@) is Some && last_index_of(line, ')') is Some {
        let t = find(line, "]("@)->Some_0;
        let e = last_index_of(line, ')')->Some_0;
        let file = line.subrange(t + 2, e);
        Some(
            LessonItemView {
                title: line.subrange(3, t),
                file: file,
                url: replace_all(file, ".md"@, ".html"@),
            },
        )
    } else {
        None
    }
}

/// A link line whose last `)` comes before the end of its first `](` cannot be cut
/// into title and file; every other line can.
pub open spec fn link_line_ok(line: Seq<char>) -> bool {
    (starts_with(line, "- ["@) && find(line, "]("@) is Some && last_index_of(line, ')') is Some)
        ==> find(line, "]("@)->Some_0 + 2 <= last_index_of(line, ')')->Some_0
}

/// Every line of `content` that looks like a link can be cut into title and file.
pub open spec fn summary_links_well_formed(content: Seq<char>) -> bool {
    forall|i: int|
        0 <= i < split_lines(content).len() ==> link_line_ok(
            #[trigger] trim(split_lines(content)[i]),
        )
}

/// Sections closed so far and the section being filled.
pub struct SummaryState {
    pub done: Seq<SectionView>,
    pub current: SectionView,
}

/// The effect of one trimmed line: a `# ` heading closes the current section (kept if
/// it has a heading or lessons) and opens a new one; a link adds a lesson; other lines
/// change nothing.
pub open spec fn summary_apply(st: SummaryState, line: Seq<char>) -> SummaryState {
    if starts_with(line, "# "@) {
        SummaryState {
            done: if keep_section(st.current) {
                st.done.push(st.current)
            } else {
                st.done
            },
            current: SectionView { title: trim(line.skip(2)), lessons: Seq::empty() },
        }
    } else {
        match link_item(line) {
            Some(item) => SummaryState {
                done: st.done,
                current: SectionView {
                    title: st.current.title,
                    lessons: st.current.lessons.push(item),
                },
            },
            None => st,
        }
    }
}

/// The state after reading `lines` in order, each trimmed.
pub open spec fn summary_fold(lines: Seq<Seq<char>>) -> SummaryState
    decreases lines.len(),
{
    if lines.len() == 0 {
        SummaryState { done: Seq::empty(), current: untitled_section() }
    } else {
        summary_apply(summary_fold(lines.drop_last()), trim(lines.last()))
    }
}

/// The sections read from `lines`: those closed by headings, then the last one, each
/// kept only when it has a heading or lessons.
pub open spec fn sections_of_lines(lines: Seq<Seq<char>>) -> Seq<SectionView> {
    let st = summary_fold(lines);
    if keep_section(st.current) {
        st.done.push(st.current)
    } else {
        st.done
    }
}

/// The sections of a table of contents, read from its lines.
pub open spec fn parse_summary_spec(content: Seq<char>) -> Seq<SectionView> {
    sections_of_lines(split_lines(content))
}

// ---------------------------------------------------------------------------
// Executable functions
// ---------------------------------------------------------------------------

/// A link line starts with `- [`, so its first `](` comes at position 3 or later.
proof fn lemma_title_start(line: Seq<char>)
    requires
        starts_with(line, "- ["@),
        find(line, "]("@) is Some,
    ensures
        3 <= find(line, "]("@)->Some_0,
{
    reveal_strlit("- [");
    reveal_strlit("](");
    lemma_find(line, "]("@);
    let t = find(line, "]("@)->Some_0;
    assert(line.subrange(t, t + 2)[0] == ']');
    assert(line.take(3)[0] == '-' && line.take(3)[1] == ' ' && line.take(3)[2] == '[');
}

/// The lesson that a trimmed line links to, if it is a link line.
pub fn link_item_exec(line: &[char]) -> (r: Option<LessonItem>)
    requires
        link_line_ok(line@),
    ensures
        match r {
            Some(item) => link_item(line@) == Some(item@),
            None => link_item(line@) is None,
        },
{
    let open = chars_of("- [");
    if !starts_with_exec(line, open.as_slice()) {
        return None;
    }
    let close = chars_of("](");
    let t = match find_exec(line, close.as_slice()) {
        Some(t) => t,
        None => return None,
    };
    let e = match last_index_exec(line, ')') {
        Some(e) => e,
        None => return None,
    };
    proof {
        lemma_title_start(line@);
        lemma_find(line@, close@);
        crate::text::lemma_last_index_of(line@, ')');
    }
    let title = string_of(line, 3, t);
    let file = string_of(line, t + 2, e);
    let md = chars_of(".md");
    let url = replace_all_exec(&line[t + 2..e], md.as_slice(), ".html");
    Some(LessonItem { title, file, url })
}

/// Applies one trimmed line to the sections read so far.
fn apply_line(sections: &mut Vec<CourseSection>, current: &mut CourseSection, line: &[char])
    requires
        link_line_ok(line@),
    ensures
        (SummaryState { done: sections_view(final(sections)@), current: final(current)@ })
            == summary_apply(
            SummaryState { done: sections_view(old(sections)@), current: old(current)@ },
            line@,
        ),
{
    let heading = chars_of("# ");
    if starts_with_exec(line, heading.as_slice()) {
        proof {
            reveal_strlit("# ");
        }
        let (a, b) = trim_bounds(line, 2, line.len());
        assert(line@.subrange(2, line@.len() as int) =~= line@.skip(2));
        let title = string_of(line, a, b);
        let mut fresh = CourseSection { section_title: title, lessons: Vec::new() };
        std::mem::swap(current, &mut fresh);
        let ghost before = sections@;
        if fresh.lessons.len() > 0 || !fresh.section_title.as_str().is_empty() {
            sections.push(fresh);
            assert(sections_view(sections@) =~= sections_view(before).push(fresh@));
        }
        assert(current@.lessons =~= Seq::<LessonItemView>::empty());
    } else {
        match link_item_exec(line) {
            Some(item) => {
                let ghost before = current.lessons@;
                current.lessons.push(item);
                assert(current.lessons@.map_values(|l: LessonItem| l@) =~= before.map_values(
                    |l: LessonItem| l@,
                ).push(item@));
            },
            None => {},
        }
    }
}

/// Reads a table of contents: each `# Title` line opens a section, each
/// `- [Title](file.md)` line adds a lesson to the current section, other lines are
/// ignored; lines are trimmed first. Sections with neither a heading nor lessons are
/// left out.
pub fn parse_summary(content: &str) -> (r: Vec<CourseSection>)
    requires
        summary_links_well_formed(content@),
    ensures
        sections_view(r@) == parse_summary_spec(content@),
{
    let c = chars_of(content);
    let mut sections: Vec<CourseSection> = Vec::new();
    let mut current = CourseSection { section_title: String::new(), lessons: Vec::new() };
    let mut pos: usize = 0;
    let ghost mut done: Seq<Seq<char>> = Seq::empty();
    assert(c@.skip(0) =~= c@);
    assert(sections_view(sections@) =~= Seq::<SectionView>::empty());
    assert(current@.lessons =~= Seq::<LessonItemView>::empty());
    assert(current@.title =~= Seq::<char>::empty());
    while pos < c.len()
        invariant
            pos <= c@.len(),
            c@ == content@,
            summary_links_well_formed(content@),
            split_lines(c@) == done + split_lines(c@.skip(pos as int)),
            (SummaryState { done: sections_view(sections@), current: current@ }) == summary_fold(
                done,
            ),
        decreases c.len() - pos,
    {
        let ghost rest = c@.skip(pos as int);
        let tail = &c[pos..c.len()];
        assert(tail@ =~= rest);
        let found = first_index_exec(tail, '\n');
        proof {
            lemma_first_index_of(rest, '\n');
        }
        let (line_end, next) = match found {
            Some(k) => {
                if k > 0 && c[pos + k - 1] == '\r' {
                    (pos + k - 1, pos + k + 1)
                } else {
                    (pos + k, pos + k + 1)
                }
            },
            None => (c.len(), c.len()),
        };
        let ghost raw = c@.subrange(pos as int, line_end as int);
        proof {
            match first_index_of(rest, '\n') {
                Some(k) => {
                    assert(raw =~= strip_cr(rest.take(k)));
                    assert(rest.skip(k + 1) =~= c@.skip(next as int));
                },
                None => {
                    assert(raw =~= rest);
                    assert(c@.skip(next as int) =~= Seq::<char>::empty());
                },
            }
            assert(split_lines(rest) == seq![raw] + split_lines(c@.skip(next as int)));
            assert(split_lines(c@) =~= done.push(raw) + split_lines(c@.skip(next as int)));
            assert(split_lines(c@)[done.len() as int] == raw);
            assert(link_line_ok(trim(split_lines(c@)[done.len() as int])));
        }
        let (a, b) = trim_bounds(c.as_slice(), pos, line_end);
        let line = &c[a..b];
        apply_line(&mut sections, &mut current, line);
        proof {
            let d2 = done.push(raw);
            assert(d2.drop_last() =~= done);
            done = d2;
        }
        pos = next;
    }
    assert(c@.skip(pos as int) =~= Seq::<char>::empty());
    assert(done =~= split_lines(c@));
    let ghost before = sections@;
    if current.lessons.len() > 0 || !current.section_title.as_str().is_empty() {
        sections.push(current);
        assert(sections_view(sections@) =~= sections_view(before).push(current@));
    }
    sections
}


// ---------------------------------------------------------------------------
// Laws
// ---------------------------------------------------------------------------

/// Every lesson of a section links to a page named after its file.
pub open spec fn lessons_named_after_files(s: SectionView) -> bool {
    forall|j: int|
        0 <= j < s.lessons.len() ==> (#[trigger] s.lessons[j]).url == replace_all(
            s.lessons[j].file,
            ".md"@,
            ".html"@,
        )
}

/// What every state reached while reading holds: closed sections are kept ones and
/// all lessons are named after their files.
pub open spec fn summary_state_ok(st: SummaryState) -> bool {
    &&& forall|i: int| 0 <= i < st.done.len() ==> keep_section(#[trigger] st.done[i])
    &&& forall|i: int| 0 <= i < st.done.len() ==> lessons_named_after_files(#[trigger] st.done[i])
    &&& lessons_named_after_files(st.current)
}

proof fn lemma_fold_ok(lines: Seq<Seq<char>>)
    ensures
        summary_state_ok(summary_fold(lines)),
    decreases lines.len(),
{
    if lines.len() > 0 {
        lemma_fold_ok(lines.drop_last());
        let st = summary_fold(lines.drop_last());
        let line = trim(lines.last());
        let st2 = summary_apply(st, line);
        if starts_with(line, "# "@) {
            assert(st2.current.lessons.len() == 0);
        } else {
            match link_item(line) {
                Some(item) => {
                    assert forall|j: int| 0 <= j < st2.current.lessons.len() implies (
                    #[trigger] st2.current.lessons[j]).url == replace_all(
                        st2.current.lessons[j].file,
                        ".md"@,
                        ".html"@,
                    ) by {
                        if j < st.current.lessons.len() {
                            assert(st2.current.lessons[j] == st.current.lessons[j]);
                        }
                    }
                },
                None => {},
            }
        }
    }
}

/// Law: every section that `parse_summary` returns has a heading or at least one
/// lesson, and every lesson's page is its file with `.md` replaced by `.html`.
pub proof fn law_summary_sections_shape(content: Seq<char>)
    ensures
        forall|i: int|
            0 <= i < parse_summary_spec(content).len() ==> {
                &&& keep_section(#[trigger] parse_summary_spec(content)[i])
                &&& lessons_named_after_files(parse_summary_spec(content)[i])
            },
{
    lemma_fold_ok(split_lines(content));
}

/// The titles of the `# ` heading lines among `lines` (each line trimmed first), in order.
pub open spec fn heading_titles(lines: Seq<Seq<char>>) -> Seq<Seq<char>>
    decreases lines.len(),
{
    if lines.len() == 0 {
        Seq::empty()
    } else {
        let t = trim(lines.last());
        heading_titles(lines.drop_last()) + if starts_with(t, "# "@) {
            seq![trim(t.skip(2))]
        } else {
            Seq::<Seq<char>>::empty()
        }
    }
}

/// The title of a section, as a list of one, when it has a title.
pub open spec fn title_if_any(s: SectionView) -> Seq<Seq<char>> {
    if s.title.len() > 0 {
        seq![s.title]
    } else {
        Seq::empty()
    }
}

/// The titles of the sections that have one, in order.
pub open spec fn titled_sections(secs: Seq<SectionView>) -> Seq<Seq<char>>
    decreases secs.len(),
{
    if secs.len() == 0 {
        Seq::empty()
    } else {
        titled_sections(secs.drop_last()) + title_if_any(secs.last())
    }
}

proof fn lemma_titled_push(secs: Seq<SectionView>, s: SectionView)
    ensures
        titled_sections(secs.push(s)) == titled_sections(secs) + title_if_any(s),
{
    assert(secs.push(s).drop_last() =~= secs);
}

proof fn lemma_fold_titles(lines: Seq<Seq<char>>)
    ensures
        titled_sections(summary_fold(lines).done) + title_if_any(summary_fold(lines).current)
            == heading_titles(lines),
    decreases lines.len(),
{
    if lines.len() == 0 {
        assert(titled_sections(Seq::<SectionView>::empty()) + title_if_any(untitled_section())
            =~= Seq::<Seq<char>>::empty());
    } else {
        lemma_fold_titles(lines.drop_last());
        let st = summary_fold(lines.drop_last());
        let line = trim(lines.last());
        let st2 = summary_apply(st, line);
        let before = titled_sections(st.done) + title_if_any(st.current);
        if starts_with(line, "# "@) {
            lemma_trimmed_heading_title(lines.last());
            if keep_section(st.current) {
                lemma_titled_push(st.done, st.current);
            } else {
                assert(titled_sections(st.done) =~= before);
            }
            assert(titled_sections(st2.done) == before);
            assert(title_if_any(st2.current) == seq![trim(line.skip(2))]);
            assert(heading_titles(lines) == before + seq![trim(line.skip(2))]);
        } else {
            assert(heading_titles(lines) =~= heading_titles(lines.drop_last()));
            match link_item(line) {
                Some(item) => {
                    assert(title_if_any(st2.current) == title_if_any(st.current));
                },
                None => {},
            }
        }
    }
}

/// Law: every `# Title` line of a table of contents opens exactly one section titled
/// `Title` in what `parse_summary` returns, in the order of the lines, whether or not
/// lessons follow it; no other section has a title.
pub proof fn law_each_heading_opens_one_section(content: Seq<char>)
    ensures
        titled_sections(parse_summary_spec(content)) == heading_titles(split_lines(content)),
        titled_sections(parse_summary_spec(content)).len() == heading_titles(
            split_lines(content),
        ).len(),
{
    let lines = split_lines(content);
    lemma_fold_titles(lines);
    let st = summary_fold(lines);
    if keep_section(st.current) {
        lemma_titled_push(st.done, st.current);
    } else {
        assert(titled_sections(st.done) + title_if_any(st.current) =~= titled_sections(st.done));
    }
}

/// The lessons that `lines` link to (each line trimmed first), in order.
pub open spec fn line_items(lines: Seq<Seq<char>>) -> Seq<LessonItemView>
    decreases lines.len(),
{
    if lines.len() == 0 {
        Seq::empty()
    } else {
        line_items(lines.drop_last()) + match link_item(trim(lines.last())) {
            Some(item) => seq![item],
            None => Seq::<LessonItemView>::empty(),
        }
    }
}

/// None of `lines` is a `# ` heading once trimmed.
pub open spec fn no_heading(lines: Seq<Seq<char>>) -> bool {
    forall|i: int| 0 <= i < lines.len() ==> !starts_with(#[trigger] trim(lines[i]), "# "@)
}

/// Lines without headings only add their lessons to the section being filled.
proof fn lemma_fold_no_heading(pre: Seq<Seq<char>>, body: Seq<Seq<char>>)
    requires
        no_heading(body),
    ensures
        summary_fold(pre + body).done == summary_fold(pre).done,
        summary_fold(pre + body).current.title == summary_fold(pre).current.title,
        summary_fold(pre + body).current.lessons == summary_fold(pre).current.lessons
            + line_items(body),
    decreases body.len(),
{
    if body.len() == 0 {
        assert(pre + body =~= pre);
        assert(summary_fold(pre).current.lessons + line_items(body) =~= summary_fold(
            pre,
        ).current.lessons);
    } else {
        let b2 = body.drop_last();
        assert forall|i: int| 0 <= i < b2.len() implies !starts_with(
            #[trigger] trim(b2[i]),
            "# "@,
        ) by {
            assert(b2[i] == body[i]);
            assert(!starts_with(trim(body[i]), "# "@));
        }
        lemma_fold_no_heading(pre, b2);
        assert((pre + body).drop_last() =~= pre + b2);
        assert((pre + body).last() == body.last());
        assert(!starts_with(trim(body[body.len() - 1]), "# "@));
        let st = summary_fold(pre + b2);
        let line = trim(body.last());
        match link_item(line) {
            Some(item) => {
                assert(st.current.lessons.push(item) =~= summary_fold(pre).current.lessons
                    + line_items(body));
            },
            None => {
                assert(line_items(body) =~= line_items(b2));
            },
        }
    }
}

/// Law: the lessons linked below a `# ` heading, up to the next heading, are exactly
/// the lessons of that heading's section, in order: the section read last from
/// `before`, the heading line, then lines without headings, is titled by the heading
/// and holds the lessons those lines link to.
pub proof fn law_heading_collects_following_lessons(
    before: Seq<Seq<char>>,
    heading: Seq<char>,
    body: Seq<Seq<char>>,
)
    requires
        starts_with(trim(heading), "# "@),
        no_heading(body),
    ensures
        sections_of_lines(before.push(heading) + body).len() > 0,
        sections_of_lines(before.push(heading) + body).last() == (SectionView {
            title: trim(trim(heading).skip(2)),
            lessons: line_items(body),
        }),
{
    let pre = before.push(heading);
    assert(pre.drop_last() =~= before);
    lemma_trimmed_heading_title(heading);
    lemma_fold_no_heading(pre, body);
    let st = summary_fold(pre + body);
    assert(summary_fold(pre).current.lessons + line_items(body) =~= line_items(body));
    assert(keep_section(st.current));
}

/// Law: lessons listed before any heading form one untitled section, listed first; a
/// table of contents without headings is that section alone, or nothing when it links
/// to no lesson.
pub proof fn law_lessons_without_heading(lines: Seq<Seq<char>>)
    requires
        no_heading(lines),
    ensures
        sections_of_lines(lines) == if line_items(lines).len() > 0 {
            seq![(SectionView { title: Seq::empty(), lessons: line_items(lines) })]
        } else {
            Seq::<SectionView>::empty()
        },
{
    let e = Seq::<Seq<char>>::empty();
    assert(e + lines =~= lines);
    lemma_fold_no_heading(e, lines);
    assert(Seq::<LessonItemView>::empty() + line_items(lines) =~= line_items(lines));
    if line_items(lines).len() > 0 {
        assert(Seq::<SectionView>::empty().push(summary_fold(lines).current) =~= seq![
            SectionView { title: Seq::empty(), lessons: line_items(lines) },
        ]);
    }
}

/// A link line `- [T](f)`, whatever `T` and `f` hold.
pub open spec fn link_line(title: Seq<char>, file: Seq<char>) -> Seq<char> {
    "- ["@ + title + "]("@ + file + ")"@
}

/// Law: every line `- [T](f)` can be cut into title and file, whatever `T` and `f`
/// hold (brackets, parentheses or colons in the title included).
pub proof fn law_link_lines_are_readable(title: Seq<char>, file: Seq<char>)
    ensures
        link_line_ok(link_line(title, file)),
{
    reveal_strlit("- [");
    reveal_strlit("](");
    reveal_strlit(")");
    let line = link_line(title, file);
    let n: int = 3 + title.len() as int;
    assert(line.take(3) =~= "- ["@);
    assert(line.subrange(n, n + 2) =~= "]("@);
    assert(occurs_at(line, "]("@, n));
    lemma_find(line, "]("@);
    assert(line.last() == ')');
    assert(last_index_of(line, ')') == Some(line.len() - 1));
}

/// Law: a line `- [T](f)` whose title holds no `](` is read as the lesson titled `T`
/// linking to `f`, with page `f` where `.md` becomes `.html`; the file may hold anything.
pub proof fn law_link_line_read(title: Seq<char>, file: Seq<char>)
    requires
        find(title, "]("@) is None,
    ensures
        link_item(link_line(title, file)) == Some(
            LessonItemView {
                title: title,
                file: file,
                url: replace_all(file, ".md"@, ".html"@),
            },
        ),
{
    reveal_strlit("- [");
    reveal_strlit("](");
    reveal_strlit(")");
    let p = "]("@;
    let line = link_line(title, file);
    let n: int = 3 + title.len() as int;
    assert(line.take(3) =~= "- ["@);
    assert(line.subrange(n, n + 2) =~= p);
    lemma_find(title, p);
    assert forall|j: int| 0 <= j < n implies !#[trigger] occurs_at(line, p, j) by {
        if occurs_at(line, p, j) {
            assert(line.subrange(j, j + 2)[0] == ']');
            assert(line.subrange(j, j + 2)[1] == '(');
            if j < 3 {
                assert(line[j] == "- ["@[j]);
            } else if j + 2 <= n {
                assert(title.subrange(j - 3, j - 1) =~= line.subrange(j, j + 2));
                assert(occurs_at(title, p, j - 3));
            } else {
                assert(line[j + 1] == ']');
            }
        }
    }
    crate::text::lemma_find_is(line, p, n);
    assert(line.last() == ')');
    assert(last_index_of(line, ')') == Some(line.len() - 1));
    assert(line.subrange(3, n) =~= title);
    assert(line.subrange(n + 2, line.len() - 1) =~= file);
}

/// All lessons of a list of sections, in order.
pub open spec fn all_lessons(secs: Seq<SectionView>) -> Seq<LessonItemView>
    decreases secs.len(),
{
    if secs.len() == 0 {
        Seq::empty()
    } else {
        all_lessons(secs.drop_last()) + secs.last().lessons
    }
}


/// Whether a trimmed line can be cut into title and file if it is a link line.
pub fn link_line_ok_exec(line: &[char]) -> (r: bool)
    ensures
        r == link_line_ok(line@),
{
    let open = chars_of("- [");
    if !starts_with_exec(line, open.as_slice()) {
        return true;
    }
    let close = chars_of("](");
    let t = match find_exec(line, close.as_slice()) {
        Some(t) => t,
        None => return true,
    };
    let e = match last_index_exec(line, ')') {
        Some(e) => e,
        None => return true,
    };
    proof {
        lemma_find(line@, close@);
        crate::text::lemma_last_index_of(line@, ')');
    }
    t < e && e - t >= 2
}

/// Whether every link line of `content` can be cut into title and file, so that
/// `parse_summary` can read it.
pub fn summary_is_readable(content: &str) -> (r: bool)
    ensures
        r == summary_links_well_formed(content@),
{
    let c = chars_of(content);
    let ranges = line_ranges(c.as_slice());
    let ghost lines = split_lines(c@);
    let mut i: usize = 0;
    while i < ranges.len()
        invariant
            i <= ranges@.len() == lines.len(),
            c@ == content@,
            lines == split_lines(c@),
            forall|k: int|
                0 <= k < ranges@.len() ==> {
                    &&& (#[trigger] ranges@[k]).0 <= ranges@[k].1 <= c@.len()
                    &&& c@.subrange(ranges@[k].0 as int, ranges@[k].1 as int) == lines[k]
                },
            forall|k: int| 0 <= k < i ==> link_line_ok(#[trigger] trim(lines[k])),
        decreases ranges.len() - i,
    {
        let (from, to) = ranges[i];
        let (a, b) = trim_bounds(c.as_slice(), from, to);
        let line = &c[a..b];
        if !link_line_ok_exec(line) {
            assert(!link_line_ok(trim(lines[i as int])));
            return false;
        }
        i += 1;
    }
    true
}

/// The files of all lessons of a table of contents, in order.
pub fn lesson_files(summary: &Vec<CourseSection>) -> (r: Vec<String>)
    ensures
        r@.map_values(|s: String| s@) == all_lessons(sections_view(summary@)).map_values(
            |it: LessonItemView| it.file,
        ),
{
    let mut r: Vec<String> = Vec::new();
    let mut i: usize = 0;
    while i < summary.len()
        invariant
            i <= summary@.len(),
            r@.map_values(|s: String| s@) == all_lessons(sections_view(summary@.take(i as int))).map_values(
                |it: LessonItemView| it.file,
            ),
        decreases summary.len() - i,
    {
        let section = &summary[i];
        let ghost before = r@.map_values(|s: String| s@);
        let mut j: usize = 0;
        while j < section.lessons.len()
            invariant
                j <= section.lessons@.len(),
                r@.map_values(|s: String| s@) == before + section.lessons@.take(j as int).map_values(
                    |it: LessonItem| it.file@,
                ),
            decreases section.lessons.len() - j,
        {
            let ghost prev = r@;
            r.push(section.lessons[j].file.clone());
            assert(r@.map_values(|s: String| s@) =~= prev.map_values(|s: String| s@).push(
                section.lessons@[j as int].file@,
            ));
            assert(section.lessons@.take(j + 1).map_values(|it: LessonItem| it.file@)
                =~= section.lessons@.take(j as int).map_values(|it: LessonItem| it.file@).push(
                section.lessons@[j as int].file@,
            ));
            j += 1;
        }
        let ghost secs = sections_view(summary@.take(i + 1));
        assert(secs.drop_last() =~= sections_view(summary@.take(i as int)));
        assert(section.lessons@.take(j as int) =~= section.lessons@);
        assert(secs.last().lessons.map_values(|it: LessonItemView| it.file) =~= section.lessons@.map_values(
            |it: LessonItem| it.file@,
        ));
        assert(all_lessons(secs) == all_lessons(secs.drop_last()) + secs.last().lessons);
        assert((all_lessons(secs.drop_last()) + secs.last().lessons).map_values(
            |it: LessonItemView| it.file,
        ) =~= all_lessons(secs.drop_last()).map_values(|it: LessonItemView| it.file)
            + secs.last().lessons.map_values(|it: LessonItemView| it.file));
        i += 1;
    }
    assert(summary@.take(i as int) =~= summary@);
    r
}

} // verus!
