//! YouTube links: finding the video id in a link and building the embed forms.

use vstd::prelude::*;
use vstd::string::StringExecFns;
use crate::text::{
    before_char, chars_of, find, find_exec, first_index_exec, first_index_of, lemma_find,
    lemma_before_stop, lemma_find_is, lemma_first_index_of, lemma_occurs_in_prefix,
    lemma_occurs_in_suffix, occurs_at, string_of,
};

verus! {

broadcast use vstd::string::group_string_axioms;

// ---------------------------------------------------------------------------
// Specifications
// ---------------------------------------------------------------------------

/// The id that follows the first `marker` in `url`, up to the first `stop`;
/// `None` when there is no `marker` or the id would be empty.
pub open spec fn id_after(url: Seq<char>, marker: Seq<char>, stop: char) -> Option<Seq<char>> {
    match find(url, marker) {
        Some(k) => {
            let id = before_char(url.skip(k + marker.len()), stop);
            if id.len() > 0 {
                Some(id)
            } else {
                None
            }
        },
        None => None,
    }
}

/// The video id of a link: a short `youtu.be/ID` link first, then a `v=ID` query,
/// then an `embed/ID` link.
pub open spec fn video_id(url: Seq<char>) -> Option<Seq<char>> {
    match id_after(url, "youtu.be/"@, '?') {
        Some(id) => Some(id),
        None => match id_after(url, "v="@, '&') {
            Some(id) => Some(id),
            None => id_after(url, "embed/"@, '?'),
        },
    }
}

/// The embed address of a video id.
pub open spec fn embed_url(id: Seq<char>) -> Seq<char> {
    "https://www.youtube.com/embed/"@ + id
}

/// The embed address of a link, when the link names a video.
pub open spec fn embed_url_of(url: Seq<char>) -> Option<Seq<char>> {
    match video_id(url) {
        Some(id) => Some(embed_url(id)),
        None => None,
    }
}

/// The responsive 16:9 player markup around an embed address.
pub open spec fn embed_html(embed: Seq<char>) -> Seq<char> {
    EMBED_HTML_HEAD@ + embed + EMBED_HTML_TAIL@
}

/// Spec view of an optional string.
pub open spec fn opt_view(o: Option<String>) -> Option<Seq<char>> {
    match o {
        Some(s) => Some(s@),
        None => None,
    }
}

/// Markup before the embed address in the player.
pub const EMBED_HTML_HEAD: &'static str = "<div class=\"video-wrapper\" style=\"width: 100%; aspect-ratio: 16 / 9; overflow: hidden; border-radius: 8px; box-shadow: 0 4px 6px rgba(0,0,0,0.1); background-color: #000;\">\n    <iframe src=\"";

/// Markup after the embed address in the player.
pub const EMBED_HTML_TAIL: &'static str = "\"\n        style=\"width: 100%; height: 100%; border: none;\"\n        title=\"YouTube video player\"\n        allow=\"accelerometer; autoplay; clipboard-write; encrypted-media; gyroscope; picture-in-picture; web-share\"\n        allowfullscreen>\n    </iframe>\n</div>";

// ---------------------------------------------------------------------------
// Executable functions
// ---------------------------------------------------------------------------

/// The id after the first `marker` in `url`, up to the first `stop`, if nonempty.
fn id_after_exec(url: &[char], marker: &str, stop: char) -> (r: Option<String>)
    ensures
        opt_view(r) == id_after(url@, marker@, stop),
{
    let m = chars_of(marker);
    match find_exec(url, m.as_slice()) {
        Some(k) => {
            proof {
                lemma_find(url@, m@);
                assert(k + m@.len() <= url@.len());
            }
            assert(url@.len() == url.len());
            let start = k + m.len();
            let rest = url.split_at(start).1;
            assert(rest@ == url@.skip(start as int));
            let end = match first_index_exec(rest, stop) {
                Some(e) => e,
                None => rest.len(),
            };
            proof {
                lemma_first_index_of(rest@, stop);
            }
            if end == 0 {
                None
            } else {
                let id = string_of(rest, 0, end);
                assert(id@ =~= before_char(rest@, stop));
                Some(id)
            }
        },
        None => None,
    }
}

/// Extracts the video id from any YouTube link (`youtu.be/ID`, `watch?v=ID`,
/// `embed/ID`); `None` when the link names no video.
pub fn extract_video_id(url: &str) -> (r: Option<String>)
    ensures
        opt_view(r) == video_id(url@),
        r matches Some(id) ==> id@.len() > 0,
{
    let u = chars_of(url);
    let short = id_after_exec(u.as_slice(), "youtu.be/", '?');
    if short.is_some() {
        return short;
    }
    let query = id_after_exec(u.as_slice(), "v=", '&');
    if query.is_some() {
        return query;
    }
    id_after_exec(u.as_slice(), "embed/", '?')
}

/// Converts any YouTube link into its embed address.
pub fn get_embed_url(url: &str) -> (r: Option<String>)
    ensures
        opt_view(r) == embed_url_of(url@),
        r is Some <==> video_id(url@) is Some,
{
    match extract_video_id(url) {
        Some(id) => {
            let mut r = "https://www.youtube.com/embed/".to_owned();
            r.append(id.as_str());
            Some(r)
        },
        None => None,
    }
}

/// The responsive 16:9 `<iframe>` player markup for any YouTube link.
pub fn get_embed_html(url: &str) -> (r: Option<String>)
    ensures
        r is Some <==> video_id(url@) is Some,
        r matches Some(h) ==> h@ == embed_html(embed_url_of(url@)->Some_0),
{
    match get_embed_url(url) {
        Some(embed) => {
            let mut h = EMBED_HTML_HEAD.to_owned();
            h.append(embed.as_str());
            h.append(EMBED_HTML_TAIL);
            Some(h)
        },
        None => None,
    }
}

// ---------------------------------------------------------------------------
// Laws
// ---------------------------------------------------------------------------

/// The embed address prefix holds no `youtu.be/` and no `v=`, and its only `embed/`
/// starts at position 24.
proof fn lemma_embed_prefix_searches(id: Seq<char>)
    requires
        find(id, "youtu.be/"@) is None,
        find(id, "v="@) is None,
    ensures
        find(embed_url(id), "youtu.be/"@) is None,
        find(embed_url(id), "v="@) is None,
        find(embed_url(id), "embed/"@) == Some(24int),
{
    let pre = "https://www.youtube.com/embed/"@;
    reveal_strlit("https://www.youtube.com/embed/");
    reveal_strlit("youtu.be/");
    reveal_strlit("v=");
    reveal_strlit("embed/");
    let s = pre + id;
    assert(pre.len() == 30);
    lemma_find(id, "youtu.be/"@);
    lemma_find(id, "v="@);
    lemma_find(s, "youtu.be/"@);
    lemma_find(s, "v="@);
    assert forall|j: int| !#[trigger] occurs_at(s, "youtu.be/"@, j) by {
        if occurs_at(s, "youtu.be/"@, j) {
            if j >= 30 {
                lemma_occurs_in_suffix(pre, id, "youtu.be/"@, j);
            } else {
                assert(s.subrange(j, j + 9)[0] == 'y');
                assert(pre[j] == 'y');
                assert(j == 12);
                assert(s.subrange(j, j + 9)[5] == '.');
            }
        }
    }
    assert forall|j: int| !#[trigger] occurs_at(s, "v="@, j) by {
        if occurs_at(s, "v="@, j) {
            if j >= 30 {
                lemma_occurs_in_suffix(pre, id, "v="@, j);
            } else {
                assert(s.subrange(j, j + 2)[0] == 'v');
                assert(pre[j] == 'v');
            }
        }
    }
    assert(s.subrange(24, 30) =~= "embed/"@);
    assert forall|j: int| 0 <= j < 24 implies !#[trigger] occurs_at(s, "embed/"@, j) by {
        if occurs_at(s, "embed/"@, j) {
            assert(s.subrange(j, j + 6)[0] == 'e');
            assert(pre[j] == 'e');
            assert(j == 18);
            assert(s.subrange(j, j + 6)[1] == 'm');
        }
    }
    lemma_find_is(s, "embed/"@, 24);
}

/// Law: an embed address names the same video it was built from, for every id
/// that holds no `?`, no `v=` and no `youtu.be/`.
pub proof fn law_embed_url_names_same_video(id: Seq<char>)
    requires
        id.len() > 0,
        first_index_of(id, '?') is None,
        find(id, "v="@) is None,
        find(id, "youtu.be/"@) is None,
    ensures
        video_id(embed_url(id)) == Some(id),
{
    lemma_embed_prefix_searches(id);
    reveal_strlit("https://www.youtube.com/embed/");
    reveal_strlit("embed/");
    let s = embed_url(id);
    assert(s.skip(30) =~= id);
}

/// Law: a link whose query holds `v=ID` names the video `ID`, whether `v=` is the
/// first query parameter or a later one (after `&`), for every `ID` that is nonempty,
/// holds no `&` and is followed by the end of the link or by `&`, when no `v=` comes
/// earlier in the link and the link holds no `youtu.be/` short form.
pub proof fn law_query_link_names_video(before: Seq<char>, id: Seq<char>, rest: Seq<char>)
    requires
        find(before + "v="@ + id + rest, "youtu.be/"@) is None,
        find(before, "v="@) is None,
        id.len() > 0,
        first_index_of(id, '&') is None,
        rest.len() == 0 || rest[0] == '&',
    ensures
        video_id(before + "v="@ + id + rest) == Some(id),
{
    reveal_strlit("v=");
    let v = "v="@;
    let after = v + id + rest;
    let url = before + v + id + rest;
    assert(url =~= before + after);
    let n: int = before.len() as int;
    assert(url.subrange(n, n + 2) =~= v);
    lemma_find(before, v);
    assert forall|j: int| 0 <= j < n implies !#[trigger] occurs_at(url, v, j) by {
        if occurs_at(url, v, j) {
            if j + 2 <= n {
                lemma_occurs_in_prefix(before, after, v, j);
            } else {
                assert(url.subrange(j, j + 2)[1] == '=');
                assert(url[n] == 'v');
            }
        }
    }
    lemma_find_is(url, v, n);
    assert(url.skip(n + 2) =~= id + rest);
    lemma_before_stop(id, rest, '&');
}

/// Law: a short link `youtu.be/ID` names the video `ID`, whatever comes before it, for
/// every `ID` that is nonempty, holds no `?` and is followed by the end of the link or
/// by a `?` query, when no `youtu.be/` comes earlier in the link.
pub proof fn law_short_link_names_video(before: Seq<char>, id: Seq<char>, rest: Seq<char>)
    requires
        find(before, "youtu.be/"@) is None,
        id.len() > 0,
        first_index_of(id, '?') is None,
        rest.len() == 0 || rest[0] == '?',
    ensures
        video_id(before + "youtu.be/"@ + id + rest) == Some(id),
{
    reveal_strlit("youtu.be/");
    let p = "youtu.be/"@;
    let after = p + id + rest;
    let url = before + p + id + rest;
    assert(url =~= before + after);
    let n: int = before.len() as int;
    assert(url.subrange(n, n + 9) =~= p);
    lemma_find(before, p);
    assert forall|j: int| 0 <= j < n implies !#[trigger] occurs_at(url, p, j) by {
        if occurs_at(url, p, j) {
            if j + 9 <= n {
                lemma_occurs_in_prefix(before, after, p, j);
            } else {
                let k = n - j;
                assert(url.subrange(j, j + 9)[k] == url[n]);
                assert(url[n] == 'y');
                assert(1 <= k <= 8);
                assert(p[k] != 'y') by {
                    if k == 1 {
                    } else if k == 2 {
                    } else if k == 3 {
                    } else if k == 4 {
                    } else if k == 5 {
                    } else if k == 6 {
                    } else if k == 7 {
                    } else {
                    }
                }
            }
        }
    }
    lemma_find_is(url, p, n);
    assert(url.skip(n + 9) =~= id + rest);
    lemma_before_stop(id, rest, '?');
}

/// Law: an embed link `embed/ID` names the video `ID`, for every `ID` that is nonempty,
/// holds no `?` and is followed by the end of the link or by a `?` query, when the link
/// holds neither a `youtu.be/` short form nor a `v=` query and no `embed/` comes earlier.
pub proof fn law_embed_link_names_video(before: Seq<char>, id: Seq<char>, rest: Seq<char>)
    requires
        find(before + "embed/"@ + id + rest, "youtu.be/"@) is None,
        find(before + "embed/"@ + id + rest, "v="@) is None,
        find(before, "embed/"@) is None,
        id.len() > 0,
        first_index_of(id, '?') is None,
        rest.len() == 0 || rest[0] == '?',
    ensures
        video_id(before + "embed/"@ + id + rest) == Some(id),
{
    reveal_strlit("embed/");
    let p = "embed/"@;
    let after = p + id + rest;
    let url = before + p + id + rest;
    assert(url =~= before + after);
    let n: int = before.len() as int;
    assert(url.subrange(n, n + 6) =~= p);
    lemma_find(before, p);
    assert forall|j: int| 0 <= j < n implies !#[trigger] occurs_at(url, p, j) by {
        if occurs_at(url, p, j) {
            if j + 6 <= n {
                lemma_occurs_in_prefix(before, after, p, j);
            } else {
                let k = n - j;
                assert(url.subrange(j, j + 6)[k] == url[n]);
                assert(url[n] == 'e');
                assert(1 <= k <= 5);
                if k == 3 {
                    assert(url.subrange(j, j + 6)[4] == url[n + 1]);
                    assert(url[n + 1] == 'm');
                } else {
                    assert(p[k] != 'e') by {
                        if k == 1 {
                        } else if k == 2 {
                        } else if k == 4 {
                        } else {
                        }
                    }
                }
            }
        }
    }
    lemma_find_is(url, p, n);
    assert(url.skip(n + 6) =~= id + rest);
    lemma_before_stop(id, rest, '?');
}

/// Law: turning a link into its embed address twice gives the same address as
/// once, whenever the video id holds no `?`, no `v=` and no `youtu.be/`.
pub proof fn law_embed_url_idempotent(url: Seq<char>)
    requires
        video_id(url) is Some,
        first_index_of(video_id(url)->Some_0, '?') is None,
        find(video_id(url)->Some_0, "v="@) is None,
        find(video_id(url)->Some_0, "youtu.be/"@) is None,
    ensures
        embed_url_of(embed_url_of(url)->Some_0) == embed_url_of(url),
{
    law_embed_url_names_same_video(video_id(url)->Some_0);
}

} // verus!
