//! Request handling for the preview server: the file a request path names under `site/`
//! and the content type it is served with.

use vstd::prelude::*;
use vstd::string::StringExecFns;
use crate::text::{
    before_char, chars_of, ends_with, ends_with_exec, first_index_exec,
    first_index_of, lemma_before_stop, lemma_first_index_of, lemma_trim_char_start, string_of,
    trim_char_start,
};

verus! {

broadcast use vstd::string::group_string_axioms;

/// The path under `site/` that a request URL names: the query (from the first `?`) is
/// dropped, a path ending in `/` gets `index.html` appended, and leading `/` are removed.
pub open spec fn request_path_spec(url: Seq<char>) -> Seq<char> {
    let path = before_char(url, '?');
    let path = if ends_with(path, "/"@) {
        path + "index.html"@
    } else {
        path
    };
    trim_char_start(path, '/')
}

/// The content type for a file extension: CSS and HTML are named, anything else is
/// served as bytes.
pub open spec fn content_type_spec(ext: Option<Seq<char>>) -> Seq<char> {
    if ext == Some("css"@) {
        "text/css; charset=utf-8"@
    } else if ext == Some("html"@) {
        "text/html; charset=utf-8"@
    } else {
        "application/octet-stream"@
    }
}

/// The path under `site/` that a request URL names.
pub fn request_relative_path(url: &str) -> (r: String)
    ensures
        r@ == request_path_spec(url@),
{
    let u = chars_of(url);
    let end = match first_index_exec(u.as_slice(), '?') {
        Some(k) => k,
        None => u.len(),
    };
    proof {
        lemma_first_index_of(u@, '?');
    }
    let mut path = string_of(u.as_slice(), 0, end);
    assert(path@ =~= before_char(url@, '?'));
    let p = chars_of(path.as_str());
    let slash = chars_of("/");
    if ends_with_exec(p.as_slice(), slash.as_slice()) {
        path.append("index.html");
    }
    let q = chars_of(path.as_str());
    let n = q.len();
    let mut a: usize = 0;
    assert(q@.subrange(0, n as int) =~= q@);
    while a < n && q[a] == '/'
        invariant
            a <= n == q@.len(),
            trim_char_start(q@, '/') == trim_char_start(q@.subrange(a as int, n as int), '/'),
        decreases n - a,
    {
        assert(q@.subrange(a as int, n as int).drop_first() =~= q@.subrange(a + 1, n as int));
        a += 1;
    }
    string_of(q.as_slice(), a, n)
}

/// The content type for a file extension.
pub fn content_type_for(ext: Option<&str>) -> (r: &'static str)
    ensures
        r@ == content_type_spec(
            match ext {
                Some(e) => Some(e@),
                None => None,
            },
        ),
{
    match ext {
        Some(e) => {
            let c = chars_of(e);
            let css = chars_of("css");
            let html = chars_of("html");
            if seq_eq(c.as_slice(), css.as_slice()) {
                "text/css; charset=utf-8"
            } else if seq_eq(c.as_slice(), html.as_slice()) {
                "text/html; charset=utf-8"
            } else {
                "application/octet-stream"
            }
        },
        None => "application/octet-stream",
    }
}

/// Whether two character sequences are equal.
fn seq_eq(a: &[char], b: &[char]) -> (r: bool)
    ensures
        r == (a@ == b@),
{
    if a.len() != b.len() {
        return false;
    }
    let mut i: usize = 0;
    while i < a.len()
        invariant
            a@.len() == b@.len(),
            i <= a@.len(),
            forall|k: int| 0 <= k < i ==> a@[k] == b@[k],
        decreases a.len() - i,
    {
        if a[i] != b[i] {
            return false;
        }
        i += 1;
    }
    assert(a@ =~= b@);
    true
}


/// Law: a request for `/p`, with or without a `?` query after it, names the file `p`
/// under `site/`; when `p` is empty or ends with `/` it names `p` followed by
/// `index.html`. Here `p` holds no `?` and does not begin with `/`.
pub proof fn law_request_path_names_file(p: Seq<char>, query: Seq<char>)
    requires
        first_index_of(p, '?') is None,
        p.len() > 0 ==> p[0] != '/',
        query.len() == 0 || query[0] == '?',
    ensures
        request_path_spec("/"@ + p + query) == if p.len() == 0 || p.last() == '/' {
            p + "index.html"@
        } else {
            p
        },
{
    reveal_strlit("/");
    reveal_strlit("index.html");
    let sp = "/"@ + p;
    assert(sp[0] == '/');
    lemma_first_index_of(p, '?');
    assert forall|j: int| 0 <= j < sp.len() implies sp[j] != '?' by {
        if j > 0 {
            assert(sp[j] == p[j - 1]);
        }
    }
    lemma_first_index_of(sp, '?');
    lemma_before_stop(sp, query, '?');
    assert("/"@ + p + query =~= sp + query);
    assert("/"@ =~= seq!['/']);
    if p.len() > 0 {
        assert(sp[sp.len() - 1] == p[p.len() - 1]);
    }
    let x = if p.len() == 0 || p.last() == '/' {
        p + "index.html"@
    } else {
        p
    };
    let path = if ends_with(sp, "/"@) {
        sp + "index.html"@
    } else {
        sp
    };
    assert(sp.skip(sp.len() - 1) =~= seq![sp.last()]);
    assert(ends_with(sp, "/"@) == (p.len() == 0 || p.last() == '/'));
    assert(path =~= "/"@ + x);
    assert(path[0] == '/');
    assert(path.drop_first() =~= x);
    if x.len() > 0 {
        if p.len() > 0 {
            assert(x[0] == p[0]);
        } else {
            assert(x[0] == "index.html"@[0]);
        }
    }
    assert(trim_char_start(x, '/') == x);
}

/// Law: the file path of a request never begins with `/` and holds no `?`; a request
/// for a directory (a path ending in `/`) names its `index.html`.
pub proof fn law_request_path_shape(url: Seq<char>)
    ensures
        request_path_spec(url).len() > 0 ==> request_path_spec(url)[0] != '/',
        forall|j: int|
            0 <= j < request_path_spec(url).len() ==> #[trigger] request_path_spec(url)[j] != '?',
        ends_with(before_char(url, '?'), "/"@) ==> ends_with(request_path_spec(url), "index.html"@),
{
    reveal_strlit("/");
    reveal_strlit("index.html");
    lemma_first_index_of(url, '?');
    let p = before_char(url, '?');
    assert forall|j: int| 0 <= j < p.len() implies p[j] != '?' by {
        match first_index_of(url, '?') {
            Some(k) => assert(p[j] == url[j]),
            None => {},
        }
    }
    let idx = "index.html"@;
    let p2 = if ends_with(p, "/"@) {
        p + idx
    } else {
        p
    };
    assert forall|j: int| 0 <= j < p2.len() implies p2[j] != '?' by {
        if j >= p.len() {
            assert(p2[j] == idx[j - p.len()]);
        }
    }
    let k = lemma_trim_char_start(p2, '/');
    let r = p2.skip(k);
    assert(r == request_path_spec(url));
    assert forall|j: int| 0 <= j < r.len() implies #[trigger] r[j] != '?' by {
        assert(r[j] == p2[j + k]);
    }
    if ends_with(p, "/"@) {
        if k > p.len() {
            assert(p2[p.len() as int] == '/');
            assert(p2[p.len() as int] == idx[0]);
        }
        assert(r.skip(r.len() - 10) =~= idx);
    }
}

} // verus!
