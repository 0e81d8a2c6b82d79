//! Request handling rules of the local preview server: which file a request
//! target names, and which content type the response carries.

use vstd::prelude::*;

use crate::text::{
    contains_char, find_last_char, is_last, last_index, same_text, strings_view,
};

verus! {

/// Arguments of `serve`: the directory to serve and the port to bind on
/// 127.0.0.1 (0 picks a free port).
#[derive(Clone, Debug)]
pub struct ServeArgs {
    pub dir: String,
    pub port: u16,
}

/// A character that ends the path part of a request target.
pub open spec fn is_path_end(c: char) -> bool {
    c == '?' || c == '#'
}

/// `i` is the position of the first `?` or `#` of `t`.
pub open spec fn is_first_path_end(t: Seq<char>, i: int) -> bool {
    &&& 0 <= i < t.len()
    &&& is_path_end(t[i])
    &&& forall|j: int| 0 <= j < i ==> !is_path_end(t[j])
}

/// `target.split(['?', '#']).next()`: the target up to its query or fragment.
pub open spec fn target_path(t: Seq<char>) -> Seq<char> {
    if exists|i: int| is_first_path_end(t, i) {
        t.take(choose|i: int| is_first_path_end(t, i))
    } else {
        t
    }
}

/// Left-to-right scan of a path: the non-empty segments closed by a `/` so
/// far, and the characters read since the last `/`.
pub open spec fn scan_segments(p: Seq<char>) -> (Seq<Seq<char>>, Seq<char>)
    decreases p.len(),
{
    if p.len() == 0 {
        (Seq::empty(), Seq::empty())
    } else {
        let (done, cur) = scan_segments(p.drop_last());
        if p.last() == '/' {
            (
                if cur.len() > 0 {
                    done.push(cur)
                } else {
                    done
                },
                Seq::empty(),
            )
        } else {
            (done, cur.push(p.last()))
        }
    }
}

/// `p.split('/').filter(|s| !s.is_empty())`.
pub open spec fn segments(p: Seq<char>) -> Seq<Seq<char>> {
    let (done, cur) = scan_segments(p);
    if cur.len() > 0 {
        done.push(cur)
    } else {
        done
    }
}

/// A segment that could leave the served directory or hide a file:
/// it starts with `.` or holds a backslash.
pub open spec fn is_rejected_segment(seg: Seq<char>) -> bool {
    (seg.len() > 0 && seg[0] == '.') || seg.contains('\\')
}

/// `PathBuf::push` of a relative segment without separators.
pub open spec fn join_segment(base: Seq<char>, seg: Seq<char>) -> Seq<char> {
    if base.len() == 0 || base.last() == '/' {
        base + seg
    } else {
        base + "/"@ + seg
    }
}

/// `base` with each segment pushed in order.
pub open spec fn join_all(base: Seq<char>, segs: Seq<Seq<char>>) -> Seq<char>
    decreases segs.len(),
{
    if segs.len() == 0 {
        base
    } else {
        join_segment(join_all(base, segs.drop_last()), segs.last())
    }
}

/// The file below `dir` that a request target names, or `None` when one of
/// its segments is rejected.
pub open spec fn resolve_spec(dir: Seq<char>, target: Seq<char>) -> Option<Seq<char>> {
    let segs = segments(target_path(target));
    if exists|i: int| 0 <= i < segs.len() && #[trigger] is_rejected_segment(segs[i]) {
        None
    } else {
        Some(join_all(dir, segs))
    }
}

/// `path.rsplit('.').next()`: the text after the last `.`, or all of it.
pub open spec fn extension(p: Seq<char>) -> Seq<char> {
    if p.contains('.') {
        p.skip(last_index(p, '.') + 1)
    } else {
        p
    }
}

/// The content type served for a target, by the extension of its path.
pub open spec fn content_type_spec(target: Seq<char>) -> Seq<char> {
    let ext = extension(target_path(target));
    if ext == "css"@ {
        "text/css; charset=utf-8"@
    } else if ext == "js"@ {
        "text/javascript; charset=utf-8"@
    } else if ext == "json"@ {
        "application/json"@
    } else if ext == "svg"@ {
        "image/svg+xml"@
    } else if ext == "png"@ {
        "image/png"@
    } else {
        "text/html; charset=utf-8"@
    }
}

/// The path part of a request target: everything before its first `?` or `#`.
pub fn request_path(target: &str) -> (r: &str)
    ensures
        r@ == target_path(target@),
{
    let n = target.unicode_len();
    let mut i: usize = 0;
    while i < n
        invariant
            n == target@.len(),
            i <= n,
            forall|j: int| 0 <= j < i ==> !is_path_end(target@[j]),
        decreases n - i,
    {
        let c = target.get_char(i);
        if c == '?' || c == '#' {
            assert(is_first_path_end(target@, i as int));
            assert(forall|k: int| is_first_path_end(target@, k) ==> k == i) by {
                assert forall|k: int| is_first_path_end(target@, k) implies k == i by {
                    if k < i {
                        assert(!is_path_end(target@[k]));
                    }
                    if i < k {
                        assert(!is_path_end(target@[i as int]));
                    }
                }
            }
            let r = target.substring_char(0, i);
            assert(r@ =~= target@.take(i as int));
            return r;
        }
        i = i + 1;
    }
    assert(!exists|k: int| is_first_path_end(target@, k));
    let r = target.substring_char(0, n);
    assert(r@ =~= target@);
    r
}

/// The non-empty `/`-separated segments of `path`, in order.
pub fn path_segments(path: &str) -> (r: Vec<String>)
    ensures
        strings_view(r@) == segments(path@),
{
    let n = path.unicode_len();
    let mut out: Vec<String> = Vec::new();
    let mut start: usize = 0;
    let mut i: usize = 0;
    assert(path@.take(0) =~= Seq::<char>::empty());
    assert(strings_view(out@) =~= Seq::<Seq<char>>::empty());
    while i < n
        invariant
            n == path@.len(),
            start <= i <= n,
            scan_segments(path@.take(i as int)).0 == strings_view(out@),
            scan_segments(path@.take(i as int)).1 == path@.subrange(start as int, i as int),
        decreases n - i,
    {
        let c = path.get_char(i);
        let ghost prev = path@.take(i as int);
        let ghost cur = path@.subrange(start as int, i as int);
        assert(path@.take(i + 1).drop_last() =~= prev);
        assert(path@.take(i + 1).last() == c);
        if c == '/' {
            if start < i {
                let seg = String::from_str(path.substring_char(start, i));
                let ghost before = out@;
                out.push(seg);
                assert(strings_view(out@) =~= strings_view(before).push(seg@));
            }
            start = i + 1;
            assert(path@.subrange(start as int, i + 1) =~= Seq::<char>::empty());
        } else {
            assert(path@.subrange(start as int, i + 1) =~= cur.push(c));
        }
        i = i + 1;
    }
    assert(path@.take(n as int) =~= path@);
    if start < n {
        let seg = String::from_str(path.substring_char(start, n));
        let ghost before = out@;
        out.push(seg);
        assert(strings_view(out@) =~= strings_view(before).push(seg@));
    }
    out
}

/// Whether a segment is refused: it starts with `.` or holds a backslash.
pub fn rejected_segment(seg: &str) -> (r: bool)
    ensures
        r == is_rejected_segment(seg@),
{
    (seg.unicode_len() > 0 && seg.get_char(0) == '.') || contains_char(seg, '\\')
}

/// Pushes `seg` onto `base` as `PathBuf::push` does for a relative segment.
pub fn push_segment(base: &mut String, seg: &str)
    ensures
        final(base)@ == join_segment(old(base)@, seg@),
{
    let n = base.unicode_len();
    if n > 0 && base.as_str().get_char(n - 1) != '/' {
        base.append("/");
    }
    base.append(seg);
}

/// Maps a request target to a file under `dir`. Rejects every dot segment so
/// requests cannot escape `dir` (encoded forms like %2e stay literal because
/// targets are not percent-decoded). A caller that finds a directory there
/// serves its `index.html` (see `index_fallback`).
pub fn resolve(dir: &str, target: &str) -> (r: Option<String>)
    ensures
        r matches Some(p) ==> resolve_spec(dir@, target@) == Some(p@),
        r is None ==> resolve_spec(dir@, target@) is None,
{
    let path = request_path(target);
    let segs = path_segments(path);
    let ghost view = strings_view(segs@);
    let n = segs.len();
    let mut resolved = String::from_str(dir);
    let mut i: usize = 0;
    assert(view.take(0) =~= Seq::<Seq<char>>::empty());
    while i < n
        invariant
            n == segs@.len(),
            view == strings_view(segs@),
            view == segments(target_path(target@)),
            i <= n,
            resolved@ == join_all(dir@, view.take(i as int)),
            forall|j: int| 0 <= j < i ==> !#[trigger] is_rejected_segment(view[j]),
        decreases n - i,
    {
        let seg = segs[i].as_str();
        assert(view[i as int] == seg@);
        if rejected_segment(seg) {
            return None;
        }
        push_segment(&mut resolved, seg);
        assert(view.take(i + 1).drop_last() =~= view.take(i as int));
        assert(view.take(i + 1).last() == seg@);
        i = i + 1;
    }
    assert(view.take(n as int) =~= view);
    Some(resolved)
}

/// A resolved path that names a directory serves that directory's
/// `index.html`.
pub fn index_fallback(path: String, is_dir: bool) -> (r: String)
    ensures
        r@ == (if is_dir {
            join_segment(path@, "index.html"@)
        } else {
            path@
        }),
{
    if is_dir {
        let mut p = path;
        push_segment(&mut p, "index.html");
        p
    } else {
        path
    }
}

/// The extension of a path: the text after its last `.`, or the whole path.
pub fn path_extension(path: &str) -> (r: &str)
    ensures
        r@ == extension(path@),
{
    let n = path.unicode_len();
    match find_last_char(path, '.') {
        Some(i) => {
            let r = path.substring_char(i + 1, n);
            assert(r@ =~= path@.skip(i + 1));
            r
        },
        None => {
            let r = path.substring_char(0, n);
            assert(r@ =~= path@);
            r
        },
    }
}

/// The `Content-Type` of the response to `target`, chosen by extension;
/// anything unknown is served as HTML.
pub fn content_type(target: &str) -> (r: &'static str)
    ensures
        r@ == content_type_spec(target@),
{
    let ext = path_extension(request_path(target));
    if same_text(ext, "css") {
        "text/css; charset=utf-8"
    } else if same_text(ext, "js") {
        "text/javascript; charset=utf-8"
    } else if same_text(ext, "json") {
        "application/json"
    } else if same_text(ext, "svg") {
        "image/svg+xml"
    } else if same_text(ext, "png") {
        "image/png"
    } else {
        "text/html; charset=utf-8"
    }
}

/// Pushing segments only ever extends the base path.
proof fn lemma_join_all_extends(base: Seq<char>, segs: Seq<Seq<char>>)
    ensures
        join_all(base, segs).len() >= base.len(),
        join_all(base, segs).subrange(0, base.len() as int) == base,
    decreases segs.len(),
{
    if segs.len() > 0 {
        let prev = join_all(base, segs.drop_last());
        lemma_join_all_extends(base, segs.drop_last());
        let next = join_all(base, segs);
        assert(next.subrange(0, prev.len() as int) =~= prev);
        assert(next.subrange(0, base.len() as int) =~= prev.subrange(0, base.len() as int));
    } else {
        assert(base.subrange(0, base.len() as int) =~= base);
    }
}

/// A request cannot escape the served directory: whatever `resolve` serves
/// lies below `dir` (the path starts with `dir`), and it is `dir` with the
/// target's segments pushed, none of which starts with `.` (so none is `.`
/// or `..`) or holds a backslash.
pub proof fn lemma_resolved_path_stays_below(dir: Seq<char>, target: Seq<char>)
    ensures
        resolve_spec(dir, target) matches Some(p) ==> {
            let segs = segments(target_path(target));
            &&& p.len() >= dir.len()
            &&& p.subrange(0, dir.len() as int) == dir
            &&& p == join_all(dir, segs)
            &&& forall|i: int| 0 <= i < segs.len() ==> !#[trigger] is_rejected_segment(segs[i])
        },
{
    lemma_join_all_extends(dir, segments(target_path(target)));
}

} // verus!

verus! {

/// The extension is the text after the last `.`: it holds no `.`, and when
/// the path holds a `.` the path is whatever comes before, a `.`, and the
/// extension; a path without `.` is its own extension.
pub proof fn lemma_extension_follows_the_last_dot(p: Seq<char>)
    ensures
        !extension(p).contains('.'),
        p.contains('.') ==> extension(p).len() < p.len() && p == p.take(
            p.len() - extension(p).len() - 1,
        ) + seq!['.'] + extension(p),
        !p.contains('.') ==> extension(p) == p,
{
    if p.contains('.') {
        let k = last_index(p, '.');
        let i0 = choose|i: int| 0 <= i < p.len() && p[i] == '.';
        lemma_some_last_dot(p, i0);
        assert(is_last(p, '.', k));
        let e = p.skip(k + 1);
        assert(p =~= p.take(p.len() - e.len() - 1) + seq!['.'] + e);
        if e.contains('.') {
            let j = choose|j: int| 0 <= j < e.len() && e[j] == '.';
            assert(p[k + 1 + j] == '.');
        }
    }
}

/// A sequence with a `.` at `i` has a last `.`.
proof fn lemma_some_last_dot(p: Seq<char>, i: int)
    requires
        0 <= i < p.len(),
        p[i] == '.',
    ensures
        exists|k: int| is_last(p, '.', k),
    decreases p.len() - i,
{
    if forall|j: int| i < j < p.len() ==> p[j] != '.' {
        assert(is_last(p, '.', i));
    } else {
        let j = choose|j: int| i < j < p.len() && p[j] == '.';
        lemma_some_last_dot(p, j);
    }
}

/// A target without `?` or `#` is all path.
pub proof fn lemma_target_without_query_is_its_path(t: Seq<char>)
    requires
        forall|i: int| 0 <= i < t.len() ==> #[trigger] t[i] != '?' && t[i] != '#',
    ensures
        target_path(t) == t,
{
    assert(!exists|i: int| is_first_path_end(t, i));
}

/// The query or fragment of a target plays no part: the path is the text
/// before the first `?` or `#`.
pub proof fn lemma_target_path_stops_at_query(q: Seq<char>, c: char, rest: Seq<char>)
    requires
        forall|i: int| 0 <= i < q.len() ==> #[trigger] q[i] != '?' && q[i] != '#',
        c == '?' || c == '#',
    ensures
        target_path(q + seq![c] + rest) == q,
{
    let t = q + seq![c] + rest;
    assert(is_first_path_end(t, q.len() as int)) by {
        assert forall|j: int| 0 <= j < q.len() implies !is_path_end(t[j]) by {
            assert(t[j] == q[j]);
        }
    }
    let k = choose|i: int| is_first_path_end(t, i);
    assert(is_first_path_end(t, k));
    if k < q.len() {
        assert(t[k] == q[k]);
    }
    if k > q.len() {
        assert(!is_path_end(t[q.len() as int]));
    }
    assert(t.take(q.len() as int) =~= q);
}

/// A path whose text after its last `.` is `ext` (which holds no `.`) has
/// `ext` as its extension, whatever comes before.
pub proof fn lemma_extension_of_suffix(q: Seq<char>, ext: Seq<char>)
    requires
        !ext.contains('.'),
    ensures
        extension(q + seq!['.'] + ext) == ext,
{
    let p = q + seq!['.'] + ext;
    let k = q.len() as int;
    assert(is_last(p, '.', k)) by {
        assert forall|j: int| k < j < p.len() implies p[j] != '.' by {
            assert(p[j] == ext[j - k - 1]);
        }
    }
    crate::text::lemma_last_index(p, '.', k);
    assert(p.skip(k + 1) =~= ext);
}

/// Every path ending in `.css`, `.js`, `.json`, `.svg` or `.png` before its
/// query gets the matching content type, whatever dots come earlier.
pub proof fn lemma_content_type_by_final_extension(q: Seq<char>)
    requires
        forall|i: int| 0 <= i < q.len() ==> #[trigger] q[i] != '?' && q[i] != '#',
    ensures
        content_type_spec(q + ".css"@) == "text/css; charset=utf-8"@,
        content_type_spec(q + ".js"@) == "text/javascript; charset=utf-8"@,
        content_type_spec(q + ".json"@) == "application/json"@,
        content_type_spec(q + ".svg"@) == "image/svg+xml"@,
        content_type_spec(q + ".png"@) == "image/png"@,
{
    reveal_strlit(".css");
    reveal_strlit(".js");
    reveal_strlit(".json");
    reveal_strlit(".svg");
    reveal_strlit(".png");
    reveal_strlit("css");
    reveal_strlit("js");
    reveal_strlit("json");
    reveal_strlit("svg");
    reveal_strlit("png");
    let exts = seq!["css"@, "js"@, "json"@, "svg"@, "png"@];
    assert forall|n: int| 0 <= n < 5 implies ({
        let t = q + seq!['.'] + #[trigger] exts[n];
        &&& target_path(t) == t
        &&& extension(t) == exts[n]
    }) by {
        let e = exts[n];
        let t = q + seq!['.'] + e;
        assert(!e.contains('.')) by {
            if e.contains('.') {
                let j = choose|j: int| 0 <= j < e.len() && e[j] == '.';
            }
        }
        assert forall|i: int| 0 <= i < t.len() implies #[trigger] t[i] != '?' && t[i] != '#' by {
            if i < q.len() {
                assert(t[i] == q[i]);
            }
        }
        lemma_target_without_query_is_its_path(t);
        lemma_extension_of_suffix(q, e);
    }
    assert(q + ".css"@ =~= q + seq!['.'] + exts[0]);
    assert(q + ".js"@ =~= q + seq!['.'] + exts[1]);
    assert(q + ".json"@ =~= q + seq!['.'] + exts[2]);
    assert(q + ".svg"@ =~= q + seq!['.'] + exts[3]);
    assert(q + ".png"@ =~= q + seq!['.'] + exts[4]);
    assert("svg"@[0] != "css"@[0] && "svg"@.len() != "js"@.len() && "svg"@.len() != "json"@.len());
    assert("png"@[0] != "css"@[0] && "png"@.len() != "js"@.len() && "png"@.len() != "json"@.len()
        && "png"@[0] != "svg"@[0]);
    assert(extension(target_path(q + ".svg"@)) == "svg"@);
    assert(extension(target_path(q + ".png"@)) == "png"@);
}

} // verus!

verus! {

/// `/s1/s2/.../sn`: the segments written as a request path.
pub open spec fn slash_path(segs: Seq<Seq<char>>) -> Seq<char>
    decreases segs.len(),
{
    if segs.len() == 0 {
        Seq::empty()
    } else {
        slash_path(segs.drop_last()) + seq!['/'] + segs.last()
    }
}

/// Reading on through text without `/` only extends the open segment.
proof fn lemma_scan_segments_no_slash(t: Seq<char>, w: Seq<char>)
    requires
        forall|i: int| 0 <= i < w.len() ==> #[trigger] w[i] != '/',
    ensures
        scan_segments(t + w) == (scan_segments(t).0, scan_segments(t).1 + w),
    decreases w.len(),
{
    if w.len() == 0 {
        assert(t + w =~= t);
        assert(scan_segments(t).1 + w =~= scan_segments(t).1);
    } else {
        let w0 = w.drop_last();
        assert forall|i: int| 0 <= i < w0.len() implies #[trigger] w0[i] != '/' by {
            assert(w0[i] == w[i]);
        }
        lemma_scan_segments_no_slash(t, w0);
        assert((t + w).drop_last() =~= t + w0);
        assert((t + w).last() == w.last());
        assert(scan_segments(t).1 + w0 + seq![w.last()] =~= scan_segments(t).1 + w);
    }
}

proof fn lemma_scan_slash_path(segs: Seq<Seq<char>>)
    requires
        forall|i: int| 0 <= i < segs.len() ==> (#[trigger] segs[i]).len() > 0,
        forall|i: int, j: int| 0 <= i < segs.len() && 0 <= j < segs[i].len() ==> #[trigger] segs[i][j] != '/',
    ensures
        scan_segments(slash_path(segs)) == (if segs.len() == 0 {
            (Seq::<Seq<char>>::empty(), Seq::<char>::empty())
        } else {
            (segs.drop_last(), segs.last())
        }),
    decreases segs.len(),
{
    if segs.len() > 0 {
        let init = segs.drop_last();
        let last = segs.last();
        assert forall|i: int| 0 <= i < init.len() implies (#[trigger] init[i]).len() > 0 by {
            assert(init[i] == segs[i]);
        }
        assert forall|i: int, j: int| 0 <= i < init.len() && 0 <= j < init[i].len() implies #[trigger] init[i][j] != '/' by {
            assert(init[i] == segs[i]);
        }
        lemma_scan_slash_path(init);
        let head = slash_path(init) + seq!['/'];
        assert(head.drop_last() =~= slash_path(init));
        assert(head.last() == '/');
        if init.len() > 0 {
            assert(init.drop_last().push(init.last()) =~= init);
        }
        assert(scan_segments(head) == (init, Seq::<char>::empty()));
        assert forall|j: int| 0 <= j < last.len() implies #[trigger] last[j] != '/' by {
            assert(segs[segs.len() - 1][j] == last[j]);
        }
        lemma_scan_segments_no_slash(head, last);
        assert(Seq::<char>::empty() + last =~= last);
        assert(slash_path(segs) == head + last);
    }
}

/// Writing segments as a path and splitting it again gives them back: for
/// non-empty segments without `/`, `segments(/s1/.../sn) == [s1, ..., sn]`.
pub proof fn lemma_segments_of_slash_path(segs: Seq<Seq<char>>)
    requires
        forall|i: int| 0 <= i < segs.len() ==> (#[trigger] segs[i]).len() > 0,
        forall|i: int, j: int| 0 <= i < segs.len() && 0 <= j < segs[i].len() ==> #[trigger] segs[i][j] != '/',
    ensures
        segments(slash_path(segs)) == segs,
{
    lemma_scan_slash_path(segs);
    if segs.len() > 0 {
        assert(segs.drop_last().push(segs.last()) =~= segs);
    }
}

/// What `resolve` refuses, and what it serves otherwise: it answers `None`
/// exactly when some segment of the target's path starts with `.` or holds a
/// backslash; otherwise it answers `dir` with the segments pushed in order.
pub proof fn lemma_resolve_refuses_only_dot_and_backslash(dir: Seq<char>, target: Seq<char>)
    ensures
        ({
            let segs = segments(target_path(target));
            &&& (forall|i: int|
                0 <= i < segs.len() ==> !((#[trigger] segs[i]).len() > 0 && segs[i][0] == '.')
                    && (forall|j: int| 0 <= j < segs[i].len() ==> segs[i][j] != '\\'))
                ==> resolve_spec(dir, target) == Some(join_all(dir, segs))
            &&& (exists|i: int, j: int|
                0 <= i < segs.len() && 0 <= j < segs[i].len() && ((j == 0 && #[trigger] segs[i][j]
                    == '.') || segs[i][j] == '\\')) ==> resolve_spec(dir, target) is None
        }),
{
    let segs = segments(target_path(target));
    if forall|i: int|
        0 <= i < segs.len() ==> !((#[trigger] segs[i]).len() > 0 && segs[i][0] == '.') && (forall|
            j: int,
        | 0 <= j < segs[i].len() ==> segs[i][j] != '\\') {
        assert forall|i: int| 0 <= i < segs.len() implies !#[trigger] is_rejected_segment(segs[i]) by {
            if segs[i].contains('\\') {
                let j = choose|j: int| 0 <= j < segs[i].len() && segs[i][j] == '\\';
            }
        }
    }
    if exists|i: int, j: int|
        0 <= i < segs.len() && 0 <= j < segs[i].len() && ((j == 0 && #[trigger] segs[i][j] == '.')
            || segs[i][j] == '\\') {
        let (i, j) = choose|i: int, j: int|
            0 <= i < segs.len() && 0 <= j < segs[i].len() && ((j == 0 && #[trigger] segs[i][j]
                == '.') || segs[i][j] == '\\');
        assert(is_rejected_segment(segs[i]));
    }
}

/// Every plain request path is served: for non-empty segments that hold no
/// `/`, `?`, `#` or backslash and do not start with `.`, the target
/// `/s1/.../sn` resolves to `dir` with `s1`, ..., `sn` pushed in order.
pub proof fn lemma_resolve_serves_plain_paths(dir: Seq<char>, segs: Seq<Seq<char>>)
    requires
        forall|i: int| 0 <= i < segs.len() ==> (#[trigger] segs[i]).len() > 0 && segs[i][0] != '.',
        forall|i: int, j: int|
            0 <= i < segs.len() && 0 <= j < segs[i].len() ==> #[trigger] segs[i][j] != '/'
                && segs[i][j] != '?' && segs[i][j] != '#' && segs[i][j] != '\\',
    ensures
        resolve_spec(dir, slash_path(segs)) == Some(join_all(dir, segs)),
{
    lemma_no_query_in_slash_path(segs);
    lemma_target_without_query_is_its_path(slash_path(segs));
    lemma_segments_of_slash_path(segs);
    lemma_resolve_refuses_only_dot_and_backslash(dir, slash_path(segs));
}

proof fn lemma_no_query_in_slash_path(segs: Seq<Seq<char>>)
    requires
        forall|i: int, j: int|
            0 <= i < segs.len() && 0 <= j < segs[i].len() ==> #[trigger] segs[i][j] != '?'
                && segs[i][j] != '#',
    ensures
        forall|k: int|
            0 <= k < slash_path(segs).len() ==> #[trigger] slash_path(segs)[k] != '?'
                && slash_path(segs)[k] != '#',
    decreases segs.len(),
{
    if segs.len() > 0 {
        let init = segs.drop_last();
        assert forall|i: int, j: int| 0 <= i < init.len() && 0 <= j < init[i].len() implies #[trigger] init[i][j] != '?' && init[i][j] != '#' by {
            assert(init[i] == segs[i]);
        }
        lemma_no_query_in_slash_path(init);
        let p = slash_path(segs);
        let h = slash_path(init);
        let last = segs.last();
        assert(p == h + seq!['/'] + last);
        assert forall|k: int| 0 <= k < p.len() implies #[trigger] p[k] != '?' && p[k] != '#' by {
            if k < h.len() {
                assert(p[k] == h[k]);
            } else if k > h.len() {
                assert(p[k] == last[k - h.len() - 1]);
                assert(segs[segs.len() - 1][k - h.len() - 1] == last[k - h.len() - 1]);
            }
        }
    }
}

} // verus!
