//! Searches over files that do not change.

use vstd::prelude::*;

use crate::file_controller::file_cache::{file_shown, fresh_lines, highlights, is_rust, CacheView};
use crate::file_controller::outcome::{
    file_path, files_shown, line_of, line_shown, lines_found, span_line, span_shown, spans_shown,
};
use crate::file_controller::results::{
    grouped, law_order_of_finding_is_irrelevant, FileView, FoundView, LineView,
};
use crate::file_controller::span::SpanView;
use crate::file_controller::vfs::{disk_gives, ContentsView};
use crate::path::path_components;

verus! {

/// The paths under which the files of spans are shown.
pub open spec fn shown_paths(project_dir: Seq<char>, spans: Seq<SpanView>) -> Set<Seq<char>> {
    Set::new(
        |path: Seq<char>|
            exists|i: int| 0 <= i < spans.len() && path == file_path(project_dir, (#[trigger] spans[i]).file),
    )
}

/// Whether files do not change: the disk gives the same for a path, and the
/// highlighter makes the same of a text, each time and under each of the paths by
/// which the file goes.
pub open spec fn are_steady<F: Fn(String, String) -> String>(
    highlighter: F,
    paths: Set<Seq<char>>,
) -> bool {
    forall|p: Seq<char>, q: Seq<char>| #[trigger]
        paths.contains(p) && #[trigger] paths.contains(q) && path_components(p) == path_components(q)
            ==> is_one_file(highlighter, p, q)
}

/// Whether two paths stand for one file that does not change.
pub open spec fn is_one_file<F: Fn(String, String) -> String>(
    highlighter: F,
    p: Seq<char>,
    q: Seq<char>,
) -> bool {
    &&& forall|a: Option<ContentsView>, b: Option<ContentsView>| #[trigger]
        disk_gives(p, a) && #[trigger] disk_gives(q, b) ==> a == b
    &&& forall|text: Seq<char>, a: Seq<char>, b: Seq<char>| #[trigger]
        highlights(highlighter, p, text, a) && #[trigger] highlights(highlighter, q, text, b) ==> a == b
}

// --------------------------------------------------------------------------
// What a cache has learned of a file
// --------------------------------------------------------------------------

/// Whether the disk may give these contents under one of the paths of a file.
spec fn file_gives(paths: Set<Seq<char>>, file: Seq<Seq<char>>, contents: ContentsView) -> bool {
    exists|p: Seq<char>|
        paths.contains(p) && path_components(p) == file && #[trigger] disk_gives(p, Some(contents))
}

/// Whether these lines may be shown under one of the paths of a file.
spec fn file_shows<F: Fn(String, String) -> String>(
    highlighter: F,
    paths: Set<Seq<char>>,
    file: Seq<Seq<char>>,
    text: Seq<char>,
    lines: Seq<Seq<char>>,
) -> bool {
    exists|p: Seq<char>|
        paths.contains(p) && path_components(p) == file && #[trigger] fresh_lines(
            highlighter,
            p,
            text,
            lines,
        )
}

/// Whether a cache holds of a file what it held at the start, and else what the
/// disk and the highlighter give.
spec fn path_follows<F: Fn(String, String) -> String>(
    highlighter: F,
    paths: Set<Seq<char>>,
    start: CacheView,
    cache: CacheView,
    path: Seq<char>,
) -> bool {
    let file = path_components(path);
    &&& start.files.contains_key(file) ==> cache.files.contains_key(file) && cache.files[file]
        == start.files[file]
    &&& cache.files.contains_key(file) && !start.files.contains_key(file) ==> file_gives(
        paths,
        file,
        cache.files[file],
    )
    &&& start.is_shown(path) ==> cache.is_shown(path) && cache.shown[file] == start.shown[file]
    &&& cache.is_shown(path) && !start.is_shown(path) ==> cache.files.contains_key(file) && (
    cache.files[file] matches ContentsView::Text(text) && file_shows(
        highlighter,
        paths,
        file,
        text,
        cache.shown[file],
    ))
}

spec fn all_follow<F: Fn(String, String) -> String>(
    highlighter: F,
    paths: Set<Seq<char>>,
    start: CacheView,
    cache: CacheView,
) -> bool {
    forall|path: Seq<char>| #[trigger]
        paths.contains(path) ==> path_follows(highlighter, paths, start, cache, path)
}

proof fn lemma_showing_follows<F: Fn(String, String) -> String>(
    highlighter: F,
    paths: Set<Seq<char>>,
    start: CacheView,
    cache: CacheView,
    after: CacheView,
    path: Seq<char>,
    shown: Seq<char>,
    r: Result<Seq<Seq<char>>, Seq<char>>,
)
    requires
        paths.contains(shown),
        path_follows(highlighter, paths, start, cache, path),
        file_shown(highlighter, cache, after, shown, r),
    ensures
        path_follows(highlighter, paths, start, after, path),
{
    let file = path_components(shown);
    if path_components(path) == file && after != cache {
        assert(cache.is_shown(path) == cache.is_shown(shown));
        if !cache.files.contains_key(file) {
            assert(disk_gives(shown, Some(after.files[file])));
        }
        if let ContentsView::Text(text) = after.files[file] {
            assert(cache.is_shown(shown) || fresh_lines(highlighter, shown, text, r->Ok_0));
        }
    }
}

proof fn lemma_same_contents<F: Fn(String, String) -> String>(
    highlighter: F,
    paths: Set<Seq<char>>,
    path: Seq<char>,
    a: ContentsView,
    b: Option<ContentsView>,
)
    requires
        are_steady(highlighter, paths),
        paths.contains(path),
        file_gives(paths, path_components(path), a),
        disk_gives(path, b),
    ensures
        b == Some(a),
{
    let p = choose|p: Seq<char>|
        paths.contains(p) && path_components(p) == path_components(path) && #[trigger] disk_gives(
            p,
            Some(a),
        );
    assert(is_one_file(highlighter, p, path));
}

proof fn lemma_same_file<F: Fn(String, String) -> String>(
    highlighter: F,
    paths: Set<Seq<char>>,
    file: Seq<Seq<char>>,
    a: ContentsView,
    b: ContentsView,
)
    requires
        are_steady(highlighter, paths),
        file_gives(paths, file, a),
        file_gives(paths, file, b),
    ensures
        a == b,
{
    let p = choose|p: Seq<char>|
        paths.contains(p) && path_components(p) == file && #[trigger] disk_gives(p, Some(a));
    lemma_same_contents(highlighter, paths, p, b, Some(a));
}

proof fn lemma_same_lines<F: Fn(String, String) -> String>(
    highlighter: F,
    paths: Set<Seq<char>>,
    file: Seq<Seq<char>>,
    text: Seq<char>,
    a: Seq<Seq<char>>,
    b: Seq<Seq<char>>,
)
    requires
        are_steady(highlighter, paths),
        file_shows(highlighter, paths, file, text, a),
        file_shows(highlighter, paths, file, text, b),
    ensures
        a == b,
{
    let p = choose|p: Seq<char>|
        paths.contains(p) && path_components(p) == file && #[trigger] fresh_lines(
            highlighter,
            p,
            text,
            a,
        );
    let q = choose|q: Seq<char>|
        paths.contains(q) && path_components(q) == file && #[trigger] fresh_lines(
            highlighter,
            q,
            text,
            b,
        );
    assert(is_one_file(highlighter, p, q));
    assert(is_rust(p) == is_rust(q));
}

proof fn lemma_same_outcome<F: Fn(String, String) -> String>(
    highlighter: F,
    paths: Set<Seq<char>>,
    start: CacheView,
    a: CacheView,
    after_a: CacheView,
    b: CacheView,
    after_b: CacheView,
    path: Seq<char>,
    r: Result<Seq<Seq<char>>, Seq<char>>,
    s: Result<Seq<Seq<char>>, Seq<char>>,
)
    requires
        are_steady(highlighter, paths),
        paths.contains(path),
        path_follows(highlighter, paths, start, a, path),
        path_follows(highlighter, paths, start, b, path),
        file_shown(highlighter, a, after_a, path, r),
        file_shown(highlighter, b, after_b, path, s),
    ensures
        r == s,
{
    let file = path_components(path);
    lemma_showing_follows(highlighter, paths, start, a, after_a, path, path, r);
    lemma_showing_follows(highlighter, paths, start, b, after_b, path, path, s);
    assert(is_one_file(highlighter, path, path));
    if !start.files.contains_key(file) {
        if after_a.files.contains_key(file) && after_b.files.contains_key(file) {
            lemma_same_file(
                highlighter,
                paths,
                file,
                after_a.files[file],
                after_b.files[file],
            );
        } else if after_a.files.contains_key(file) {
            lemma_same_contents(highlighter, paths, path, after_a.files[file], None);
        } else if after_b.files.contains_key(file) {
            lemma_same_contents(highlighter, paths, path, after_b.files[file], None);
        }
    }
    if after_a.files.contains_key(file) {
        if let ContentsView::Text(text) = after_a.files[file] {
            if !start.is_shown(path) {
                assert(file_shows(highlighter, paths, file, text, r->Ok_0)) by {
                    if !a.is_shown(path) {
                        assert(fresh_lines(highlighter, path, text, r->Ok_0));
                    }
                }
                assert(file_shows(highlighter, paths, file, text, s->Ok_0)) by {
                    if !b.is_shown(path) {
                        assert(fresh_lines(highlighter, path, text, s->Ok_0));
                    }
                }
                lemma_same_lines(highlighter, paths, file, text, r->Ok_0, s->Ok_0);
            }
        }
    }
}

proof fn lemma_span_is_shown<F: Fn(String, String) -> String>(
    highlighter: F,
    before: CacheView,
    after: CacheView,
    path: Seq<char>,
    span: SpanView,
    r: Result<LineView, Seq<char>>,
) -> (shown: Result<Seq<Seq<char>>, Seq<char>>)
    requires
        span_shown(highlighter, before, after, path, span, r),
    ensures
        file_shown(highlighter, before, after, path, shown),
        r == span_line(span, line_of(shown, span.row_start as nat)),
{
    let line = choose|line: Result<Option<Seq<char>>, Seq<char>>| #[trigger]
        line_shown(highlighter, before, after, path, span.row_start as nat, line) && r == span_line(
            span,
            line,
        );
    choose|shown: Result<Seq<Seq<char>>, Seq<char>>| #[trigger]
        file_shown(highlighter, before, after, path, shown) && line == line_of(
            shown,
            span.row_start as nat,
        )
}

/// Every state that a cache goes through follows from the start.
proof fn lemma_states_follow<F: Fn(String, String) -> String>(
    highlighter: F,
    project_dir: Seq<char>,
    paths: Set<Seq<char>>,
    start: CacheView,
    states: Seq<CacheView>,
    spans: Seq<SpanView>,
    lines: Seq<Result<LineView, Seq<char>>>,
    k: int,
)
    requires
        shown_paths(project_dir, spans).subset_of(paths),
        spans_shown(highlighter, project_dir, states, spans, lines),
        all_follow(highlighter, paths, start, states[0]),
        0 <= k < states.len(),
    ensures
        all_follow(highlighter, paths, start, states[k]),
    decreases k,
{
    if k > 0 {
        lemma_states_follow(highlighter, project_dir, paths, start, states, spans, lines, k - 1);
        let path = file_path(project_dir, spans[k - 1].file);
        let line = lines[k - 1];
        assert(span_shown(highlighter, states[k - 1], states[k], path, spans[k - 1], line));
        let shown = lemma_span_is_shown(
            highlighter,
            states[k - 1],
            states[k],
            path,
            spans[k - 1],
            line,
        );
        assert(shown_paths(project_dir, spans).contains(path));
        assert(paths.contains(path));
        assert forall|p: Seq<char>| #[trigger] paths.contains(p) implies path_follows(
            highlighter,
            paths,
            start,
            states[k],
            p,
        ) by {
            lemma_showing_follows(
                highlighter,
                paths,
                start,
                states[k - 1],
                states[k],
                p,
                path,
                shown,
            );
        }
    }
}

/// The same span gives the same line in both searches.
proof fn lemma_same_line<F: Fn(String, String) -> String>(
    highlighter: F,
    project_dir: Seq<char>,
    paths: Set<Seq<char>>,
    start: CacheView,
    states_a: Seq<CacheView>,
    a: Seq<SpanView>,
    lines_a: Seq<Result<LineView, Seq<char>>>,
    states_b: Seq<CacheView>,
    b: Seq<SpanView>,
    lines_b: Seq<Result<LineView, Seq<char>>>,
    i: int,
    j: int,
)
    requires
        are_steady(highlighter, paths),
        shown_paths(project_dir, a).subset_of(paths),
        shown_paths(project_dir, b).subset_of(paths),
        spans_shown(highlighter, project_dir, states_a, a, lines_a),
        spans_shown(highlighter, project_dir, states_b, b, lines_b),
        all_follow(highlighter, paths, start, states_a[0]),
        all_follow(highlighter, paths, start, states_b[0]),
        0 <= i < a.len(),
        0 <= j < b.len(),
        a[i] == b[j],
    ensures
        lines_a[i] == lines_b[j],
{
    let path = file_path(project_dir, a[i].file);
    lemma_states_follow(highlighter, project_dir, paths, start, states_a, a, lines_a, i);
    lemma_states_follow(highlighter, project_dir, paths, start, states_b, b, lines_b, j);
    let r = lemma_span_is_shown(highlighter, states_a[i], states_a[i + 1], path, a[i], lines_a[i]);
    let s = lemma_span_is_shown(highlighter, states_b[j], states_b[j + 1], path, b[j], lines_b[j]);
    assert(shown_paths(project_dir, a).contains(path));
    assert(paths.contains(path));
    lemma_same_outcome(
        highlighter,
        paths,
        start,
        states_a[i],
        states_a[i + 1],
        states_b[j],
        states_b[j + 1],
        path,
        r,
        s,
    );
}

// --------------------------------------------------------------------------
// Lines found, whatever their order
// --------------------------------------------------------------------------

/// What is found for one span, given its line.
spec fn found_one(
    project_dir: Seq<char>,
    span: SpanView,
    line_for: spec_fn(SpanView) -> Result<LineView, Seq<char>>,
) -> Seq<FoundView> {
    match line_for(span) {
        Ok(line) => seq![FoundView { file_name: file_path(project_dir, span.file), line }],
        Err(_) => Seq::empty(),
    }
}

/// What is found for spans, given the line of each.
spec fn found_all(
    project_dir: Seq<char>,
    spans: Seq<SpanView>,
    line_for: spec_fn(SpanView) -> Result<LineView, Seq<char>>,
) -> Seq<FoundView>
    decreases spans.len(),
{
    if spans.len() == 0 {
        Seq::empty()
    } else {
        found_all(project_dir, spans.drop_last(), line_for) + found_one(
            project_dir,
            spans.last(),
            line_for,
        )
    }
}

proof fn lemma_found_all(
    project_dir: Seq<char>,
    spans: Seq<SpanView>,
    lines: Seq<Result<LineView, Seq<char>>>,
    line_for: spec_fn(SpanView) -> Result<LineView, Seq<char>>,
    k: int,
)
    requires
        lines.len() == spans.len(),
        forall|i: int| 0 <= i < spans.len() ==> #[trigger] lines[i] == line_for(spans[i]),
        0 <= k <= spans.len(),
    ensures
        lines_found(project_dir, spans, lines.take(k)) == found_all(
            project_dir,
            spans.take(k),
            line_for,
        ),
    decreases k,
{
    if k > 0 {
        lemma_found_all(project_dir, spans, lines, line_for, k - 1);
        assert(lines.take(k).drop_last() == lines.take(k - 1));
        assert(spans.take(k).drop_last() == spans.take(k - 1));
        assert(lines[k - 1] == line_for(spans[k - 1]));
    }
}

proof fn lemma_found_in_parts(
    project_dir: Seq<char>,
    a: Seq<SpanView>,
    b: Seq<SpanView>,
    line_for: spec_fn(SpanView) -> Result<LineView, Seq<char>>,
)
    ensures
        found_all(project_dir, a + b, line_for) == found_all(project_dir, a, line_for) + found_all(
            project_dir,
            b,
            line_for,
        ),
    decreases b.len(),
{
    if b.len() == 0 {
        assert(a + b == a);
    } else {
        lemma_found_in_parts(project_dir, a, b.drop_last(), line_for);
        assert((a + b).drop_last() == a + b.drop_last());
    }
}

proof fn lemma_found_in_any_order(
    project_dir: Seq<char>,
    a: Seq<SpanView>,
    b: Seq<SpanView>,
    line_for: spec_fn(SpanView) -> Result<LineView, Seq<char>>,
)
    requires
        a.to_multiset() == b.to_multiset(),
    ensures
        found_all(project_dir, a, line_for).to_multiset() == found_all(
            project_dir,
            b,
            line_for,
        ).to_multiset(),
    decreases a.len(),
{
    broadcast use vstd::seq_lib::group_to_multiset_ensures;

    assert(a.len() == a.to_multiset().len());
    assert(b.len() == b.to_multiset().len());
    if a.len() == 0 {
        assert(a == b);
    } else {
        let x = a.last();
        assert(a.contains(a[a.len() - 1]));
        assert(b.to_multiset().count(x) > 0);
        assert(b.contains(x));
        let j = choose|j: int| 0 <= j < b.len() && b[j] == x;
        let front = b.take(j);
        let back = b.skip(j + 1);
        let one = found_one(project_dir, x, line_for);
        assert(a.remove(a.len() - 1) == a.drop_last());
        assert(b.remove(j) == front + back);
        lemma_found_in_any_order(project_dir, a.drop_last(), front + back, line_for);
        assert(b == front + (seq![x] + back));
        lemma_found_in_parts(project_dir, front, back, line_for);
        lemma_found_in_parts(project_dir, front, seq![x] + back, line_for);
        lemma_found_in_parts(project_dir, seq![x], back, line_for);
        assert(seq![x].drop_last() == Seq::<SpanView>::empty());
        assert(found_all(project_dir, Seq::empty(), line_for) == Seq::<FoundView>::empty());
        assert(found_all(project_dir, seq![x], line_for) == one);
        let f = found_all(project_dir, front, line_for);
        let g = found_all(project_dir, back, line_for);
        vstd::seq_lib::lemma_multiset_commutative(f, g);
        vstd::seq_lib::lemma_multiset_commutative(one, g);
        vstd::seq_lib::lemma_multiset_commutative(f, one + g);
        vstd::seq_lib::lemma_multiset_commutative(
            found_all(project_dir, a.drop_last(), line_for),
            one,
        );
        assert(found_all(project_dir, a, line_for).to_multiset() =~= found_all(
            project_dir,
            b,
            line_for,
        ).to_multiset());
    }
}

/// Over files that do not change, neither the order of the spans nor what an
/// earlier search has read makes a difference to what is shown. The second search
/// starts where the first one did, or where it ended.
pub proof fn law_order_of_spans_is_irrelevant<F: Fn(String, String) -> String>(
    highlighter: F,
    project_dir: Seq<char>,
    before_a: CacheView,
    after_a: CacheView,
    before_b: CacheView,
    after_b: CacheView,
    a: Seq<SpanView>,
    b: Seq<SpanView>,
    files_a: Seq<FileView>,
    files_b: Seq<FileView>,
)
    requires
        are_steady(highlighter, shown_paths(project_dir, a)),
        a.to_multiset() == b.to_multiset(),
        files_shown(highlighter, project_dir, before_a, after_a, a, files_a),
        files_shown(highlighter, project_dir, before_b, after_b, b, files_b),
        before_b == before_a || before_b == after_a,
    ensures
        files_a == files_b,
{
    broadcast use vstd::seq_lib::group_to_multiset_ensures;

    let (states_a, lines_a) = choose|
        states: Seq<CacheView>,
        lines: Seq<Result<LineView, Seq<char>>>,
    |
        {
            &&& #[trigger] spans_shown(highlighter, project_dir, states, a, lines)
            &&& states[0] == before_a
            &&& states.last() == after_a
            &&& grouped(lines_found(project_dir, a, lines), files_a)
        };
    let (states_b, lines_b) = choose|
        states: Seq<CacheView>,
        lines: Seq<Result<LineView, Seq<char>>>,
    |
        {
            &&& #[trigger] spans_shown(highlighter, project_dir, states, b, lines)
            &&& states[0] == before_b
            &&& states.last() == after_b
            &&& grouped(lines_found(project_dir, b, lines), files_b)
        };
    let paths = shown_paths(project_dir, a);
    assert forall|j: int| 0 <= j < b.len() implies a.contains(#[trigger] b[j]) by {
        assert(b.contains(b[j]));
        assert(a.to_multiset().count(b[j]) > 0);
    }
    assert(shown_paths(project_dir, b).subset_of(paths)) by {
        assert forall|p: Seq<char>| shown_paths(project_dir, b).contains(p) implies paths.contains(p) by {
            let j = choose|j: int|
                0 <= j < b.len() && p == file_path(project_dir, (#[trigger] b[j]).file);
            let i = choose|i: int| 0 <= i < a.len() && a[i] == b[j];
            assert(p == file_path(project_dir, a[i].file));
        }
    }
    assert(all_follow(highlighter, paths, before_a, states_a[0]));
    lemma_states_follow(
        highlighter,
        project_dir,
        paths,
        before_a,
        states_a,
        a,
        lines_a,
        states_a.len() - 1,
    );
    assert(all_follow(highlighter, paths, before_a, states_b[0]));
    let line_for = |s: SpanView| lines_a[choose|i: int| 0 <= i < a.len() && a[i] == s];
    assert forall|i: int| 0 <= i < a.len() implies #[trigger] lines_a[i] == line_for(a[i]) by {
        let k = choose|k: int| 0 <= k < a.len() && a[k] == a[i];
        lemma_same_line(
            highlighter,
            project_dir,
            paths,
            before_a,
            states_a,
            a,
            lines_a,
            states_a,
            a,
            lines_a,
            i,
            k,
        );
    }
    assert forall|j: int| 0 <= j < b.len() implies #[trigger] lines_b[j] == line_for(b[j]) by {
        assert(a.contains(b[j]));
        let k = choose|k: int| 0 <= k < a.len() && a[k] == b[j];
        lemma_same_line(
            highlighter,
            project_dir,
            paths,
            before_a,
            states_a,
            a,
            lines_a,
            states_b,
            b,
            lines_b,
            k,
            j,
        );
    }
    lemma_found_all(project_dir, a, lines_a, line_for, a.len() as int);
    lemma_found_all(project_dir, b, lines_b, line_for, b.len() as int);
    assert(lines_a.take(a.len() as int) == lines_a && a.take(a.len() as int) == a);
    assert(lines_b.take(b.len() as int) == lines_b && b.take(b.len() as int) == b);
    lemma_found_in_any_order(project_dir, a, b, line_for);
    law_order_of_finding_is_irrelevant(
        lines_found(project_dir, a, lines_a),
        lines_found(project_dir, b, lines_b),
        files_a,
        files_b,
    );
}

} // verus!
