//! The path file: a text file that lists, one per line, the folders in
//! which projects are looked for.  Reading the file and asking the file
//! system whether a path exists are left to the caller; this module decides
//! what the file says.
use vstd::prelude::*;
use crate::text::{trim, trim_text, chars_of};

verus! {

broadcast use vstd::string::group_string_axioms;

/// The lines that were read, without those that could not be read; no line
/// at all when the file could not be opened.
pub open spec fn readable_lines(read: Option<Seq<Option<Seq<char>>>>) -> Seq<Seq<char>> {
    match read {
        None => seq![],
        Some(lines) => ok_lines(lines),
    }
}

/// The lines among `lines` that were read, in order.
pub open spec fn ok_lines(lines: Seq<Option<Seq<char>>>) -> Seq<Seq<char>>
    decreases lines.len(),
{
    if lines.len() == 0 {
        seq![]
    } else {
        let rest = ok_lines(lines.drop_last());
        match lines.last() {
            Some(l) => rest.push(l),
            None => rest,
        }
    }
}

/// Whether a trimmed line of the path file names a path: it is not empty
/// and is no comment (a comment starts with `#`).
pub open spec fn is_path_line(t: Seq<char>) -> bool {
    t.len() > 0 && t[0] != '#'
}

/// Whether the trimmed line `t` is kept: it is not empty, it is no comment
/// where comments are skipped, and it is not `excluded`.
pub open spec fn line_kept(t: Seq<char>, skip_comments: bool, excluded: Option<Seq<char>>) -> bool {
    &&& t.len() > 0
    &&& skip_comments ==> t[0] != '#'
    &&& excluded matches Some(e) ==> t != e
}

/// The trimmed lines that are kept and name a path that exists; `exists[i]`
/// tells whether the trimmed `lines[i]` names an existing path.
pub open spec fn kept_lines(
    lines: Seq<Seq<char>>,
    exists: Seq<bool>,
    skip_comments: bool,
    excluded: Option<Seq<char>>,
) -> Seq<Seq<char>>
    decreases lines.len(),
{
    if lines.len() == 0 {
        seq![]
    } else {
        let rest = kept_lines(lines.drop_last(), exists.drop_last(), skip_comments, excluded);
        let t = trim(lines.last());
        if line_kept(t, skip_comments, excluded) && exists.last() {
            rest.push(t)
        } else {
            rest
        }
    }
}

/// `s` with each run of equal neighbours reduced to its first element, as
/// `Vec::dedup` does it.
pub open spec fn dedup(s: Seq<Seq<char>>) -> Seq<Seq<char>>
    decreases s.len(),
{
    if s.len() == 0 {
        seq![]
    } else {
        let d = dedup(s.drop_last());
        if d.len() > 0 && d.last() == s.last() {
            d
        } else {
            d.push(s.last())
        }
    }
}

/// The paths that a path file lists: its trimmed lines that are neither
/// empty nor comments and name an existing path, without repeats of a path
/// on consecutive lines.
pub open spec fn listed_paths(lines: Seq<Seq<char>>, exists: Seq<bool>) -> Seq<Seq<char>> {
    dedup(kept_lines(lines, exists, true, None))
}

/// The lines of a file as they were read: `None` when the file could not be
/// opened, else each line, `None` for a line that could not be read.  The
/// result holds the lines that were read, in order.
pub fn file_lines(read: Option<Vec<Option<String>>>) -> (r: Vec<String>)
    ensures
        r.deep_view() == readable_lines(read.deep_view()),
{
    match read {
        None => Vec::new(),
        Some(lines) => read_lines_of(&lines),
    }
}

/// The lines among `lines` that were read, in order.
pub(crate) fn read_lines_of(lines: &Vec<Option<String>>) -> (r: Vec<String>)
    ensures
        r.deep_view() == ok_lines(lines.deep_view()),
{
    let mut buffer: Vec<String> = Vec::new();
    let n = lines.len();
    let ghost all = lines.deep_view();
    let mut i: usize = 0;
    while i < n
        invariant
            i <= n,
            n == lines.len(),
            all == lines.deep_view(),
            buffer.deep_view() == ok_lines(all.take(i as int)),
        decreases n - i,
    {
        assert(all.take(i + 1).drop_last() =~= all.take(i as int));
        let ghost before = buffer.deep_view();
        match &lines[i] {
            Some(l) => {
                buffer.push(l.clone());
                assert(buffer.deep_view() =~= before.push(l@));
            },
            None => {},
        }
        i = i + 1;
    }
    assert(all.take(n as int) =~= all);
    buffer
}

/// Whether the non-empty `t` starts with `#`.
fn starts_with_hash(t: &String) -> (b: bool)
    ensures
        b == (t@.len() > 0 && t@[0] == '#'),
{
    let cs = chars_of(t.as_str());
    cs.len() > 0 && cs[0] == '#'
}

/// The trimmed `lines` that are kept (see `line_kept`) and for which
/// `exists` holds.
pub(crate) fn keep_lines(
    lines: &Vec<String>,
    exists: &Vec<bool>,
    skip_comments: bool,
    excluded: Option<&String>,
) -> (r: Vec<String>)
    requires
        exists.len() == lines.len(),
    ensures
        r.deep_view() == kept_lines(
            lines.deep_view(),
            exists@,
            skip_comments,
            match excluded {
                Some(e) => Some(e@),
                None => None,
            },
        ),
{
    let ghost ex = match excluded {
        Some(e) => Some(e@),
        None => None::<Seq<char>>,
    };
    let ghost all = lines.deep_view();
    let n = lines.len();
    let mut out: Vec<String> = Vec::new();
    let mut i: usize = 0;
    while i < n
        invariant
            i <= n,
            n == lines.len(),
            n == exists.len(),
            all == lines.deep_view(),
            ex == match excluded {
                Some(e) => Some(e@),
                None => None::<Seq<char>>,
            },
            out.deep_view() == kept_lines(
                all.take(i as int),
                exists@.take(i as int),
                skip_comments,
                ex,
            ),
        decreases n - i,
    {
        assert(all.take(i + 1).drop_last() =~= all.take(i as int));
        assert(exists@.take(i + 1).drop_last() =~= exists@.take(i as int));
        let t = trim_text(lines[i].as_str());
        let not_empty = t.as_str().unicode_len() > 0;
        let comment_ok = !skip_comments || !starts_with_hash(&t);
        let other = match excluded {
            Some(e) => t != *e,
            None => true,
        };
        let ghost before = out.deep_view();
        if not_empty && comment_ok && other && exists[i] {
            out.push(t);
            assert(out.deep_view() =~= before.push(trim(all[i as int])));
        }
        i = i + 1;
    }
    assert(all.take(n as int) =~= all);
    assert(exists@.take(n as int) =~= exists@);
    out
}

/// `v` with each run of equal neighbours reduced to its first element.
pub fn dedup_lines(v: Vec<String>) -> (r: Vec<String>)
    ensures
        r.deep_view() == dedup(v.deep_view()),
{
    let ghost all = v.deep_view();
    let n = v.len();
    let mut out: Vec<String> = Vec::new();
    let mut i: usize = 0;
    while i < n
        invariant
            i <= n,
            n == v.len(),
            all == v.deep_view(),
            out.deep_view() == dedup(all.take(i as int)),
        decreases n - i,
    {
        assert(all.take(i + 1).drop_last() =~= all.take(i as int));
        let ghost before = out.deep_view();
        let k = out.len();
        if k > 0 && out[k - 1] == v[i] {
        } else {
            out.push(v[i].clone());
            assert(out.deep_view() =~= before.push(all[i as int]));
        }
        i = i + 1;
    }
    assert(all.take(n as int) =~= all);
    out
}

/// The paths that the path file lists.  `lines` are the lines of the file
/// (see `file_lines`), and `exists[i]` tells whether the trimmed `lines[i]`
/// names a path that exists.  The result holds, in order, the trimmed lines
/// that are not empty, are no comment (a comment starts with `#`) and name
/// an existing path, with repeats on consecutive lines dropped.
pub fn get_paths(lines: &Vec<String>, exists: &Vec<bool>) -> (r: Vec<String>)
    requires
        exists.len() == lines.len(),
    ensures
        r.deep_view() == listed_paths(lines.deep_view(), exists@),
{
    let kept = keep_lines(lines, exists, true, None);
    dedup_lines(kept)
}

} // verus!

verus! {

/// No two neighbours of `dedup(s)` are equal.
pub proof fn lemma_dedup_no_equal_neighbours(s: Seq<Seq<char>>)
    ensures
        forall|i: int| 0 <= i < dedup(s).len() - 1 ==> #[trigger] dedup(s)[i] != dedup(s)[i + 1],
    decreases s.len(),
{
    if s.len() > 0 {
        lemma_dedup_no_equal_neighbours(s.drop_last());
        let d = dedup(s.drop_last());
        if !(d.len() > 0 && d.last() == s.last()) {
            let r = d.push(s.last());
            assert forall|i: int| 0 <= i < r.len() - 1 implies #[trigger] r[i] != r[i + 1] by {
                if i < d.len() - 1 {
                    assert(r[i] == d[i] && r[i + 1] == d[i + 1]);
                }
            }
        }
    }
}

/// `dedup(s)` holds exactly what `s` holds.
pub proof fn lemma_dedup_members(s: Seq<Seq<char>>)
    ensures
        forall|x: Seq<char>| dedup(s).contains(x) <==> s.contains(x),
    decreases s.len(),
{
    if s.len() > 0 {
        lemma_dedup_members(s.drop_last());
        let d = dedup(s.drop_last());
        assert forall|x: Seq<char>| dedup(s).contains(x) <==> s.contains(x) by {
            if s.contains(x) {
                let k = choose|k: int| 0 <= k < s.len() && s[k] == x;
                if k < s.len() - 1 {
                    assert(s.drop_last()[k] == x);
                    assert(s.drop_last().contains(x));
                    let j = choose|j: int| 0 <= j < d.len() && d[j] == x;
                    if !(d.len() > 0 && d.last() == s.last()) {
                        assert(d.push(s.last())[j] == x);
                    }
                } else {
                    if d.len() > 0 && d.last() == s.last() {
                        assert(d[d.len() - 1] == x);
                    } else {
                        assert(d.push(s.last())[d.len() as int] == x);
                    }
                }
            }
            if dedup(s).contains(x) {
                let k = choose|k: int| 0 <= k < dedup(s).len() && dedup(s)[k] == x;
                if d.len() > 0 && d.last() == s.last() {
                    assert(d.contains(x));
                } else if k < d.len() {
                    assert(d[k] == x);
                    assert(d.contains(x));
                } else {
                    assert(s[s.len() - 1] == x);
                }
                if d.contains(x) {
                    assert(s.drop_last().contains(x));
                    let j = choose|j: int| 0 <= j < s.drop_last().len() && s.drop_last()[j] == x;
                    assert(s[j] == x);
                }
            }
        }
    }
}

/// A sequence without equal neighbours is its own `dedup`.
pub proof fn lemma_dedup_of_distinct_neighbours(s: Seq<Seq<char>>)
    requires
        forall|i: int| 0 <= i < s.len() - 1 ==> #[trigger] s[i] != s[i + 1],
    ensures
        dedup(s) == s,
    decreases s.len(),
{
    if s.len() > 0 {
        let t = s.drop_last();
        assert forall|i: int| 0 <= i < t.len() - 1 implies #[trigger] t[i] != t[i + 1] by {
            assert(t[i] == s[i] && t[i + 1] == s[i + 1]);
        }
        lemma_dedup_of_distinct_neighbours(t);
        if t.len() > 0 {
            assert(t.last() == s[s.len() - 2]);
        }
        assert(t.push(s.last()) =~= s);
    }
}

/// What `kept_lines` holds: the trimmed lines that are kept and exist.
pub proof fn lemma_kept_lines_members(
    lines: Seq<Seq<char>>,
    exists: Seq<bool>,
    skip_comments: bool,
    excluded: Option<Seq<char>>,
)
    requires
        exists.len() == lines.len(),
    ensures
        forall|x: Seq<char>|
            kept_lines(lines, exists, skip_comments, excluded).contains(x) <==> exists|i: int|
                0 <= i < lines.len() && exists[i] && line_kept(
                    #[trigger] trim(lines[i]),
                    skip_comments,
                    excluded,
                ) && trim(lines[i]) == x,
    decreases lines.len(),
{
    if lines.len() > 0 {
        let l0 = lines.drop_last();
        let e0 = exists.drop_last();
        lemma_kept_lines_members(l0, e0, skip_comments, excluded);
        let rest = kept_lines(l0, e0, skip_comments, excluded);
        let k = kept_lines(lines, exists, skip_comments, excluded);
        let n = lines.len() - 1;
        let t = trim(lines[n]);
        let pushed = line_kept(t, skip_comments, excluded) && exists[n];
        assert forall|x: Seq<char>|
            k.contains(x) <==> exists|i: int|
                0 <= i < lines.len() && exists[i] && line_kept(
                    #[trigger] trim(lines[i]),
                    skip_comments,
                    excluded,
                ) && trim(lines[i]) == x by {
            if k.contains(x) {
                let j = choose|j: int| 0 <= j < k.len() && k[j] == x;
                if pushed && j == rest.len() {
                    assert(exists[n] && line_kept(trim(lines[n]), skip_comments, excluded) && trim(
                        lines[n],
                    ) == x);
                } else {
                    assert(rest[j] == x);
                    assert(rest.contains(x));
                    let i = choose|i: int|
                        0 <= i < l0.len() && e0[i] && line_kept(
                            #[trigger] trim(l0[i]),
                            skip_comments,
                            excluded,
                        ) && trim(l0[i]) == x;
                    assert(l0[i] == lines[i] && e0[i] == exists[i]);
                    assert(exists[i] && line_kept(trim(lines[i]), skip_comments, excluded) && trim(
                        lines[i],
                    ) == x);
                }
            }
            if exists|i: int|
                0 <= i < lines.len() && exists[i] && line_kept(
                    #[trigger] trim(lines[i]),
                    skip_comments,
                    excluded,
                ) && trim(lines[i]) == x {
                let i = choose|i: int|
                    0 <= i < lines.len() && exists[i] && line_kept(
                        #[trigger] trim(lines[i]),
                        skip_comments,
                        excluded,
                    ) && trim(lines[i]) == x;
                if i == n {
                    assert(k[rest.len() as int] == x);
                } else {
                    assert(l0[i] == lines[i] && e0[i] == exists[i]);
                    assert(e0[i] && line_kept(trim(l0[i]), skip_comments, excluded) && trim(l0[i])
                        == x);
                    assert(rest.contains(x));
                    let j = choose|j: int| 0 <= j < rest.len() && rest[j] == x;
                    if pushed {
                        assert(k[j] == x);
                    }
                }
            }
        }
    }
}

/// Every line that `kept_lines` holds is trimmed and kept.
pub proof fn lemma_kept_lines_trimmed(
    lines: Seq<Seq<char>>,
    exists: Seq<bool>,
    skip_comments: bool,
    excluded: Option<Seq<char>>,
)
    requires
        exists.len() == lines.len(),
    ensures
        forall|x: Seq<char>|
            #[trigger] kept_lines(lines, exists, skip_comments, excluded).contains(x) ==> trim(x)
                == x && line_kept(x, skip_comments, excluded),
{
    lemma_kept_lines_members(lines, exists, skip_comments, excluded);
    assert forall|x: Seq<char>|
        #[trigger] kept_lines(lines, exists, skip_comments, excluded).contains(x) implies trim(x)
        == x && line_kept(x, skip_comments, excluded) by {
        let i = choose|i: int|
            0 <= i < lines.len() && exists[i] && line_kept(
                #[trigger] trim(lines[i]),
                skip_comments,
                excluded,
            ) && trim(lines[i]) == x;
        crate::text::lemma_trim_idempotent(lines[i]);
    }
}

/// `n` times `true`: every line names an existing path.
pub open spec fn all_exist(n: nat) -> Seq<bool> {
    Seq::new(n, |i: int| true)
}

/// Lines that are all trimmed and kept are kept as they are.
pub proof fn lemma_kept_lines_of_kept(
    t: Seq<Seq<char>>,
    skip_comments: bool,
    excluded: Option<Seq<char>>,
)
    requires
        forall|i: int| 0 <= i < t.len() ==> trim(#[trigger] t[i]) == t[i] && line_kept(t[i], skip_comments, excluded),
    ensures
        kept_lines(t, all_exist(t.len()), skip_comments, excluded) == t,
    decreases t.len(),
{
    if t.len() > 0 {
        let t0 = t.drop_last();
        assert forall|i: int| 0 <= i < t0.len() implies trim(#[trigger] t0[i]) == t0[i] && line_kept(
            t0[i],
            skip_comments,
            excluded,
        ) by {
            assert(t0[i] == t[i]);
        }
        lemma_kept_lines_of_kept(t0, skip_comments, excluded);
        assert(all_exist(t.len()).drop_last() =~= all_exist(t0.len()));
        assert(trim(t[t.len() - 1]) == t[t.len() - 1]);
        assert(t0.push(t.last()) =~= t);
    }
}

/// Applying the same selection to its own result changes nothing: the
/// lines that `dedup(kept_lines(..))` gives, read again with every path
/// existing, give themselves.
proof fn lemma_selection_stable(
    lines: Seq<Seq<char>>,
    exists: Seq<bool>,
    skip_comments: bool,
    excluded: Option<Seq<char>>,
)
    requires
        exists.len() == lines.len(),
    ensures
        ({
            let r = dedup(kept_lines(lines, exists, skip_comments, excluded));
            dedup(kept_lines(r, all_exist(r.len()), skip_comments, excluded)) == r
        }),
{
    let k = kept_lines(lines, exists, skip_comments, excluded);
    let r = dedup(k);
    lemma_kept_lines_trimmed(lines, exists, skip_comments, excluded);
    lemma_dedup_members(k);
    assert forall|i: int| 0 <= i < r.len() implies trim(#[trigger] r[i]) == r[i] && line_kept(
        r[i],
        skip_comments,
        excluded,
    ) by {
        assert(r.contains(r[i]));
        assert(k.contains(r[i]));
    }
    lemma_kept_lines_of_kept(r, skip_comments, excluded);
    lemma_dedup_no_equal_neighbours(k);
    lemma_dedup_of_distinct_neighbours(r);
}

/// The paths of a path file hold no path twice in a row.
pub proof fn lemma_listed_paths_no_repeats(lines: Seq<Seq<char>>, exists: Seq<bool>)
    ensures
        forall|i: int|
            0 <= i < listed_paths(lines, exists).len() - 1 ==> #[trigger] listed_paths(
                lines,
                exists,
            )[i] != listed_paths(lines, exists)[i + 1],
{
    lemma_dedup_no_equal_neighbours(kept_lines(lines, exists, true, None));
}

/// The paths of a path file are exactly its trimmed lines that are neither
/// empty nor comments and name an existing path.
pub proof fn lemma_listed_paths_members(lines: Seq<Seq<char>>, exists: Seq<bool>)
    requires
        exists.len() == lines.len(),
    ensures
        forall|x: Seq<char>|
            listed_paths(lines, exists).contains(x) <==> exists|i: int|
                0 <= i < lines.len() && exists[i] && is_path_line(#[trigger] trim(lines[i])) && trim(
                    lines[i],
                ) == x,
{
    let k = kept_lines(lines, exists, true, None);
    lemma_dedup_members(k);
    lemma_kept_lines_members(lines, exists, true, None);
    assert forall|x: Seq<char>|
        listed_paths(lines, exists).contains(x) <==> exists|i: int|
            0 <= i < lines.len() && exists[i] && is_path_line(#[trigger] trim(lines[i])) && trim(
                lines[i],
            ) == x by {
        if k.contains(x) {
            let i = choose|i: int|
                0 <= i < lines.len() && exists[i] && line_kept(#[trigger] trim(lines[i]), true, None)
                    && trim(lines[i]) == x;
            assert(is_path_line(trim(lines[i])));
        }
        if exists|i: int|
            0 <= i < lines.len() && exists[i] && is_path_line(#[trigger] trim(lines[i])) && trim(
                lines[i],
            ) == x {
            let i = choose|i: int|
                0 <= i < lines.len() && exists[i] && is_path_line(#[trigger] trim(lines[i])) && trim(
                    lines[i],
                ) == x;
            assert(line_kept(trim(lines[i]), true, None));
        }
    }
}

/// The paths of a path file, written back as the file, list themselves:
/// each is trimmed, neither empty nor a comment, and they are listed again
/// as they are while they all exist.
pub proof fn lemma_listed_paths_stable(lines: Seq<Seq<char>>, exists: Seq<bool>)
    requires
        exists.len() == lines.len(),
    ensures
        ({
            let r = listed_paths(lines, exists);
            listed_paths(r, all_exist(r.len())) == r
        }),
{
    lemma_selection_stable(lines, exists, true, None);
}

/// Stable selection for the lines that deleting a folder leaves.
pub proof fn lemma_remaining_stable(lines: Seq<Seq<char>>, exists: Seq<bool>, dir: Seq<char>)
    requires
        exists.len() == lines.len(),
    ensures
        ({
            let r = dedup(kept_lines(lines, exists, false, Some(dir)));
            dedup(kept_lines(r, all_exist(r.len()), false, Some(dir))) == r
        }),
{
    lemma_selection_stable(lines, exists, false, Some(dir));
}

} // verus!

verus! {

/// The elements of `s` that satisfy `f`, in order.
pub open spec fn filter_lines(s: Seq<Seq<char>>, f: spec_fn(Seq<char>) -> bool) -> Seq<Seq<char>>
    decreases s.len(),
{
    if s.len() == 0 {
        seq![]
    } else {
        let rest = filter_lines(s.drop_last(), f);
        if f(s.last()) {
            rest.push(s.last())
        } else {
            rest
        }
    }
}

/// The test of being another line than `d`.
pub open spec fn other_than(d: Seq<char>) -> spec_fn(Seq<char>) -> bool {
    |x: Seq<char>| x != d
}

/// The test of naming a path (see `is_path_line`).
pub open spec fn names_a_path() -> spec_fn(Seq<char>) -> bool {
    |x: Seq<char>| is_path_line(x)
}

/// `s` without the elements equal to `d`.
pub open spec fn without(s: Seq<Seq<char>>, d: Seq<char>) -> Seq<Seq<char>> {
    filter_lines(s, other_than(d))
}

/// `filter_lines` of `s` followed by `x`.
proof fn lemma_filter_push(s: Seq<Seq<char>>, x: Seq<char>, f: spec_fn(Seq<char>) -> bool)
    ensures
        filter_lines(s.push(x), f) == (if f(x) {
            filter_lines(s, f).push(x)
        } else {
            filter_lines(s, f)
        }),
{
    assert(s.push(x).drop_last() =~= s);
}

/// `dedup` of `s` followed by `x` depends on `dedup(s)` alone, and ends with
/// `x`.
proof fn lemma_dedup_push(s: Seq<Seq<char>>, x: Seq<char>)
    ensures
        dedup(s.push(x)) == (if dedup(s).len() > 0 && dedup(s).last() == x {
            dedup(s)
        } else {
            dedup(s).push(x)
        }),
        dedup(s.push(x)).len() > 0,
        dedup(s.push(x)).last() == x,
{
    assert(s.push(x).drop_last() =~= s);
}

/// Collapsing runs of equal neighbours before a filter changes nothing once
/// the runs of the filtered result are collapsed too.
pub proof fn lemma_dedup_filter_dedup(s: Seq<Seq<char>>, f: spec_fn(Seq<char>) -> bool)
    ensures
        dedup(filter_lines(dedup(s), f)) == dedup(filter_lines(s, f)),
    decreases s.len(),
{
    if s.len() > 0 {
        let s0 = s.drop_last();
        let x = s.last();
        assert(s0.push(x) =~= s);
        lemma_dedup_filter_dedup(s0, f);
        let d0 = dedup(s0);
        let e = dedup(filter_lines(s0, f));
        assert(filter_lines(s, f) == if f(x) {
            filter_lines(s0, f).push(x)
        } else {
            filter_lines(s0, f)
        });
        if d0.len() > 0 && d0.last() == x {
            assert(dedup(s) == d0);
            if f(x) {
                let d1 = d0.drop_last();
                assert(d1.push(x) =~= d0);
                assert(filter_lines(d0, f) == filter_lines(d1, f).push(x));
                lemma_dedup_push(filter_lines(d1, f), x);
                lemma_dedup_push(filter_lines(s0, f), x);
            }
        } else {
            assert(dedup(s) == d0.push(x));
            assert(d0.push(x).drop_last() =~= d0);
            if f(x) {
                assert(filter_lines(d0.push(x), f) == filter_lines(d0, f).push(x));
                lemma_dedup_push(filter_lines(d0, f), x);
                lemma_dedup_push(filter_lines(s0, f), x);
            } else {
                assert(filter_lines(d0.push(x), f) == filter_lines(d0, f));
            }
        }
    }
}

/// Dropping the comments from the lines kept besides `d`, or dropping `d`
/// from the lines kept besides comments, leaves the same lines.
proof fn lemma_kept_lines_filters(lines: Seq<Seq<char>>, exists: Seq<bool>, d: Seq<char>)
    requires
        exists.len() == lines.len(),
    ensures
        filter_lines(kept_lines(lines, exists, false, Some(d)), names_a_path()) == kept_lines(
            lines,
            exists,
            true,
            Some(d),
        ),
        without(kept_lines(lines, exists, true, None), d) == kept_lines(
            lines,
            exists,
            true,
            Some(d),
        ),
    decreases lines.len(),
{
    if lines.len() > 0 {
        let l0 = lines.drop_last();
        let e0 = exists.drop_last();
        lemma_kept_lines_filters(l0, e0, d);
        let t = trim(lines.last());
        lemma_filter_push(kept_lines(l0, e0, false, Some(d)), t, names_a_path());
        lemma_filter_push(kept_lines(l0, e0, true, None), t, other_than(d));
    }
}

/// Lines that are trimmed and not empty are kept, with every path existing,
/// exactly when they are no comment.
proof fn lemma_kept_lines_of_trimmed(t: Seq<Seq<char>>)
    requires
        forall|i: int| 0 <= i < t.len() ==> trim(#[trigger] t[i]) == t[i] && t[i].len() > 0,
    ensures
        kept_lines(t, all_exist(t.len()), true, None) == filter_lines(t, names_a_path()),
    decreases t.len(),
{
    if t.len() > 0 {
        let t0 = t.drop_last();
        assert forall|i: int| 0 <= i < t0.len() implies trim(#[trigger] t0[i]) == t0[i] && t0[i].len()
            > 0 by {
            assert(t0[i] == t[i]);
        }
        lemma_kept_lines_of_trimmed(t0);
        assert(all_exist(t.len()).drop_last() =~= all_exist(t0.len()));
        assert(trim(t[t.len() - 1]) == t[t.len() - 1]);
    }
}

/// Listing the paths again after a folder was deleted from the path file,
/// while the remaining paths still exist, gives the paths listed before
/// without that folder, with repeats on consecutive lines collapsed.
pub(crate) proof fn lemma_kept_selection_after_delete(lines: Seq<Seq<char>>, exists: Seq<bool>, d: Seq<char>)
    requires
        exists.len() == lines.len(),
    ensures
        ({
            let r = dedup(kept_lines(lines, exists, false, Some(d)));
            listed_paths(r, all_exist(r.len())) == dedup(without(listed_paths(lines, exists), d))
        }),
{
    let q = kept_lines(lines, exists, false, Some(d));
    let p = kept_lines(lines, exists, true, None);
    let r = dedup(q);
    lemma_kept_lines_trimmed(lines, exists, false, Some(d));
    lemma_dedup_members(q);
    assert forall|i: int| 0 <= i < r.len() implies trim(#[trigger] r[i]) == r[i] && r[i].len()
        > 0 by {
        assert(r.contains(r[i]));
        assert(q.contains(r[i]));
    }
    lemma_kept_lines_of_trimmed(r);
    lemma_dedup_filter_dedup(q, names_a_path());
    lemma_kept_lines_filters(lines, exists, d);
    lemma_dedup_filter_dedup(p, other_than(d));
}

} // verus!

verus! {

/// Every one of `lines`, as a line that was read.
pub open spec fn all_read(lines: Seq<Seq<char>>) -> Seq<Option<Seq<char>>> {
    lines.map_values(|l: Seq<char>| Some(l))
}

/// When every line was read, the lines that were read are all of them.
pub proof fn lemma_ok_lines_all_read(lines: Seq<Seq<char>>)
    ensures
        ok_lines(all_read(lines)) == lines,
    decreases lines.len(),
{
    if lines.len() > 0 {
        lemma_ok_lines_all_read(lines.drop_last());
        assert(all_read(lines).drop_last() =~= all_read(lines.drop_last()));
        assert(lines.drop_last().push(lines.last()) =~= lines);
    }
}

} // verus!

verus! {

/// A line is left out of the paths only when, trimmed, it is empty, starts
/// with `#`, or names no existing path; and every listed path is such a
/// trimmed line.
pub proof fn lemma_listed_paths_exactly(lines: Seq<Seq<char>>, exists: Seq<bool>)
    requires
        exists.len() == lines.len(),
    ensures
        forall|i: int|
            0 <= i < lines.len() && exists[i] && #[trigger] trim(lines[i]).len() > 0 && trim(
                lines[i],
            )[0] != '#' ==> listed_paths(lines, exists).contains(trim(lines[i])),
        forall|x: Seq<char>|
            #[trigger] listed_paths(lines, exists).contains(x) ==> x.len() > 0 && x[0] != '#'
                && exists|i: int| 0 <= i < lines.len() && exists[i] && #[trigger] trim(lines[i]) == x,
{
    lemma_listed_paths_members(lines, exists);
    assert forall|i: int|
        0 <= i < lines.len() && exists[i] && #[trigger] trim(lines[i]).len() > 0 && trim(lines[i])[0]
            != '#' implies listed_paths(lines, exists).contains(trim(lines[i])) by {
        assert(is_path_line(trim(lines[i])));
    }
    assert forall|x: Seq<char>|
        #[trigger] listed_paths(lines, exists).contains(x) implies x.len() > 0 && x[0] != '#'
            && exists|i: int| 0 <= i < lines.len() && exists[i] && #[trigger] trim(lines[i]) == x by {
        let i = choose|i: int|
            0 <= i < lines.len() && exists[i] && is_path_line(#[trigger] trim(lines[i])) && trim(
                lines[i],
            ) == x;
        assert(exists[i] && trim(lines[i]) == x);
    }
}

} // verus!
