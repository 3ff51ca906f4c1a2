//! Text helpers over Unicode scalar values: whitespace trimming and the
//! splitting of a text into its lines.
use vstd::prelude::*;

verus! {

broadcast use vstd::string::group_string_axioms;

/// The characters with the Unicode property White_Space, which are the
/// characters that `char::is_whitespace` accepts and that `str::trim` removes.
pub open spec fn is_white_space(c: char) -> bool {
    ||| ('\u{9}' <= c && c <= '\u{d}')
    ||| c == ' '
    ||| c == '\u{85}'
    ||| c == '\u{a0}'
    ||| c == '\u{1680}'
    ||| ('\u{2000}' <= c && c <= '\u{200a}')
    ||| c == '\u{2028}'
    ||| c == '\u{2029}'
    ||| c == '\u{202f}'
    ||| c == '\u{205f}'
    ||| c == '\u{3000}'
}

/// `s` without its leading white space.
pub open spec fn trim_start(s: Seq<char>) -> Seq<char>
    decreases s.len(),
{
    if s.len() > 0 && is_white_space(s[0]) {
        trim_start(s.drop_first())
    } else {
        s
    }
}

/// `s` without its trailing white space.
pub open spec fn trim_end(s: Seq<char>) -> Seq<char>
    decreases s.len(),
{
    if s.len() > 0 && is_white_space(s.last()) {
        trim_end(s.drop_last())
    } else {
        s
    }
}

/// `s` without its leading and trailing white space.
pub open spec fn trim(s: Seq<char>) -> Seq<char> {
    trim_end(trim_start(s))
}

/// Whether `c` is a white-space character.
pub fn is_white_space_char(c: char) -> (b: bool)
    ensures
        b == is_white_space(c),
{
    ('\u{9}' <= c && c <= '\u{d}') || c == ' ' || c == '\u{85}' || c == '\u{a0}' || c
        == '\u{1680}' || ('\u{2000}' <= c && c <= '\u{200a}') || c == '\u{2028}' || c
        == '\u{2029}' || c == '\u{202f}' || c == '\u{205f}' || c == '\u{3000}'
}

/// The characters of `s`, in order.
pub fn chars_of(s: &str) -> (v: Vec<char>)
    ensures
        v@ == s@,
{
    let mut v: Vec<char> = Vec::new();
    for c in it: s.chars()
        invariant
            v@ == it.seq().take(it.index() as int),
            it.seq() == s@,
    {
        v.push(c);
    }
    v
}

/// `s` with its leading and trailing white space removed, as `str::trim`
/// does it.
pub fn trim_text(s: &str) -> (r: String)
    ensures
        r@ == trim(s@),
{
    let cs = chars_of(s);
    let n = cs.len();
    let mut a: usize = 0;
    assert(s@.subrange(0, n as int) =~= s@);
    while a < n && is_white_space_char(cs[a])
        invariant
            a <= n,
            n == cs@.len(),
            cs@ == s@,
            trim_start(s@) == trim_start(s@.subrange(a as int, n as int)),
        decreases n - a,
    {
        assert(s@.subrange(a as int, n as int).drop_first() =~= s@.subrange(a + 1, n as int));
        a = a + 1;
    }
    assert(trim_start(s@) == s@.subrange(a as int, n as int));
    let mut b: usize = n;
    while b > a && is_white_space_char(cs[b - 1])
        invariant
            a <= b <= n,
            n == cs@.len(),
            cs@ == s@,
            trim(s@) == trim_end(s@.subrange(a as int, b as int)),
        decreases b - a,
    {
        assert(s@.subrange(a as int, b as int).drop_last() =~= s@.subrange(a as int, b - 1));
        b = b - 1;
    }
    assert(trim(s@) == s@.subrange(a as int, b as int));
    s.substring_char(a, b).to_string()
}

/// `t` without one final carriage return, if it ends in one.
pub open spec fn strip_cr(t: Seq<char>) -> Seq<char> {
    if t.len() > 0 && t.last() == '\r' {
        t.drop_last()
    } else {
        t
    }
}

/// The lines of `s` from position `i` on, where the current line began at
/// `start`: a line ends at a line feed, which is not part of it, and loses a
/// carriage return just before that line feed; a last line without a line
/// feed is kept whole, and an empty rest makes no line.
pub open spec fn lines_from(s: Seq<char>, start: int, i: int) -> Seq<Seq<char>>
    decreases s.len() - i,
{
    if i >= s.len() {
        if start < s.len() {
            seq![s.subrange(start, s.len() as int)]
        } else {
            seq![]
        }
    } else if s[i] == '\n' {
        seq![strip_cr(s.subrange(start, i))] + lines_from(s, i + 1, i + 1)
    } else {
        lines_from(s, start, i + 1)
    }
}

/// The lines of `s`, as `str::lines` yields them.
pub open spec fn text_lines(s: Seq<char>) -> Seq<Seq<char>> {
    lines_from(s, 0, 0)
}

/// The lines of `s`, as `str::lines` yields them.
pub fn split_lines(s: &str) -> (r: Vec<String>)
    ensures
        r.deep_view() == text_lines(s@),
{
    let cs = chars_of(s);
    let n = cs.len();
    let mut out: Vec<String> = Vec::new();
    let mut start: usize = 0;
    let mut i: usize = 0;
    while i < n
        invariant
            start <= i <= n,
            n == cs@.len(),
            cs@ == s@,
            out.deep_view() + lines_from(s@, start as int, i as int) == text_lines(s@),
        decreases n - i,
    {
        if cs[i] == '\n' {
            let end = if i > start && cs[i - 1] == '\r' {
                i - 1
            } else {
                i
            };
            let line = s.substring_char(start, end).to_string();
            let ghost before = out.deep_view();
            assert(line@ == strip_cr(s@.subrange(start as int, i as int)));
            out.push(line);
            assert(out.deep_view() =~= before.push(line@));
            assert(before + lines_from(s@, start as int, i as int) =~= out.deep_view()
                + lines_from(s@, i + 1, i + 1));
            start = i + 1;
        }
        i = i + 1;
    }
    if start < n {
        let line = s.substring_char(start, n).to_string();
        let ghost before = out.deep_view();
        out.push(line);
        assert(out.deep_view() =~= before.push(line@));
        assert(before + lines_from(s@, start as int, n as int) =~= out.deep_view());
    } else {
        assert(out.deep_view() + lines_from(s@, start as int, n as int) =~= out.deep_view());
    }
    out
}

} // verus!

verus! {

/// `trim_start(s)` is empty or starts with a character that is not white
/// space.
proof fn lemma_trim_start_shape(s: Seq<char>)
    ensures
        trim_start(s).len() == 0 || !is_white_space(trim_start(s)[0]),
    decreases s.len(),
{
    if s.len() > 0 && is_white_space(s[0]) {
        lemma_trim_start_shape(s.drop_first());
    }
}

/// `trim_end(s)` is empty or ends with a character that is not white space,
/// and it starts as `s` does.
proof fn lemma_trim_end_shape(s: Seq<char>)
    ensures
        trim_end(s).len() == 0 || !is_white_space(trim_end(s).last()),
        trim_end(s).len() > 0 ==> trim_end(s)[0] == s[0],
    decreases s.len(),
{
    if s.len() > 0 && is_white_space(s.last()) {
        lemma_trim_end_shape(s.drop_last());
    }
}

/// A trimmed text is empty or starts and ends with characters that are not
/// white space.
pub proof fn lemma_trim_shape(s: Seq<char>)
    ensures
        trim(s).len() == 0 || (!is_white_space(trim(s)[0]) && !is_white_space(trim(s).last())),
{
    lemma_trim_start_shape(s);
    lemma_trim_end_shape(trim_start(s));
}

/// Trimming a trimmed text changes nothing.
pub proof fn lemma_trim_idempotent(s: Seq<char>)
    ensures
        trim(trim(s)) == trim(s),
{
    lemma_trim_shape(s);
    let u = trim(s);
    assert(trim_start(u) == u);
    assert(trim_end(u) == u);
}

/// The lines of `t` from a position `i` on, where `t` is followed by one
/// more line ending, are those of `t` alone.
proof fn lemma_lines_from_final_ending(t: Seq<char>, ending: Seq<char>, start: int, i: int)
    requires
        ending == seq!['\n'] || ending == seq!['\r', '\n'],
        t.len() > 0,
        t.last() != '\n',
        ending == seq!['\n'] ==> t.last() != '\r',
        0 <= start <= i <= t.len(),
        start < t.len(),
    ensures
        lines_from(t + ending, start, i) == lines_from(t, start, i),
    decreases t.len() - i,
{
    let s = t + ending;
    let n = t.len() as int;
    if i < n {
        assert(s[i] == t[i]);
        if t[i] == '\n' {
            assert(s.subrange(start, i) =~= t.subrange(start, i));
            lemma_lines_from_final_ending(t, ending, i + 1, i + 1);
        } else {
            lemma_lines_from_final_ending(t, ending, start, i + 1);
        }
    } else {
        if ending == seq!['\n'] {
            assert(s[n] == '\n');
            assert(s.subrange(start, n) =~= t.subrange(start, n));
            assert(lines_from(s, n + 1, n + 1) == Seq::<Seq<char>>::empty());
            assert(lines_from(s, start, n) =~= seq![t.subrange(start, n)]);
        } else {
            assert(s[n] == '\r');
            assert(s[n + 1] == '\n');
            assert(lines_from(s, start, n) == lines_from(s, start, n + 1));
            assert(s.subrange(start, n + 1).drop_last() =~= t.subrange(start, n));
            assert(lines_from(s, n + 2, n + 2) == Seq::<Seq<char>>::empty());
            assert(lines_from(s, start, n + 1) =~= seq![t.subrange(start, n)]);
        }
    }
}

/// A final line ending changes nothing: a text that does not end with a
/// line ending has the same lines once a line feed, or a carriage return
/// and a line feed, is added at its end.  (A text that ends with a carriage
/// return gets a last line without it from the line feed alone.)
pub proof fn lemma_final_line_ending(t: Seq<char>)
    requires
        t.len() > 0,
        t.last() != '\n',
    ensures
        text_lines(t + seq!['\r', '\n']) == text_lines(t),
        t.last() != '\r' ==> text_lines(t + seq!['\n']) == text_lines(t),
{
    lemma_lines_from_final_ending(t, seq!['\r', '\n'], 0, 0);
    if t.last() != '\r' {
        lemma_lines_from_final_ending(t, seq!['\n'], 0, 0);
    }
}

/// No line of the lines from position `i` on holds a line feed, when the
/// current line up to `i` holds none.
proof fn lemma_lines_from_no_line_feed(s: Seq<char>, start: int, i: int)
    requires
        0 <= start <= i <= s.len(),
        forall|k: int| start <= k < i ==> s[k] != '\n',
    ensures
        forall|j: int, k: int|
            0 <= j < lines_from(s, start, i).len() && 0 <= k < lines_from(s, start, i)[j].len()
                ==> lines_from(s, start, i)[j][k] != '\n',
    decreases s.len() - i,
{
    if i < s.len() {
        if s[i] == '\n' {
            lemma_lines_from_no_line_feed(s, i + 1, i + 1);
            let first = strip_cr(s.subrange(start, i));
            assert forall|k: int| 0 <= k < first.len() implies first[k] != '\n' by {
                assert(first[k] == s[start + k]);
            }
            let rest = lines_from(s, i + 1, i + 1);
            assert(lines_from(s, start, i) == seq![first] + rest);
            assert forall|j: int, k: int|
                0 <= j < lines_from(s, start, i).len() && 0 <= k < lines_from(
                    s,
                    start,
                    i,
                )[j].len() implies lines_from(s, start, i)[j][k] != '\n' by {
                if j > 0 {
                    assert(lines_from(s, start, i)[j] == rest[j - 1]);
                } else {
                    assert(lines_from(s, start, i)[j] == first);
                }
            }
        } else {
            lemma_lines_from_no_line_feed(s, start, i + 1);
            assert(lines_from(s, start, i) == lines_from(s, start, i + 1));
        }
    } else if start < s.len() {
        let last = s.subrange(start, s.len() as int);
        assert forall|k: int| 0 <= k < last.len() implies last[k] != '\n' by {
            assert(last[k] == s[start + k]);
        }
        assert(lines_from(s, start, i) == seq![last]);
    } else {
        assert(lines_from(s, start, i).len() == 0);
    }
}

/// No line of a text holds a line feed.
pub proof fn lemma_lines_hold_no_line_feed(s: Seq<char>)
    ensures
        forall|j: int, k: int|
            0 <= j < text_lines(s).len() && 0 <= k < text_lines(s)[j].len() ==> text_lines(s)[j][k]
                != '\n',
{
    lemma_lines_from_no_line_feed(s, 0, 0);
}

} // verus!

verus! {

/// The text of a file that holds `lines`: each line followed by a line feed.
pub open spec fn lines_text(lines: Seq<Seq<char>>) -> Seq<char>
    decreases lines.len(),
{
    if lines.len() == 0 {
        seq![]
    } else {
        lines[0] + seq!['\n'] + lines_text(lines.drop_first())
    }
}

/// The text of a file that holds `lines`: each line followed by a line feed.
pub fn join_lines(lines: &Vec<String>) -> (r: String)
    ensures
        r@ == lines_text(lines.deep_view()),
{
    let ghost all = lines.deep_view();
    let mut out = String::new();
    let n = lines.len();
    let mut i: usize = 0;
    proof {
        reveal_strlit("\n");
        assert(all.skip(0) =~= all);
    }
    while i < n
        invariant
            i <= n,
            n == lines.len(),
            all == lines.deep_view(),
            "\n"@ == seq!['\n'],
            out@ + lines_text(all.skip(i as int)) == lines_text(all),
        decreases n - i,
    {
        let ghost before = out@;
        assert(all.skip(i as int).drop_first() =~= all.skip(i + 1));
        assert(all.skip(i as int)[0] == all[i as int]);
        out.append(lines[i].as_str());
        out.append("\n");
        assert(before + lines_text(all.skip(i as int)) =~= out@ + lines_text(all.skip(i + 1)));
        i = i + 1;
    }
    assert(lines_text(all.skip(n as int)) =~= seq![]);
    assert(out@ + seq![] =~= out@);
    out
}

/// Characters other than line feeds do not change the lines from a
/// position on.
proof fn lemma_lines_from_scan(s: Seq<char>, start: int, i: int, j: int)
    requires
        0 <= start <= i <= j <= s.len(),
        forall|k: int| i <= k < j ==> s[k] != '\n',
    ensures
        lines_from(s, start, i) == lines_from(s, start, j),
    decreases j - i,
{
    if i < j {
        lemma_lines_from_scan(s, start, i + 1, j);
    }
}

/// The lines of `s` from a position on are those of `s` without its first
/// `k` characters, from the position `k` places earlier.
proof fn lemma_lines_from_shift(s: Seq<char>, k: int, start: int, i: int)
    requires
        0 <= k <= start <= i <= s.len(),
    ensures
        lines_from(s, start, i) == lines_from(s.skip(k), start - k, i - k),
    decreases s.len() - i,
{
    let t = s.skip(k);
    if i >= s.len() {
        if start < s.len() {
            assert(s.subrange(start, s.len() as int) =~= t.subrange(start - k, t.len() as int));
        }
    } else {
        assert(t[i - k] == s[i]);
        if s[i] == '\n' {
            assert(s.subrange(start, i) =~= t.subrange(start - k, i - k));
            lemma_lines_from_shift(s, k, i + 1, i + 1);
        } else {
            lemma_lines_from_shift(s, k, start, i + 1);
        }
    }
}

/// Lines without line feeds that do not end with a carriage return, written
/// one per line, read back as themselves.
pub proof fn lemma_lines_text_round_trip(lines: Seq<Seq<char>>)
    requires
        forall|j: int, k: int| 0 <= j < lines.len() && 0 <= k < lines[j].len() ==> #[trigger] lines[j][k] != '\n',
        forall|j: int| 0 <= j < lines.len() && #[trigger] lines[j].len() > 0 ==> lines[j].last() != '\r',
    ensures
        text_lines(lines_text(lines)) == lines,
    decreases lines.len(),
{
    if lines.len() > 0 {
        let l = lines[0];
        let rest = lines.drop_first();
        assert forall|j: int, k: int| 0 <= j < rest.len() && 0 <= k < rest[j].len() implies #[trigger] rest[j][k] != '\n' by {
            assert(rest[j] == lines[j + 1]);
        }
        assert forall|j: int| 0 <= j < rest.len() && #[trigger] rest[j].len() > 0 implies rest[j].last() != '\r' by {
            assert(rest[j] == lines[j + 1]);
        }
        lemma_lines_text_round_trip(rest);
        let s = lines_text(lines);
        let n = l.len() as int;
        assert(s == l + seq!['\n'] + lines_text(rest));
        assert forall|k: int| 0 <= k < n implies s[k] != '\n' by {
            assert(s[k] == l[k]);
            assert(lines[0][k] != '\n');
        }
        lemma_lines_from_scan(s, 0, 0, n);
        assert(s[n] == '\n');
        assert(s.subrange(0, n) =~= l);
        if n > 0 {
            assert(lines[0].last() != '\r');
        }
        assert(strip_cr(l) == l);
        lemma_lines_from_shift(s, n + 1, n + 1, n + 1);
        assert(s.skip(n + 1) =~= lines_text(rest));
        assert(seq![l] + rest =~= lines);
    }
}

} // verus!

verus! {

proof fn lemma_trim_start_drops_white_space(s: Seq<char>)
    ensures
        exists|a: int|
            0 <= a <= s.len() && trim_start(s) == s.subrange(a, s.len() as int) && forall|k: int|
                0 <= k < a ==> is_white_space(#[trigger] s[k]),
    decreases s.len(),
{
    if s.len() > 0 && is_white_space(s[0]) {
        let t = s.drop_first();
        lemma_trim_start_drops_white_space(t);
        let a = choose|a: int|
            0 <= a <= t.len() && trim_start(t) == t.subrange(a, t.len() as int) && forall|k: int|
                0 <= k < a ==> is_white_space(#[trigger] t[k]);
        assert(t.subrange(a, t.len() as int) =~= s.subrange(a + 1, s.len() as int));
        assert forall|k: int| 0 <= k < a + 1 implies is_white_space(#[trigger] s[k]) by {
            if k > 0 {
                assert(s[k] == t[k - 1]);
            }
        }
    } else {
        assert(s.subrange(0, s.len() as int) =~= s);
    }
}

proof fn lemma_trim_end_drops_white_space(s: Seq<char>)
    ensures
        exists|b: int|
            0 <= b <= s.len() && trim_end(s) == s.subrange(0, b) && forall|k: int|
                b <= k < s.len() ==> is_white_space(#[trigger] s[k]),
    decreases s.len(),
{
    if s.len() > 0 && is_white_space(s.last()) {
        let t = s.drop_last();
        lemma_trim_end_drops_white_space(t);
        let b = choose|b: int|
            0 <= b <= t.len() && trim_end(t) == t.subrange(0, b) && forall|k: int|
                b <= k < t.len() ==> is_white_space(#[trigger] t[k]);
        assert(t.subrange(0, b) =~= s.subrange(0, b));
        assert forall|k: int| b <= k < s.len() implies is_white_space(#[trigger] s[k]) by {
            if k < s.len() - 1 {
                assert(s[k] == t[k]);
            }
        }
    } else {
        assert(s.subrange(0, s.len() as int) =~= s);
    }
}

/// Trimming removes white space only, and only at the ends: the trimmed
/// text is the part of `s` between some `a` and `b`, everything before `a`
/// and from `b` on is white space, and the trimmed text neither starts nor
/// ends with white space.
pub proof fn lemma_trim_removes_only_outer_white_space(s: Seq<char>)
    ensures
        exists|a: int, b: int|
            0 <= a <= b <= s.len() && trim(s) == s.subrange(a, b) && (forall|k: int|
                0 <= k < a ==> is_white_space(#[trigger] s[k])) && (forall|k: int|
                b <= k < s.len() ==> is_white_space(#[trigger] s[k])),
        trim(s).len() == 0 || (!is_white_space(trim(s)[0]) && !is_white_space(trim(s).last())),
{
    lemma_trim_shape(s);
    lemma_trim_start_drops_white_space(s);
    let a = choose|a: int|
        0 <= a <= s.len() && trim_start(s) == s.subrange(a, s.len() as int) && forall|k: int|
            0 <= k < a ==> is_white_space(#[trigger] s[k]);
    let u = s.subrange(a, s.len() as int);
    lemma_trim_end_drops_white_space(u);
    let c = choose|c: int|
        0 <= c <= u.len() && trim_end(u) == u.subrange(0, c) && forall|k: int|
            c <= k < u.len() ==> is_white_space(#[trigger] u[k]);
    let b = a + c;
    assert(u.subrange(0, c) =~= s.subrange(a, b));
    assert forall|k: int| b <= k < s.len() implies is_white_space(#[trigger] s[k]) by {
        assert(s[k] == u[k - a]);
    }
}

} // verus!

verus! {

proof fn lemma_lines_text_cons(x: Seq<char>, rest: Seq<Seq<char>>)
    ensures
        lines_text(seq![x] + rest) == x + seq!['\n'] + lines_text(rest),
{
    assert((seq![x] + rest)[0] == x);
    assert((seq![x] + rest).drop_first() =~= rest);
}

proof fn lemma_lines_from_join(s: Seq<char>, start: int, i: int)
    requires
        0 <= start <= i <= s.len(),
        forall|k: int| start <= k < i ==> s[k] != '\n',
        forall|k: int| 0 <= k < s.len() ==> s[k] != '\r',
    ensures
        lines_text(lines_from(s, start, i)) == if start < s.len() && s.last() != '\n' {
            s.skip(start) + seq!['\n']
        } else {
            s.skip(start)
        },
    decreases s.len() - i,
{
    if i >= s.len() {
        if start < s.len() {
            let l = s.subrange(start, s.len() as int);
            assert(s.last() == s[s.len() - 1]);
            assert(seq![l] =~= seq![l] + Seq::<Seq<char>>::empty());
            lemma_lines_text_cons(l, Seq::<Seq<char>>::empty());
            assert(l + seq!['\n'] + Seq::<char>::empty() =~= s.skip(start) + seq!['\n']);
        } else {
            assert(s.skip(start) =~= Seq::<char>::empty());
        }
    } else if s[i] == '\n' {
        lemma_lines_from_join(s, i + 1, i + 1);
        let l = s.subrange(start, i);
        if l.len() > 0 {
            assert(l.last() == s[i - 1]);
        }
        assert(strip_cr(l) == l);
        lemma_lines_text_cons(l, lines_from(s, i + 1, i + 1));
        assert(s.skip(start) =~= l + seq!['\n'] + s.skip(i + 1));
        if i + 1 == s.len() {
            assert(s.last() == '\n');
            assert(s.skip(i + 1) =~= Seq::<char>::empty());
        }
        assert(l + seq!['\n'] + (s.skip(i + 1) + seq!['\n']) =~= s.skip(start) + seq!['\n']);
        assert(l + seq!['\n'] + s.skip(i + 1) =~= s.skip(start));
    } else {
        lemma_lines_from_join(s, start, i + 1);
    }
}

/// Splitting a text without carriage returns into lines and writing the
/// lines back one per line gives the text back, with a final line feed
/// added if it had none (and was not empty).
pub proof fn lemma_split_then_join(s: Seq<char>)
    requires
        forall|k: int| 0 <= k < s.len() ==> s[k] != '\r',
    ensures
        lines_text(text_lines(s)) == if s.len() > 0 && s.last() != '\n' {
            s + seq!['\n']
        } else {
            s
        },
{
    lemma_lines_from_join(s, 0, 0);
    assert(s.skip(0) =~= s);
}

} // verus!

verus! {

/// The ASCII white space is white space, and no visible ASCII character
/// is.
pub proof fn lemma_ascii_white_space(c: char)
    ensures
        is_white_space(' ') && is_white_space('\t') && is_white_space('\n') && is_white_space('\r')
            && is_white_space('\u{b}') && is_white_space('\u{c}'),
        ('!' <= c && c <= '~') ==> !is_white_space(c),
{
}

} // verus!
