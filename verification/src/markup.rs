//! Markup annotation over already-escaped text: a first pass wraps each
//! leftmost-shortest `__...__` span in a variable marker, a second pass wraps
//! each case-insensitive placeholder keyword (`@time`, `@clipboard`,
//! `@cursor`, `@date`) in a placeholder marker. Matches are found left to
//! right and never overlap: scanning resumes after the end of each match.

use vstd::prelude::*;
use vstd::string::*;

verus! {

/// A double underscore starts at position `i`.
pub open spec fn dunder_at(s: Seq<char>, i: int) -> bool {
    0 <= i && i + 2 <= s.len() && s[i] == '_' && s[i + 1] == '_'
}

/// The position of the first double underscore at or after `k`, if any.
pub open spec fn find_dunder(s: Seq<char>, k: int) -> Option<int>
    decreases s.len() - k,
{
    if k < 0 || k + 2 > s.len() {
        None
    } else if dunder_at(s, k) {
        Some(k)
    } else {
        find_dunder(s, k + 1)
    }
}

/// `find_dunder` returns the leftmost double underscore at or after `k`,
/// and `None` exactly when there is none.
pub proof fn lemma_find_dunder(s: Seq<char>, k: int)
    requires
        0 <= k,
    ensures
        match find_dunder(s, k) {
            Some(i) => k <= i && dunder_at(s, i) && forall|m: int| k <= m < i ==> !dunder_at(s, m),
            None => forall|m: int| m >= k ==> !dunder_at(s, m),
        },
    decreases s.len() - k,
{
    if k + 2 > s.len() {
    } else if dunder_at(s, k) {
    } else {
        lemma_find_dunder(s, k + 1);
    }
}

/// The marker that opens a variable span.
pub open spec fn variable_open() -> Seq<char> {
    "<span class=\"variable\">"@
}

/// The marker that opens a placeholder span.
pub open spec fn placeholder_open() -> Seq<char> {
    "<span class=\"placeholder\">"@
}

/// The marker that closes either span.
pub open spec fn span_close() -> Seq<char> {
    "</span>"@
}

/// The variable pass over the suffix of `s` that starts at `p`: the leftmost
/// `__...__` span with the shortest body is wrapped in a variable marker,
/// then the scan resumes after its closing pair.
pub open spec fn spec_variable_pass_from(s: Seq<char>, p: int) -> Seq<char>
    decreases s.len() - p,
{
    if !(0 <= p <= s.len()) {
        Seq::empty()
    } else {
        match find_dunder(s, p) {
            None => s.subrange(p, s.len() as int),
            Some(i) => match find_dunder(s, i + 2) {
                None => s.subrange(p, s.len() as int),
                Some(j) => if p <= i && i + 2 <= j && j + 2 <= s.len() {
                    s.subrange(p, i) + variable_open() + s.subrange(i, j + 2) + span_close()
                        + spec_variable_pass_from(s, j + 2)
                } else {
                    Seq::empty()
                },
            },
        }
    }
}

/// The variable pass over a whole text.
pub open spec fn spec_variable_pass(s: Seq<char>) -> Seq<char> {
    spec_variable_pass_from(s, 0)
}

/// `@time`, case-insensitively, starts at position `i`.
pub open spec fn kw_time_at(s: Seq<char>, i: int) -> bool {
    0 <= i && i + 5 <= s.len() && s[i] == '@' && (s[i + 1] == 't' || s[i + 1] == 'T') && (s[i + 2]
        == 'i' || s[i + 2] == 'I') && (s[i + 3] == 'm' || s[i + 3] == 'M') && (s[i + 4] == 'e' || s[
        i + 4
    ] == 'E')
}

/// `@clipboard`, case-insensitively, starts at position `i`.
pub open spec fn kw_clipboard_at(s: Seq<char>, i: int) -> bool {
    0 <= i && i + 10 <= s.len() && s[i] == '@' && (s[i + 1] == 'c' || s[i + 1] == 'C') && (s[i + 2]
        == 'l' || s[i + 2] == 'L') && (s[i + 3] == 'i' || s[i + 3] == 'I') && (s[i + 4] == 'p' || s[
        i + 4
    ] == 'P') && (s[i + 5] == 'b' || s[i + 5] == 'B') && (s[i + 6] == 'o' || s[i + 6] == 'O') && (s[
        i + 7
    ] == 'a' || s[i + 7] == 'A') && (s[i + 8] == 'r' || s[i + 8] == 'R') && (s[i + 9] == 'd' || s[i
        + 9] == 'D')
}

/// `@cursor`, case-insensitively, starts at position `i`.
pub open spec fn kw_cursor_at(s: Seq<char>, i: int) -> bool {
    0 <= i && i + 7 <= s.len() && s[i] == '@' && (s[i + 1] == 'c' || s[i + 1] == 'C') && (s[i + 2]
        == 'u' || s[i + 2] == 'U') && (s[i + 3] == 'r' || s[i + 3] == 'R') && (s[i + 4] == 's' || s[
        i + 4
    ] == 'S') && (s[i + 5] == 'o' || s[i + 5] == 'O') && (s[i + 6] == 'r' || s[i + 6] == 'R')
}

/// `@date`, case-insensitively, starts at position `i`.
pub open spec fn kw_date_at(s: Seq<char>, i: int) -> bool {
    0 <= i && i + 5 <= s.len() && s[i] == '@' && (s[i + 1] == 'd' || s[i + 1] == 'D') && (s[i + 2]
        == 'a' || s[i + 2] == 'A') && (s[i + 3] == 't' || s[i + 3] == 'T') && (s[i + 4] == 'e' || s[
        i + 4
    ] == 'E')
}

/// The length of the placeholder keyword that starts at position `i`, if one
/// does. At most one keyword can start at a given position, since the
/// keywords differ within their first two letters.
pub open spec fn kw_len_at(s: Seq<char>, i: int) -> Option<int> {
    if kw_time_at(s, i) {
        Some(5int)
    } else if kw_clipboard_at(s, i) {
        Some(10int)
    } else if kw_cursor_at(s, i) {
        Some(7int)
    } else if kw_date_at(s, i) {
        Some(5int)
    } else {
        None
    }
}

/// The start and length of the first placeholder keyword at or after `k`.
pub open spec fn find_kw(s: Seq<char>, k: int) -> Option<(int, int)>
    decreases s.len() - k,
{
    if k < 0 || k >= s.len() {
        None
    } else {
        match kw_len_at(s, k) {
            Some(l) => Some((k, l)),
            None => find_kw(s, k + 1),
        }
    }
}

/// `find_kw` returns the leftmost placeholder keyword at or after `k`, and
/// `None` exactly when there is none.
pub proof fn lemma_find_kw(s: Seq<char>, k: int)
    requires
        0 <= k,
    ensures
        match find_kw(s, k) {
            Some(m) => k <= m.0 && kw_len_at(s, m.0) == Some(m.1) && 0 < m.1 && m.0 + m.1
                <= s.len() && forall|q: int| k <= q < m.0 ==> kw_len_at(s, q) is None,
            None => forall|q: int| q >= k ==> kw_len_at(s, q) is None,
        },
    decreases s.len() - k,
{
    if k >= s.len() {
    } else if kw_len_at(s, k) is Some {
    } else {
        lemma_find_kw(s, k + 1);
    }
}

/// The placeholder pass over the suffix of `s` that starts at `p`: the
/// leftmost keyword occurrence is wrapped in a placeholder marker with its
/// casing kept, then the scan resumes after it.
pub open spec fn spec_placeholder_pass_from(s: Seq<char>, p: int) -> Seq<char>
    decreases s.len() - p,
{
    if !(0 <= p <= s.len()) {
        Seq::empty()
    } else {
        match find_kw(s, p) {
            None => s.subrange(p, s.len() as int),
            Some(m) => if p <= m.0 && 0 < m.1 && m.0 + m.1 <= s.len() {
                s.subrange(p, m.0) + placeholder_open() + s.subrange(m.0, m.0 + m.1) + span_close()
                    + spec_placeholder_pass_from(s, m.0 + m.1)
            } else {
                Seq::empty()
            },
        }
    }
}

/// The placeholder pass over a whole text.
pub open spec fn spec_placeholder_pass(s: Seq<char>) -> Seq<char> {
    spec_placeholder_pass_from(s, 0)
}

/// Both passes: variables first, then placeholders over the result of the
/// variable pass.
pub open spec fn spec_annotate(s: Seq<char>) -> Seq<char> {
    spec_placeholder_pass(spec_variable_pass(s))
}

fn find_dunder_exec(text: &str, n: usize, k: usize) -> (r: Option<usize>)
    requires
        n == text@.len(),
        k <= n,
    ensures
        match r {
            Some(i) => k <= i && i + 2 <= n && find_dunder(text@, k as int) == Some(i as int),
            None => find_dunder(text@, k as int) is None,
        },
{
    let mut m = k;
    while m < n && m + 1 < n
        invariant
            n == text@.len(),
            k <= m <= n,
            find_dunder(text@, k as int) == find_dunder(text@, m as int),
        decreases n - m,
    {
        if text.get_char(m) == '_' && text.get_char(m + 1) == '_' {
            proof {
                assert(dunder_at(text@, m as int));
            }
            return Some(m);
        }
        proof {
            assert(!dunder_at(text@, m as int));
        }
        m = m + 1;
    }
    proof {
        assert(m as int + 2 > text@.len());
    }
    None
}

fn kw_len_at_exec(text: &str, n: usize, i: usize) -> (r: Option<usize>)
    requires
        n == text@.len(),
        i < n,
    ensures
        match r {
            Some(l) => kw_len_at(text@, i as int) == Some(l as int) && 0 < l && i + l <= n,
            None => kw_len_at(text@, i as int) is None,
        },
{
    if text.get_char(i) != '@' {
        return None;
    }
    let time = n - i >= 5 && {
        let c1 = text.get_char(i + 1);
        let c2 = text.get_char(i + 2);
        let c3 = text.get_char(i + 3);
        let c4 = text.get_char(i + 4);
        (c1 == 't' || c1 == 'T') && (c2 == 'i' || c2 == 'I') && (c3 == 'm' || c3 == 'M') && (c4
            == 'e' || c4 == 'E')
    };
    if time {
        return Some(5);
    }
    let clipboard = n - i >= 10 && {
        let c1 = text.get_char(i + 1);
        let c2 = text.get_char(i + 2);
        let c3 = text.get_char(i + 3);
        let c4 = text.get_char(i + 4);
        let c5 = text.get_char(i + 5);
        let c6 = text.get_char(i + 6);
        let c7 = text.get_char(i + 7);
        let c8 = text.get_char(i + 8);
        let c9 = text.get_char(i + 9);
        (c1 == 'c' || c1 == 'C') && (c2 == 'l' || c2 == 'L') && (c3 == 'i' || c3 == 'I') && (c4
            == 'p' || c4 == 'P') && (c5 == 'b' || c5 == 'B') && (c6 == 'o' || c6 == 'O') && (c7
            == 'a' || c7 == 'A') && (c8 == 'r' || c8 == 'R') && (c9 == 'd' || c9 == 'D')
    };
    if clipboard {
        return Some(10);
    }
    let cursor = n - i >= 7 && {
        let c1 = text.get_char(i + 1);
        let c2 = text.get_char(i + 2);
        let c3 = text.get_char(i + 3);
        let c4 = text.get_char(i + 4);
        let c5 = text.get_char(i + 5);
        let c6 = text.get_char(i + 6);
        (c1 == 'c' || c1 == 'C') && (c2 == 'u' || c2 == 'U') && (c3 == 'r' || c3 == 'R') && (c4
            == 's' || c4 == 'S') && (c5 == 'o' || c5 == 'O') && (c6 == 'r' || c6 == 'R')
    };
    if cursor {
        return Some(7);
    }
    let date = n - i >= 5 && {
        let c1 = text.get_char(i + 1);
        let c2 = text.get_char(i + 2);
        let c3 = text.get_char(i + 3);
        let c4 = text.get_char(i + 4);
        (c1 == 'd' || c1 == 'D') && (c2 == 'a' || c2 == 'A') && (c3 == 't' || c3 == 'T') && (c4
            == 'e' || c4 == 'E')
    };
    if date {
        return Some(5);
    }
    None
}

fn find_kw_exec(text: &str, n: usize, k: usize) -> (r: Option<(usize, usize)>)
    requires
        n == text@.len(),
        k <= n,
    ensures
        match r {
            Some(m) => k <= m.0 && 0 < m.1 && m.0 + m.1 <= n && find_kw(text@, k as int) == Some(
                (m.0 as int, m.1 as int),
            ),
            None => find_kw(text@, k as int) is None,
        },
{
    let mut m = k;
    while m < n
        invariant
            n == text@.len(),
            k <= m <= n,
            find_kw(text@, k as int) == find_kw(text@, m as int),
        decreases n - m,
    {
        match kw_len_at_exec(text, n, m) {
            Some(l) => {
                return Some((m, l));
            },
            None => {},
        }
        m = m + 1;
    }
    None
}

/// Wraps each leftmost-shortest `__...__` span in a variable marker,
/// scanning left to right without overlap.
pub fn variable_pass(text: &str) -> (r: String)
    ensures
        r@ == spec_variable_pass(text@),
{
    let n = text.unicode_len();
    let mut out = String::new();
    let mut p: usize = 0;
    let mut more = true;
    while more
        invariant
            n == text@.len(),
            p <= n,
            more ==> spec_variable_pass(text@) == out@ + spec_variable_pass_from(text@, p as int),
            !more ==> out@ == spec_variable_pass(text@),
        decreases n - p + (if more { 1int } else { 0int }),
    {
        match find_dunder_exec(text, n, p) {
            None => {
                let tail = text.substring_char(p, n);
                out.append(tail);
                proof {
                    assert(spec_variable_pass_from(text@, p as int) == text@.subrange(
                        p as int,
                        n as int,
                    ));
                    assert(out@ == spec_variable_pass(text@));
                }
                more = false;
            },
            Some(i) => match find_dunder_exec(text, n, i + 2) {
                None => {
                    let tail = text.substring_char(p, n);
                    out.append(tail);
                    proof {
                        assert(spec_variable_pass_from(text@, p as int) == text@.subrange(
                            p as int,
                            n as int,
                        ));
                        assert(out@ == spec_variable_pass(text@));
                    }
                    more = false;
                },
                Some(j) => {
                    proof {
                        lemma_find_dunder(text@, p as int);
                        lemma_find_dunder(text@, i as int + 2);
                    }
                    let before = text.substring_char(p, i);
                    let span = text.substring_char(i, j + 2);
                    out.append(before);
                    out.append("<span class=\"variable\">");
                    out.append(span);
                    out.append("</span>");
                    proof {
                        assert(spec_variable_pass_from(text@, p as int) == text@.subrange(
                            p as int,
                            i as int,
                        ) + variable_open() + text@.subrange(i as int, j as int + 2) + span_close()
                            + spec_variable_pass_from(text@, j as int + 2));
                        assert(out@ + spec_variable_pass_from(text@, j as int + 2)
                            =~= spec_variable_pass(text@));
                    }
                    p = j + 2;
                },
            },
        }
    }
    out
}

/// Wraps each placeholder keyword occurrence in a placeholder marker with its
/// casing kept, scanning left to right without overlap.
pub fn placeholder_pass(text: &str) -> (r: String)
    ensures
        r@ == spec_placeholder_pass(text@),
{
    let n = text.unicode_len();
    let mut out = String::new();
    let mut p: usize = 0;
    let mut more = true;
    while more
        invariant
            n == text@.len(),
            p <= n,
            more ==> spec_placeholder_pass(text@) == out@ + spec_placeholder_pass_from(
                text@,
                p as int,
            ),
            !more ==> out@ == spec_placeholder_pass(text@),
        decreases n - p + (if more { 1int } else { 0int }),
    {
        match find_kw_exec(text, n, p) {
            None => {
                let tail = text.substring_char(p, n);
                out.append(tail);
                proof {
                    assert(spec_placeholder_pass_from(text@, p as int) == text@.subrange(
                        p as int,
                        n as int,
                    ));
                    assert(out@ == spec_placeholder_pass(text@));
                }
                more = false;
            },
            Some((i, l)) => {
                proof {
                    lemma_find_kw(text@, p as int);
                }
                let before = text.substring_char(p, i);
                let span = text.substring_char(i, i + l);
                out.append(before);
                out.append("<span class=\"placeholder\">");
                out.append(span);
                out.append("</span>");
                proof {
                    assert(spec_placeholder_pass_from(text@, p as int) == text@.subrange(
                        p as int,
                        i as int,
                    ) + placeholder_open() + text@.subrange(i as int, i as int + l) + span_close()
                        + spec_placeholder_pass_from(text@, i as int + l));
                    assert(out@ + spec_placeholder_pass_from(text@, i as int + l)
                        =~= spec_placeholder_pass(text@));
                }
                p = i + l;
            },
        }
    }
    out
}

/// Applies the variable pass, then the placeholder pass to its result.
pub fn annotate(text: &str) -> (r: String)
    ensures
        r@ == spec_annotate(text@),
{
    let wrapped = variable_pass(text);
    placeholder_pass(wrapped.as_str())
}

/// The spans the variable pass wraps, as (start, end) bounds into the input:
/// scanning left to right, each span opens at the first double underscore
/// available and closes at the very next one, and the scan resumes after the
/// span.
pub open spec fn var_spans(s: Seq<char>, p: int) -> Seq<(int, int)>
    decreases s.len() - p,
{
    if !(0 <= p <= s.len()) {
        Seq::empty()
    } else {
        match find_dunder(s, p) {
            None => Seq::empty(),
            Some(i) => match find_dunder(s, i + 2) {
                None => Seq::empty(),
                Some(j) => if p <= i && i + 2 <= j && j + 2 <= s.len() {
                    seq![(i, j + 2)] + var_spans(s, j + 2)
                } else {
                    Seq::empty()
                },
            },
        }
    }
}

/// Where the gap before span `k` begins: at the scan start for the first
/// span, right after the previous span for the others.
pub open spec fn gap_start(p: int, ms: Seq<(int, int)>, k: int) -> int {
    if k == 0 {
        p
    } else {
        ms[k - 1].1
    }
}

/// Where the scan stands once every span is wrapped.
pub open spec fn spans_end(p: int, ms: Seq<(int, int)>) -> int {
    if ms.len() == 0 {
        p
    } else {
        ms.last().1
    }
}

/// The variable pass wraps every maximal `__...__` span exactly once, and
/// wrapped spans do not overlap:
/// - spans sit in order and are disjoint;
/// - each span opens and closes with a double underscore pair and is the
///   shortest such span (no double underscore strictly inside before the
///   closing pair);
/// - the gaps between spans hold no double underscore at all, so no span
///   could start there;
/// - past the last span no opening pair still has a closing pair, so nothing
///   that the pass should wrap is left unwrapped.
pub proof fn lemma_var_spans_exact(s: Seq<char>, p: int)
    requires
        0 <= p <= s.len(),
    ensures
        ({
            let ms = var_spans(s, p);
            &&& forall|k: int|
                0 <= k < ms.len() ==> {
                    let m = #[trigger] ms[k];
                    &&& p <= m.0
                    &&& m.0 + 4 <= m.1
                    &&& m.1 <= s.len()
                    &&& dunder_at(s, m.0)
                    &&& dunder_at(s, m.1 - 2)
                    &&& forall|q: int| m.0 + 2 <= q < m.1 - 2 ==> !dunder_at(s, q)
                }
            &&& forall|k: int| 0 < k < ms.len() ==> ms[k - 1].1 <= (#[trigger] ms[k]).0
            &&& forall|k: int, q: int|
                0 <= k < ms.len() && gap_start(p, ms, k) <= q < (#[trigger] ms[k]).0 ==> !(
                #[trigger] dunder_at(s, q))
            &&& forall|i: int, j: int|
                spans_end(p, ms) <= i && i + 2 <= j && #[trigger] dunder_at(s, i) ==> !(
                #[trigger] dunder_at(s, j))
        }),
    decreases s.len() - p,
{
    lemma_find_dunder(s, p);
    let ms = var_spans(s, p);
    match find_dunder(s, p) {
        None => {},
        Some(i) => {
            lemma_find_dunder(s, i + 2);
            match find_dunder(s, i + 2) {
                None => {
                    assert forall|a: int, b: int|
                        spans_end(p, ms) <= a && a + 2 <= b && #[trigger] dunder_at(s, a) implies !(
                    #[trigger] dunder_at(s, b)) by {
                        assert(a >= i);
                        assert(b >= i + 2);
                    }
                },
                Some(j) => {
                    lemma_var_spans_exact(s, j + 2);
                    let rest = var_spans(s, j + 2);
                    assert(ms == seq![(i, j + 2)] + rest);
                    assert(ms[0] == (i, j + 2));
                    assert(forall|k: int| 0 < k < ms.len() ==> ms[k] == #[trigger] rest[k - 1]);
                    assert(spans_end(p, ms) == spans_end(j + 2, rest));
                    assert forall|k: int, q: int|
                        0 <= k < ms.len() && gap_start(p, ms, k) <= q < (#[trigger] ms[k]).0
                            implies !(#[trigger] dunder_at(s, q)) by {
                        if k == 0 {
                            assert(q < i);
                        } else if k == 1 {
                            assert(gap_start(p, ms, k) == j + 2);
                            assert(gap_start(j + 2, rest, 0) == j + 2);
                            assert(ms[k].0 == rest[0].0);
                        } else {
                            assert(gap_start(p, ms, k) == rest[k - 2].1);
                            assert(gap_start(j + 2, rest, k - 1) == rest[k - 2].1);
                            assert(ms[k].0 == rest[k - 1].0);
                        }
                    }
                },
            }
        },
    }
}

/// The input rebuilt with each listed span wrapped in a variable marker:
/// gaps verbatim, one wrapper per span.
pub open spec fn wrap_var_spans(s: Seq<char>, p: int, ms: Seq<(int, int)>) -> Seq<char>
    decreases ms.len(),
{
    if ms.len() == 0 {
        s.subrange(p, s.len() as int)
    } else {
        s.subrange(p, ms[0].0) + variable_open() + s.subrange(ms[0].0, ms[0].1) + span_close()
            + wrap_var_spans(s, ms[0].1, ms.drop_first())
    }
}

/// The output of the variable pass is exactly the input with each matched
/// span wrapped once: text outside the spans is kept verbatim.
pub proof fn lemma_variable_pass_wraps(s: Seq<char>, p: int)
    requires
        0 <= p <= s.len(),
    ensures
        spec_variable_pass_from(s, p) == wrap_var_spans(s, p, var_spans(s, p)),
    decreases s.len() - p,
{
    lemma_find_dunder(s, p);
    match find_dunder(s, p) {
        None => {},
        Some(i) => {
            lemma_find_dunder(s, i + 2);
            match find_dunder(s, i + 2) {
                None => {},
                Some(j) => {
                    lemma_variable_pass_wraps(s, j + 2);
                    let ms = var_spans(s, p);
                    let rest = var_spans(s, j + 2);
                    assert(ms == seq![(i, j + 2)] + rest);
                    assert(ms[0] == (i, j + 2));
                    assert(ms.drop_first() =~= rest);
                },
            }
        },
    }
}

/// Text without a double underscore pair is left unchanged by the variable
/// pass.
pub proof fn lemma_variable_pass_unchanged(s: Seq<char>)
    requires
        forall|i: int| !dunder_at(s, i),
    ensures
        spec_variable_pass(s) == s,
{
    lemma_find_dunder(s, 0);
    assert(find_dunder(s, 0) is None);
    assert(s.subrange(0, s.len() as int) =~= s);
}

/// The spans the placeholder pass wraps, as (start, end) bounds into the
/// input: scanning left to right, each span is the leftmost keyword
/// occurrence available, and the scan resumes after it.
pub open spec fn kw_spans(s: Seq<char>, p: int) -> Seq<(int, int)>
    decreases s.len() - p,
{
    if !(0 <= p <= s.len()) {
        Seq::empty()
    } else {
        match find_kw(s, p) {
            None => Seq::empty(),
            Some(m) => if p <= m.0 && 0 < m.1 && m.0 + m.1 <= s.len() {
                seq![(m.0, m.0 + m.1)] + kw_spans(s, m.0 + m.1)
            } else {
                Seq::empty()
            },
        }
    }
}

/// The placeholder pass wraps every keyword occurrence exactly once, and
/// wrapped spans do not overlap:
/// - spans sit in order and are disjoint;
/// - each span is exactly one keyword occurrence;
/// - no keyword occurrence starts in a gap between spans;
/// - past the last span no keyword occurrence is left.
pub proof fn lemma_kw_spans_exact(s: Seq<char>, p: int)
    requires
        0 <= p <= s.len(),
    ensures
        ({
            let ms = kw_spans(s, p);
            &&& forall|k: int|
                0 <= k < ms.len() ==> {
                    let m = #[trigger] ms[k];
                    &&& p <= m.0
                    &&& m.0 < m.1 <= s.len()
                    &&& kw_len_at(s, m.0) == Some(m.1 - m.0)
                }
            &&& forall|k: int| 0 < k < ms.len() ==> ms[k - 1].1 <= (#[trigger] ms[k]).0
            &&& forall|k: int, q: int|
                0 <= k < ms.len() && gap_start(p, ms, k) <= q < (#[trigger] ms[k]).0 ==> (
                #[trigger] kw_len_at(s, q)) is None
            &&& forall|q: int| q >= spans_end(p, ms) ==> (#[trigger] kw_len_at(s, q)) is None
        }),
    decreases s.len() - p,
{
    lemma_find_kw(s, p);
    let ms = kw_spans(s, p);
    match find_kw(s, p) {
        None => {},
        Some(m) => {
            let e = m.0 + m.1;
            lemma_kw_spans_exact(s, e);
            let rest = kw_spans(s, e);
            assert(ms == seq![(m.0, e)] + rest);
            assert(ms[0] == (m.0, e));
            assert(forall|k: int| 0 < k < ms.len() ==> ms[k] == #[trigger] rest[k - 1]);
            assert(spans_end(p, ms) == spans_end(e, rest));
            assert forall|k: int, q: int|
                0 <= k < ms.len() && gap_start(p, ms, k) <= q < (#[trigger] ms[k]).0 implies (
            #[trigger] kw_len_at(s, q)) is None by {
                if k == 0 {
                    assert(q < m.0);
                } else if k == 1 {
                    assert(gap_start(p, ms, k) == e);
                    assert(gap_start(e, rest, 0) == e);
                    assert(ms[k].0 == rest[0].0);
                } else {
                    assert(gap_start(p, ms, k) == rest[k - 2].1);
                    assert(gap_start(e, rest, k - 1) == rest[k - 2].1);
                    assert(ms[k].0 == rest[k - 1].0);
                }
            }
        },
    }
}

/// The input rebuilt with each listed span wrapped in a placeholder marker:
/// gaps verbatim, one wrapper per span, the matched text kept with its
/// casing.
pub open spec fn wrap_kw_spans(s: Seq<char>, p: int, ms: Seq<(int, int)>) -> Seq<char>
    decreases ms.len(),
{
    if ms.len() == 0 {
        s.subrange(p, s.len() as int)
    } else {
        s.subrange(p, ms[0].0) + placeholder_open() + s.subrange(ms[0].0, ms[0].1) + span_close()
            + wrap_kw_spans(s, ms[0].1, ms.drop_first())
    }
}

/// The output of the placeholder pass is exactly the input with each keyword
/// occurrence wrapped once: text outside the occurrences is kept verbatim.
pub proof fn lemma_placeholder_pass_wraps(s: Seq<char>, p: int)
    requires
        0 <= p <= s.len(),
    ensures
        spec_placeholder_pass_from(s, p) == wrap_kw_spans(s, p, kw_spans(s, p)),
    decreases s.len() - p,
{
    lemma_find_kw(s, p);
    match find_kw(s, p) {
        None => {},
        Some(m) => {
            let e = m.0 + m.1;
            lemma_placeholder_pass_wraps(s, e);
            let ms = kw_spans(s, p);
            let rest = kw_spans(s, e);
            assert(ms == seq![(m.0, e)] + rest);
            assert(ms[0] == (m.0, e));
            assert(ms.drop_first() =~= rest);
        },
    }
}

/// Text without a placeholder keyword occurrence is left unchanged by the
/// placeholder pass.
pub proof fn lemma_placeholder_pass_unchanged(s: Seq<char>)
    requires
        forall|i: int| kw_len_at(s, i) is None,
    ensures
        spec_placeholder_pass(s) == s,
{
    lemma_find_kw(s, 0);
    assert(find_kw(s, 0) is None);
    assert(s.subrange(0, s.len() as int) =~= s);
}

/// Zero matches leave the text unchanged: annotation of text that holds
/// neither a double underscore pair nor a placeholder keyword is the text
/// itself. In particular, empty input yields empty output.
pub proof fn lemma_annotate_unchanged(s: Seq<char>)
    requires
        forall|i: int| !dunder_at(s, i),
        forall|i: int| kw_len_at(s, i) is None,
    ensures
        spec_annotate(s) == s,
{
    lemma_variable_pass_unchanged(s);
    lemma_placeholder_pass_unchanged(s);
}

} // verus!
