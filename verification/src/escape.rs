//! HTML escaping: each character of the raw text is classified exactly once,
//! so already-produced entities are never re-scanned.

use vstd::prelude::*;
use vstd::string::*;

verus! {

/// The replacement for one character of raw text: the five HTML-special
/// characters become entities, every other character stands unchanged.
pub open spec fn escape_char(c: char) -> Seq<char> {
    if c == '&' {
        "&amp;"@
    } else if c == '<' {
        "&lt;"@
    } else if c == '>' {
        "&gt;"@
    } else if c == '"' {
        "&quot;"@
    } else if c == '\'' {
        "&#x27;"@
    } else {
        seq![c]
    }
}

/// The escaped form of a whole text: the concatenation of each character's
/// replacement, in order.
pub open spec fn spec_escape(s: Seq<char>) -> Seq<char>
    decreases s.len(),
{
    if s.len() == 0 {
        Seq::empty()
    } else {
        spec_escape(s.drop_last()) + escape_char(s.last())
    }
}

/// Escapes raw text for safe embedding as HTML element content.
///
/// One linear scan over the input; each source character is replaced exactly
/// once, so the output of an earlier replacement is never scanned again.
pub fn escape(text: &str) -> (r: String)
    ensures
        r@ == spec_escape(text@),
{
    let n = text.unicode_len();
    let mut out = String::new();
    let mut i: usize = 0;
    while i < n
        invariant
            n == text@.len(),
            i <= n,
            out@ == spec_escape(text@.take(i as int)),
        decreases n - i,
    {
        let c = text.get_char(i);
        if c == '&' {
            out.append("&amp;");
        } else if c == '<' {
            out.append("&lt;");
        } else if c == '>' {
            out.append("&gt;");
        } else if c == '"' {
            out.append("&quot;");
        } else if c == '\'' {
            out.append("&#x27;");
        } else {
            let piece = text.substring_char(i, i + 1);
            proof {
                assert(piece@ =~= seq![text@[i as int]]);
            }
            out.append(piece);
        }
        proof {
            assert(text@.take(i + 1).drop_last() =~= text@.take(i as int));
        }
        i = i + 1;
    }
    proof {
        assert(text@.take(n as int) =~= text@);
    }
    out
}

/// A character that must not survive escaping: markup-significant in element
/// content or attribute values.
pub open spec fn is_special(c: char) -> bool {
    c == '<' || c == '>' || c == '"' || c == '\''
}

proof fn lemma_escape_char_clean(c: char)
    ensures
        forall|k: int| 0 <= k < escape_char(c).len() ==> !is_special(#[trigger] escape_char(c)[k]),
        count_char(escape_char(c), '#') == count_char(seq![c], '#') + count_char(seq![c], '\''),
{
    reveal_strlit("&amp;");
    reveal_strlit("&lt;");
    reveal_strlit("&gt;");
    reveal_strlit("&quot;");
    reveal_strlit("&#x27;");
    assert("&amp;"@ =~= seq!['&', 'a', 'm', 'p', ';']);
    assert("&lt;"@ =~= seq!['&', 'l', 't', ';']);
    assert("&gt;"@ =~= seq!['&', 'g', 't', ';']);
    assert("&quot;"@ =~= seq!['&', 'q', 'u', 'o', 't', ';']);
    assert("&#x27;"@ =~= seq!['&', '#', 'x', '2', '7', ';']);
    reveal_with_fuel(count_char, 8);
}

/// How often a character occurs in a text.
pub open spec fn count_char(s: Seq<char>, c: char) -> nat
    decreases s.len(),
{
    if s.len() == 0 {
        0
    } else {
        count_char(s.drop_last(), c) + (if s.last() == c {
            1nat
        } else {
            0nat
        })
    }
}

/// Occurrences in a concatenation are the occurrences in the parts.
pub proof fn lemma_count_concat(a: Seq<char>, b: Seq<char>, c: char)
    ensures
        count_char(a + b, c) == count_char(a, c) + count_char(b, c),
    decreases b.len(),
{
    if b.len() == 0 {
        assert(a + b =~= a);
    } else {
        lemma_count_concat(a, b.drop_last(), c);
        assert((a + b).drop_last() =~= a + b.drop_last());
        assert((a + b).last() == b.last());
    }
}

/// Escaped text holds no literal `<`, `>`, `"` or `'`: every occurrence of
/// those characters in the input was replaced by an entity.
pub proof fn lemma_escape_no_specials(s: Seq<char>)
    ensures
        forall|k: int| 0 <= k < spec_escape(s).len() ==> !is_special(#[trigger] spec_escape(s)[k]),
    decreases s.len(),
{
    if s.len() > 0 {
        lemma_escape_no_specials(s.drop_last());
        lemma_escape_char_clean(s.last());
        let prefix = spec_escape(s.drop_last());
        let rep = escape_char(s.last());
        assert forall|k: int| 0 <= k < spec_escape(s).len() implies !is_special(
            #[trigger] spec_escape(s)[k],
        ) by {
            if k < prefix.len() {
                assert(spec_escape(s)[k] == prefix[k]);
            } else {
                assert(spec_escape(s)[k] == rep[k - prefix.len()]);
            }
        }
    }
}

/// Each apostrophe of the input yields exactly one numeric character
/// reference: `#` appears in the escaped text once per input apostrophe, on
/// top of the input's own `#` characters, which pass through unchanged — and
/// no apostrophe survives (by `lemma_escape_no_specials`).
pub proof fn lemma_escape_apostrophes(s: Seq<char>)
    ensures
        count_char(spec_escape(s), '#') == count_char(s, '#') + count_char(s, '\''),
    decreases s.len(),
{
    if s.len() > 0 {
        lemma_escape_apostrophes(s.drop_last());
        lemma_escape_char_clean(s.last());
        lemma_count_concat(spec_escape(s.drop_last()), escape_char(s.last()), '#');
        reveal_with_fuel(count_char, 3);
        assert(count_char(seq![s.last()], '#') == (if s.last() == '#' {
            1nat
        } else {
            0nat
        }));
        assert(count_char(seq![s.last()], '\'') == (if s.last() == '\'' {
            1nat
        } else {
            0nat
        }));
    }
}

/// Expanding only the ampersands of a text: `&` becomes `&amp;`, every other
/// character stands unchanged.
pub open spec fn spec_amp_expand(s: Seq<char>) -> Seq<char>
    decreases s.len(),
{
    if s.len() == 0 {
        Seq::<char>::empty()
    } else {
        spec_amp_expand(s.drop_last()) + (if s.last() == '&' {
            "&amp;"@
        } else {
            seq![s.last()]
        })
    }
}

proof fn lemma_escape_on_clean_text(t: Seq<char>)
    requires
        forall|k: int| 0 <= k < t.len() ==> !is_special(#[trigger] t[k]),
    ensures
        spec_escape(t) == spec_amp_expand(t),
    decreases t.len(),
{
    if t.len() > 0 {
        assert forall|k: int| 0 <= k < t.drop_last().len() implies !is_special(
            #[trigger] t.drop_last()[k],
        ) by {
            assert(t.drop_last()[k] == t[k]);
        }
        lemma_escape_on_clean_text(t.drop_last());
        assert(!is_special(t[t.len() - 1]));
    }
}

/// Escaping is idempotent up to the entities' own ampersands: escaping
/// already-escaped text performs no substitution beyond expanding each `&`
/// of an entity, since no other special character survives the first pass.
pub proof fn lemma_escape_reescape(s: Seq<char>)
    ensures
        spec_escape(spec_escape(s)) == spec_amp_expand(spec_escape(s)),
{
    lemma_escape_no_specials(s);
    lemma_escape_on_clean_text(spec_escape(s));
}

} // verus!
