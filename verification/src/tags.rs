//! Tag visibility and badge markup: a snippet is visible exactly when one of
//! its tags is named `public`, and every other tag becomes one badge whose
//! CSS class carries the tag's identifier.

use vstd::prelude::*;
use vstd::string::*;
use crate::escape::{escape, spec_escape};
use crate::numfmt::{decimal, lemma_decimal_injective, spec_decimal};

verus! {

/// One tag of a snippet: a unique identifier and a name.
pub struct Tag {
    pub id: u64,
    pub name: String,
}

/// The tag gates visibility: its name is exactly `public`.
pub open spec fn is_public(t: Tag) -> bool {
    t.name@ == "public"@
}

/// Some tag of the list is named `public`.
pub open spec fn spec_has_public(tags: Seq<Tag>) -> bool {
    exists|k: int| 0 <= k < tags.len() && is_public(tags[k])
}

/// The badge markup of one tag: the CSS class is namespaced by the tag's
/// identifier, so two tags never share a class even when their names agree;
/// the visible text is the escaped name.
pub open spec fn spec_badge(t: Tag) -> Seq<char> {
    "<span class=\"tag tag-"@ + spec_decimal(t.id as nat) + "\">"@ + spec_escape(t.name@)
        + "</span>"@
}

/// The badges of a tag list, in tag order, with the `public` tag left out.
pub open spec fn spec_badges(tags: Seq<Tag>) -> Seq<Seq<char>>
    decreases tags.len(),
{
    if tags.len() == 0 {
        Seq::empty()
    } else if is_public(tags.last()) {
        spec_badges(tags.drop_last())
    } else {
        spec_badges(tags.drop_last()) + seq![spec_badge(tags.last())]
    }
}

/// The given parts joined with single spaces.
pub open spec fn spec_join(parts: Seq<Seq<char>>) -> Seq<char>
    decreases parts.len(),
{
    if parts.len() == 0 {
        Seq::empty()
    } else if parts.len() == 1 {
        parts[0]
    } else {
        spec_join(parts.drop_last()) + " "@ + parts.last()
    }
}

pub(crate) fn str_eq(a: &str, b: &str) -> (r: bool)
    ensures
        r == (a@ == b@),
{
    let na = a.unicode_len();
    let nb = b.unicode_len();
    if na != nb {
        return false;
    }
    let mut i: usize = 0;
    while i < na
        invariant
            na == a@.len(),
            nb == b@.len(),
            na == nb,
            i <= na,
            forall|k: int| 0 <= k < i ==> a@[k] == b@[k],
        decreases na - i,
    {
        if a.get_char(i) != b.get_char(i) {
            return false;
        }
        i = i + 1;
    }
    proof {
        assert(a@ =~= b@);
    }
    true
}

fn badge(t: &Tag) -> (r: String)
    ensures
        r@ == spec_badge(*t),
{
    let mut r = "<span class=\"tag tag-".to_owned();
    let d = decimal(t.id);
    r.append(d.as_str());
    r.append("\">");
    let e = escape(t.name.as_str());
    r.append(e.as_str());
    r.append("</span>");
    r
}

/// Decides visibility of a snippet from its tags and produces its badge
/// markup: visible exactly when some tag is named `public`, one badge per
/// other tag, in tag order.
pub fn format_tags(tags: &Vec<Tag>) -> (r: (bool, Vec<String>))
    ensures
        r.0 == spec_has_public(tags@),
        r.1.deep_view() == spec_badges(tags@),
{
    let mut visible = false;
    let mut badges: Vec<String> = Vec::new();
    let mut i: usize = 0;
    while i < tags.len()
        invariant
            i <= tags.len(),
            visible == spec_has_public(tags@.take(i as int)),
            badges.deep_view() == spec_badges(tags@.take(i as int)),
        decreases tags.len() - i,
    {
        let t = &tags[i];
        let ghost prefix = tags@.take(i as int);
        let ghost prefix1 = tags@.take(i as int + 1);
        proof {
            assert(prefix1.drop_last() =~= prefix);
            assert(prefix1.last() == tags@[i as int]);
        }
        if str_eq(t.name.as_str(), "public") {
            visible = true;
            proof {
                assert(is_public(prefix1[i as int]));
                assert(spec_has_public(prefix1));
            }
        } else {
            let b = badge(t);
            let ghost old_dv = badges.deep_view();
            badges.push(b);
            proof {
                assert(badges.deep_view() =~= old_dv.push(spec_badge(tags@[i as int])));
                assert(spec_has_public(prefix1) == spec_has_public(prefix)) by {
                    if spec_has_public(prefix) {
                        let k = choose|k: int| 0 <= k < prefix.len() && is_public(prefix[k]);
                        assert(is_public(prefix1[k]));
                    }
                    if spec_has_public(prefix1) {
                        let k = choose|k: int| 0 <= k < prefix1.len() && is_public(prefix1[k]);
                        assert(k != i);
                        assert(is_public(prefix[k]));
                    }
                }
            }
        }
        i = i + 1;
    }
    proof {
        assert(tags@.take(tags@.len() as int) =~= tags@);
    }
    (visible, badges)
}

/// Joins badge markup with single spaces, in order.
pub fn join_badges(parts: &Vec<String>) -> (r: String)
    ensures
        r@ == spec_join(parts.deep_view()),
{
    let mut out = String::new();
    let mut i: usize = 0;
    while i < parts.len()
        invariant
            i <= parts.len(),
            out@ == spec_join(parts.deep_view().take(i as int)),
        decreases parts.len() - i,
    {
        let ghost dv = parts.deep_view();
        let ghost prefix = dv.take(i as int);
        let ghost prefix1 = dv.take(i as int + 1);
        proof {
            assert(prefix1.drop_last() =~= prefix);
            assert(prefix1.last() == dv[i as int]);
        }
        if i > 0 {
            out.append(" ");
        }
        out.append(parts[i].as_str());
        proof {
            if i == 0 {
                assert(out@ =~= spec_join(prefix1));
            } else {
                assert(out@ =~= spec_join(prefix) + " "@ + dv[i as int]);
                assert(out@ =~= spec_join(prefix1));
            }
        }
        i = i + 1;
    }
    proof {
        assert(parts.deep_view().take(parts.deep_view().len() as int) =~= parts.deep_view());
    }
    out
}

/// Tags with the same name but different identifiers always render to
/// different badge markup: the CSS class includes the identifier.
pub proof fn lemma_badge_distinct_ids(t1: Tag, t2: Tag)
    requires
        t1.name@ == t2.name@,
        t1.id != t2.id,
    ensures
        spec_badge(t1) != spec_badge(t2),
{
    let p = "<span class=\"tag tag-"@;
    let d1 = spec_decimal(t1.id as nat);
    let d2 = spec_decimal(t2.id as nat);
    let tail1 = "\">"@ + spec_escape(t1.name@) + "</span>"@;
    let tail2 = "\">"@ + spec_escape(t2.name@) + "</span>"@;
    assert(tail1 == tail2);
    if spec_badge(t1) == spec_badge(t2) {
        assert(spec_badge(t1).len() == p.len() + d1.len() + tail1.len());
        assert(spec_badge(t2).len() == p.len() + d2.len() + tail2.len());
        assert(d1.len() == d2.len());
        assert(d1 =~= d2) by {
            assert forall|k: int| 0 <= k < d1.len() implies d1[k] == d2[k] by {
                assert(d1[k] == spec_badge(t1)[p.len() + k]);
                assert(d2[k] == spec_badge(t2)[p.len() + k]);
            }
        }
        lemma_decimal_injective(t1.id as nat, t2.id as nat);
        assert(false);
    }
}

} // verus!
