//! Rendering of one snippet record as an HTML table row: escaped title,
//! escaped and annotated body, and the snippet's badges, gated by the
//! `public` tag.

use vstd::prelude::*;
use vstd::string::*;
use crate::escape::{escape, spec_escape};
use crate::markup::{annotate, spec_annotate};
use crate::numfmt::{decimal, spec_decimal};
use crate::tags::{format_tags, join_badges, spec_badges, spec_has_public, spec_join, Tag};

verus! {

/// One snippet record: a unique identifier, a title, a body that may hold
/// variable and placeholder markers, and a syntax label (part of the record,
/// not rendered).
pub struct Snippet {
    pub id: u64,
    pub title: String,
    pub body: String,
    pub syntax: String,
}

/// The table row of one visible snippet: an identifier for external linking,
/// the escaped title, the escaped then annotated body, and the space-joined
/// badges.
pub open spec fn spec_row(s: Snippet, tags: Seq<Tag>) -> Seq<char> {
    "<tr id=\"snippet-"@ + spec_decimal(s.id as nat) + "\"><td><code>"@ + spec_escape(s.title@)
        + "</code></td><td class=\"snippet-body\">"@ + spec_annotate(spec_escape(s.body@))
        + "</td><td>"@ + spec_join(spec_badges(tags)) + "</td></tr>\n"@
}

/// Renders one snippet as a table row, or nothing when no tag of the snippet
/// is named `public`.
pub fn render(snippet: &Snippet, tags: &Vec<Tag>) -> (r: Option<String>)
    ensures
        match r {
            Some(row) => spec_has_public(tags@) && row@ == spec_row(*snippet, tags@),
            None => !spec_has_public(tags@),
        },
{
    let (visible, badges) = format_tags(tags);
    if !visible {
        return None;
    }
    let mut row = "<tr id=\"snippet-".to_owned();
    let d = decimal(snippet.id);
    row.append(d.as_str());
    row.append("\"><td><code>");
    let title = escape(snippet.title.as_str());
    row.append(title.as_str());
    row.append("</code></td><td class=\"snippet-body\">");
    let escaped_body = escape(snippet.body.as_str());
    let body = annotate(escaped_body.as_str());
    row.append(body.as_str());
    row.append("</td><td>");
    let joined = join_badges(&badges);
    row.append(joined.as_str());
    row.append("</td></tr>\n");
    proof {
        assert(row@ =~= spec_row(*snippet, tags@));
    }
    Some(row)
}

} // verus!
