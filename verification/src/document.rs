//! Assembly of the whole report: a fixed header, one row per visible snippet
//! in input order, and a fixed footer.

use vstd::prelude::*;
use vstd::string::*;
use crate::render::{render, spec_row, Snippet};
use crate::tags::{spec_has_public, Tag};

verus! {

/// One snippet together with its tags, as the data source hands them over.
pub struct Entry {
    pub snippet: Snippet,
    pub tags: Vec<Tag>,
}

/// The fixed markup that opens the document: doctype, embedded styles, page
/// title and the table head.
pub open spec fn header_text() -> Seq<char> {
    r#"<!DOCTYPE html>
<html lang="en">
<head>
  <meta charset="utf-8">
  <title>Dash Snippets</title>
  <meta name="description" content="">
  <meta name="generator" content="dash2html" />
  <meta name="viewport" content="width=device-width, initial-scale=1">

  <link href="//fonts.googleapis.com/css?family=Raleway:400,300,600" rel="stylesheet" type="text/css">
  <link rel="stylesheet" href="https://cdnjs.cloudflare.com/ajax/libs/skeleton/2.0.4/skeleton.min.css">
  <style>
    .snippet-body {
      white-space: pre-wrap;
    }
    .tag {
      background-color: aliceblue;
      padding: 2px 8px;
      border-radius: 12px;
      border: 1px solid lightblue;
      font-size: smaller;
    }
    .variable {
      color: mediumvioletred;
    }
    .placeholder {
      color: blueviolet;
    }
    footer {
      font-size: small;
      color: lightslategray;
      text-align: center;
    }
  </style>
</head>
<body>

  <!-- Primary Page Layout
  -------------------------------------------------- -->
  <div class="container">
    <header class="row">
      <h1>Dash Snippets</h1>
    </header>
    <section class="row">
      <table>
        <thead>
          <tr><th>Abbreviation</th><th>Snippet</th><th>Tags</th></tr>
        </thead>
        <tbody>

"#@
}

/// The fixed markup that closes the document: closing tags and attribution.
pub open spec fn footer_text() -> Seq<char> {
    r#"
        </tbody>
      </table>
    </section>
    <footer>
      Generated using
      <a href="https://github.com/wezm/dash2html">dash2html</a>
    </footer>
  </div>

<!-- End Document
  -------------------------------------------------- -->
</body>
</html>

"#@
}

/// The fixed header markup.
pub fn header() -> (r: &'static str)
    ensures
        r@ == header_text(),
{
    r#"<!DOCTYPE html>
<html lang="en">
<head>
  <meta charset="utf-8">
  <title>Dash Snippets</title>
  <meta name="description" content="">
  <meta name="generator" content="dash2html" />
  <meta name="viewport" content="width=device-width, initial-scale=1">

  <link href="//fonts.googleapis.com/css?family=Raleway:400,300,600" rel="stylesheet" type="text/css">
  <link rel="stylesheet" href="https://cdnjs.cloudflare.com/ajax/libs/skeleton/2.0.4/skeleton.min.css">
  <style>
    .snippet-body {
      white-space: pre-wrap;
    }
    .tag {
      background-color: aliceblue;
      padding: 2px 8px;
      border-radius: 12px;
      border: 1px solid lightblue;
      font-size: smaller;
    }
    .variable {
      color: mediumvioletred;
    }
    .placeholder {
      color: blueviolet;
    }
    footer {
      font-size: small;
      color: lightslategray;
      text-align: center;
    }
  </style>
</head>
<body>

  <!-- Primary Page Layout
  -------------------------------------------------- -->
  <div class="container">
    <header class="row">
      <h1>Dash Snippets</h1>
    </header>
    <section class="row">
      <table>
        <thead>
          <tr><th>Abbreviation</th><th>Snippet</th><th>Tags</th></tr>
        </thead>
        <tbody>

"#
}

/// The fixed footer markup.
pub fn footer() -> (r: &'static str)
    ensures
        r@ == footer_text(),
{
    r#"
        </tbody>
      </table>
    </section>
    <footer>
      Generated using
      <a href="https://github.com/wezm/dash2html">dash2html</a>
    </footer>
  </div>

<!-- End Document
  -------------------------------------------------- -->
</body>
</html>

"#
}

/// What one entry contributes to the document: its row when visible, nothing
/// otherwise.
pub open spec fn spec_entry_row(e: Entry) -> Seq<char> {
    if spec_has_public(e.tags@) {
        spec_row(e.snippet, e.tags@)
    } else {
        Seq::<char>::empty()
    }
}

/// The rows of all visible entries, in input order.
pub open spec fn spec_rows(entries: Seq<Entry>) -> Seq<char>
    decreases entries.len(),
{
    if entries.len() == 0 {
        Seq::<char>::empty()
    } else {
        spec_rows(entries.drop_last()) + spec_entry_row(entries.last())
    }
}

/// The whole report: fixed header, the visible rows in order, fixed footer.
pub open spec fn spec_document(entries: Seq<Entry>) -> Seq<char> {
    header_text() + spec_rows(entries) + footer_text()
}

/// Assembles the whole report in one forward pass over the entries.
pub fn assemble(entries: &Vec<Entry>) -> (r: String)
    ensures
        r@ == spec_document(entries@),
{
    let mut out = header().to_owned();
    let mut i: usize = 0;
    while i < entries.len()
        invariant
            i <= entries.len(),
            out@ == header_text() + spec_rows(entries@.take(i as int)),
        decreases entries.len() - i,
    {
        let ghost prefix1 = entries@.take(i as int + 1);
        proof {
            assert(prefix1.drop_last() =~= entries@.take(i as int));
            assert(prefix1.last() == entries@[i as int]);
        }
        let e = &entries[i];
        match render(&e.snippet, &e.tags) {
            Some(row) => {
                out.append(row.as_str());
                proof {
                    assert(out@ =~= header_text() + spec_rows(prefix1));
                }
            },
            None => {
                proof {
                    assert(out@ =~= header_text() + spec_rows(prefix1));
                }
            },
        }
        i = i + 1;
    }
    proof {
        assert(entries@.take(entries@.len() as int) =~= entries@);
    }
    out.append(footer());
    proof {
        assert(out@ =~= spec_document(entries@));
    }
    out
}

proof fn lemma_rows_remove_hidden(entries: Seq<Entry>, i: int)
    requires
        0 <= i < entries.len(),
        !spec_has_public(entries[i].tags@),
    ensures
        spec_rows(entries) == spec_rows(entries.remove(i)),
    decreases entries.len(),
{
    if i == entries.len() - 1 {
        assert(entries.remove(i) =~= entries.drop_last());
        assert(spec_entry_row(entries.last()) == Seq::<char>::empty());
        assert(spec_rows(entries.drop_last()) + Seq::<char>::empty() =~= spec_rows(
            entries.drop_last(),
        ));
    } else {
        let shorter = entries.drop_last();
        assert(shorter[i] == entries[i]);
        lemma_rows_remove_hidden(shorter, i);
        assert(entries.remove(i).len() == entries.len() - 1);
        assert(entries.remove(i).drop_last() =~= shorter.remove(i));
        assert(entries.remove(i).last() == entries.last());
        assert(spec_rows(entries.remove(i)) == spec_rows(shorter.remove(i)) + spec_entry_row(
            entries.last(),
        ));
        assert(spec_rows(entries) == spec_rows(shorter) + spec_entry_row(entries.last()));
    }
}

proof fn lemma_rows_concat(a: Seq<Entry>, b: Seq<Entry>)
    ensures
        spec_rows(a + b) == spec_rows(a) + spec_rows(b),
    decreases b.len(),
{
    if b.len() == 0 {
        assert(a + b =~= a);
        assert(spec_rows(a) + spec_rows(b) =~= spec_rows(a));
    } else {
        lemma_rows_concat(a, b.drop_last());
        assert((a + b).drop_last() =~= a + b.drop_last());
        assert((a + b).last() == b.last());
        assert(spec_rows(a) + (spec_rows(b.drop_last()) + spec_entry_row(b.last())) =~= (spec_rows(
            a,
        ) + spec_rows(b.drop_last())) + spec_entry_row(b.last()));
    }
}

/// A snippet with a `public` tag appears exactly once: the report is the
/// rows of the entries before it, its own single row, and the rows of the
/// entries after it, between the fixed header and footer.
pub proof fn lemma_visible_entry_present(entries: Seq<Entry>, i: int)
    requires
        0 <= i < entries.len(),
        spec_has_public(entries[i].tags@),
    ensures
        spec_document(entries) == header_text() + spec_rows(entries.take(i)) + spec_row(
            entries[i].snippet,
            entries[i].tags@,
        ) + spec_rows(entries.skip(i + 1)) + footer_text(),
{
    let one = seq![entries[i]];
    assert(entries =~= entries.take(i) + one + entries.skip(i + 1));
    lemma_rows_concat(entries.take(i) + one, entries.skip(i + 1));
    lemma_rows_concat(entries.take(i), one);
    assert(one.drop_last() =~= Seq::<Entry>::empty());
    assert(spec_rows(one) == spec_rows(Seq::<Entry>::empty()) + spec_entry_row(entries[i]));
    assert(Seq::<char>::empty() + spec_entry_row(entries[i]) =~= spec_entry_row(entries[i]));
    assert(spec_entry_row(entries[i]) == spec_row(entries[i].snippet, entries[i].tags@));
    assert(spec_rows(entries) == spec_rows(entries.take(i)) + spec_row(
        entries[i].snippet,
        entries[i].tags@,
    ) + spec_rows(entries.skip(i + 1)));
    assert(header_text() + (spec_rows(entries.take(i)) + spec_row(
        entries[i].snippet,
        entries[i].tags@,
    ) + spec_rows(entries.skip(i + 1))) + footer_text() =~= header_text() + spec_rows(
        entries.take(i),
    ) + spec_row(entries[i].snippet, entries[i].tags@) + spec_rows(entries.skip(i + 1))
        + footer_text());
}

/// A snippet none of whose tags is named `public` is absent from the report
/// entirely: the document equals the one assembled without that entry.
pub proof fn lemma_hidden_entry_absent(entries: Seq<Entry>, i: int)
    requires
        0 <= i < entries.len(),
        !spec_has_public(entries[i].tags@),
    ensures
        spec_document(entries) == spec_document(entries.remove(i)),
{
    lemma_rows_remove_hidden(entries, i);
}

/// Whatever the entries — even none — the report begins with the fixed
/// header markup and ends with the fixed footer markup.
pub proof fn lemma_document_framed(entries: Seq<Entry>)
    ensures
        spec_document(entries).len() >= header_text().len() + footer_text().len(),
        spec_document(entries).subrange(0, header_text().len() as int) == header_text(),
        spec_document(entries).subrange(
            spec_document(entries).len() - footer_text().len(),
            spec_document(entries).len() as int,
        ) == footer_text(),
{
    let d = spec_document(entries);
    assert(d.len() == header_text().len() + spec_rows(entries).len() + footer_text().len());
    assert(d.subrange(0, header_text().len() as int) =~= header_text());
    assert(d.subrange(d.len() - footer_text().len(), d.len() as int) =~= footer_text());
}

} // verus!
