//! The text layout that other crates do for the report: tables, indentation
//! and upper case. Each is reached through one small function whose contract
//! is taken on trust from the crate that does the work.

use crate::text::first_index_of;
use tabled::builder::Builder;
use vstd::prelude::*;

verus! {

/// `tabled::builder::Builder`, the rows of a table that is being built.
#[verifier::external_type_specification]
#[verifier::external_body]
pub struct ExBuilder(Builder);

/// The rows that a builder holds, each a sequence of cell texts.
pub uninterp spec fn builder_rows(builder: Builder) -> Seq<Seq<Seq<char>>>;

/// The number of columns that a builder counts: the width to which it brings
/// every row.
pub uninterp spec fn builder_width(builder: Builder) -> nat;

/// The text that `tabled` draws for a table of these rows, in its default
/// style.
pub uninterp spec fn rendered_table(rows: Seq<Seq<Seq<char>>>) -> Seq<char>;

/// The upper-case form that `str::to_uppercase` gives a text.
pub uninterp spec fn uppercase(text: Seq<char>) -> Seq<char>;

/// `Builder::new`: a builder without rows and without columns.
#[verifier::external_body]
pub(crate) fn new_builder() -> (builder: Builder)
    ensures
        builder_rows(builder) == Seq::<Seq<Seq<char>>>::empty(),
        builder_width(builder) == 0,
{
    Builder::new()
}

/// `Builder::push_record` with a row that the builder neither fills up nor
/// makes room for: the row is as wide as the builder counts columns, or it is
/// wider and the builder holds no row yet. The row is added after the others,
/// cell for cell, and the builder counts as many columns as the row has
/// cells.
#[verifier::external_body]
pub(crate) fn push_record(builder: &mut Builder, row: &Vec<String>)
    requires
        row@.len() == builder_width(*old(builder)) || (builder_rows(*old(builder)).len() == 0
            && row@.len() >= builder_width(*old(builder))),
    ensures
        builder_rows(*final(builder)) == builder_rows(*old(builder)).push(row.deep_view()),
        builder_width(*final(builder)) == row@.len(),
{
    builder.push_record(row)
}

/// `Builder::build` and the `Display` of the `Table` that it gives: the
/// drawing of the builder's rows.
#[verifier::external_body]
pub(crate) fn build_table(builder: Builder) -> (text: String)
    ensures
        text@ == rendered_table(builder_rows(builder)),
{
    builder.build().to_string()
}

/// `str::to_uppercase`: the upper-case form of the text, by the Unicode
/// tables of the standard library.
#[verifier::external_body]
pub(crate) fn to_uppercase(text: &str) -> (upper: String)
    ensures
        upper@ == uppercase(text@),
{
    text.to_uppercase()
}

/// A line without the carriage return that may end it.
pub open spec fn without_carriage_return(line: Seq<char>) -> Seq<char> {
    if line.len() > 0 && line.last() == '\r' {
        line.drop_last()
    } else {
        line
    }
}

/// The lines of a text as `str::lines` yields them: each ends before a line
/// feed, without the carriage return that may precede the line feed; what
/// follows the last line feed is a line only if it is not empty.
pub open spec fn lines_of(text: Seq<char>) -> Seq<Seq<char>>
    decreases text.len(),
{
    if text.len() == 0 {
        Seq::empty()
    } else {
        let end = first_index_of(text, '\n');
        if 0 <= end < text.len() {
            seq![without_carriage_return(text.take(end))] + lines_of(text.skip(end + 1))
        } else {
            seq![text]
        }
    }
}

/// The lines joined by line feeds, each line but the first behind `margin`
/// unless it is empty.
pub open spec fn joined_with_margin(margin: Seq<char>, lines: Seq<Seq<char>>) -> Seq<char>
    decreases lines.len(),
{
    if lines.len() == 0 {
        Seq::empty()
    } else if lines.len() == 1 {
        lines[0]
    } else {
        let line = lines.last();
        joined_with_margin(margin, lines.drop_last()) + seq!['\n'] + (if line.len() > 0 {
            margin
        } else {
            Seq::empty()
        }) + line
    }
}

/// `text` with every line but the first moved right by `spaces` spaces. Empty
/// lines stay empty, and the text ends with a line feed if it did before.
pub open spec fn indented(spaces: nat, text: Seq<char>) -> Seq<char> {
    let body = joined_with_margin(Seq::new(spaces, |i: int| ' '), lines_of(text));
    if text.len() > 0 && text.last() == '\n' {
        body.push('\n')
    } else {
        body
    }
}

/// `indent::indent_by`: the lines of the text, as `str::lines` yields them,
/// joined by line feeds, with the spaces before each non-empty line after the
/// first and a line feed at the end if the text had one.
#[verifier::external_body]
pub(crate) fn indent_by(spaces: u8, text: &str) -> (moved: String)
    ensures
        moved@ == indented(spaces as nat, text@),
{
    indent::indent_by(spaces as usize, text)
}

} // verus!
