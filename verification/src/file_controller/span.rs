//! Ranges of source text.

use vstd::prelude::*;

verus! {

/// A range of text in a file. Rows and columns are counted from zero.
#[derive(Debug)]
pub struct Span {
    pub file: String,
    pub row_start: u32,
    pub row_end: u32,
    pub col_start: u32,
    pub col_end: u32,
}

/// The values of a `Span`.
pub struct SpanView {
    pub file: Seq<char>,
    pub row_start: u32,
    pub row_end: u32,
    pub col_start: u32,
    pub col_end: u32,
}

impl View for Span {
    type V = SpanView;

    open spec fn view(&self) -> SpanView {
        SpanView {
            file: self.file@,
            row_start: self.row_start,
            row_end: self.row_end,
            col_start: self.col_start,
            col_end: self.col_end,
        }
    }
}

impl DeepView for Span {
    type V = SpanView;

    open spec fn deep_view(&self) -> SpanView {
        self.view()
    }
}

/// A span as `rls_span::Span` is written for debugging.
pub uninterp spec fn span_debug(
    file: Seq<char>,
    row_start: u32,
    row_end: u32,
    col_start: u32,
    col_end: u32,
) -> Seq<char>;

/// The `Debug` form of the `rls_span::Span` with the given file, rows and
/// columns. It is a function of these; its wording is left to `rls_span`.
#[verifier::external_body]
pub(crate) fn span_debug_text(span: &Span) -> (r: String)
    ensures
        r@ == span_debug(
            span@.file,
            span@.row_start,
            span@.row_end,
            span@.col_start,
            span@.col_end,
        ),
{
    let span = rls_span::Span::new(
        rls_span::Row::new_zero_indexed(span.row_start),
        rls_span::Row::new_zero_indexed(span.row_end),
        rls_span::Column::new_zero_indexed(span.col_start),
        rls_span::Column::new_zero_indexed(span.col_end),
        span.file.as_str(),
    );
    format!("{:?}", span)
}

/// The view of a span shows every field, each as it is.
pub proof fn law_span_view_shows_every_field(span: Span)
    ensures
        span@.file == span.file@,
        span@.row_start == span.row_start,
        span@.row_end == span.row_end,
        span@.col_start == span.col_start,
        span@.col_end == span.col_end,
        span.deep_view() == span@,
{
}

} // verus!
