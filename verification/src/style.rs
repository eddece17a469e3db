//! Coloured text, apart from what puts it on a screen.
use vstd::prelude::*;

verus! {

/// A colour.
#[derive(Clone, Copy, Debug, PartialEq, Eq, Structural)]
pub enum Color {
    Black,
    Blue,
    Cyan,
    DarkGray,
    Green,
    Magenta,
    Red,
    White,
    Yellow,
}

/// How text looks.
#[derive(Clone, Copy, Debug, PartialEq, Eq)]
pub struct Style {
    pub fg: Option<Color>,
    pub bg: Option<Color>,
    pub bold: bool,
    pub dim: bool,
}

/// Nothing special.
pub open spec fn plain() -> Style {
    Style { fg: None, bg: None, bold: false, dim: false }
}

/// Text in a colour, bold or not.
pub open spec fn fg_style(fg: Color, bold: bool) -> Style {
    Style { fg: Some(fg), bg: None, bold, dim: false }
}

/// Faint text.
pub open spec fn dim_style() -> Style {
    Style { fg: None, bg: None, bold: false, dim: true }
}

/// Text of one colour on another.
pub open spec fn on_style(fg: Option<Color>, bg: Color) -> Style {
    Style { fg, bg: Some(bg), bold: false, dim: false }
}

impl Style {
    /// Nothing special.
    pub fn plain() -> (r: Style)
        ensures
            r == plain(),
    {
        Style { fg: None, bg: None, bold: false, dim: false }
    }

    /// Text in a colour, bold or not.
    pub fn fg(fg: Color, bold: bool) -> (r: Style)
        ensures
            r == fg_style(fg, bold),
    {
        Style { fg: Some(fg), bg: None, bold, dim: false }
    }

    /// Faint text.
    pub fn dimmed() -> (r: Style)
        ensures
            r == dim_style(),
    {
        Style { fg: None, bg: None, bold: false, dim: true }
    }

    /// Text of one colour on another.
    pub fn on(fg: Option<Color>, bg: Color) -> (r: Style)
        ensures
            r == on_style(fg, bg),
    {
        Style { fg, bg: Some(bg), bold: false, dim: false }
    }
}

// Output that is written from top to bottom.

/// One step of output.
pub enum Op {
    /// Text from here on looks like this.
    SetColor(Style),
    /// Text from here on is plain.
    Reset,
    /// Text.
    Text(String),
    /// The end of a row.
    Newline,
}

/// One step of output, with its text.
#[verifier::ext_equal]
pub enum OpView {
    SetColor(Style),
    Reset,
    Text(Seq<char>),
    Newline,
}

impl View for Op {
    type V = OpView;

    open spec fn view(&self) -> OpView {
        match self {
            Op::SetColor(style) => OpView::SetColor(*style),
            Op::Reset => OpView::Reset,
            Op::Text(text) => OpView::Text(text@),
            Op::Newline => OpView::Newline,
        }
    }
}

/// Steps of output.
pub open spec fn op_views(list: Seq<Op>) -> Seq<OpView> {
    Seq::new(list.len(), |i: int| list[i]@)
}

/// The rows that a piece of output ends.
pub open spec fn rows_of(list: Seq<OpView>) -> int
    decreases list.len(),
{
    if list.len() == 0 {
        0
    } else {
        rows_of(list.drop_last()) + if list.last() is Newline {
            1int
        } else {
            0int
        }
    }
}

/// The rows of two pieces of output, one after the other.
pub proof fn lemma_rows_concat(a: Seq<OpView>, b: Seq<OpView>)
    ensures
        rows_of(a + b) == rows_of(a) + rows_of(b),
    decreases b.len(),
{
    if b.len() == 0 {
        assert(a + b == a);
    } else {
        assert((a + b).drop_last() == a + b.drop_last());
        lemma_rows_concat(a, b.drop_last());
    }
}

/// Adds a step of output.
pub fn emit(out: &mut Vec<Op>, op: Op)
    ensures
        op_views(final(out)@) == op_views(old(out)@).push(op@),
{
    out.push(op);
    proof {
        assert(op_views(out@) == op_views(old(out)@).push(op@));
    }
}

// Rows of a full-screen view.

/// Text of one look.
pub struct Span {
    pub text: String,
    pub style: Style,
}

/// A row.
pub struct Row {
    pub spans: Vec<Span>,
    pub style: Style,
}

/// Text of one look, with its text.
#[verifier::ext_equal]
pub struct SpanView {
    pub text: Seq<char>,
    pub style: Style,
}

/// A row, with its text.
#[verifier::ext_equal]
pub struct RowView {
    pub spans: Seq<SpanView>,
    pub style: Style,
}

impl View for Span {
    type V = SpanView;

    open spec fn view(&self) -> SpanView {
        SpanView { text: self.text@, style: self.style }
    }
}

/// Text pieces of a row.
pub open spec fn span_views(list: Seq<Span>) -> Seq<SpanView> {
    Seq::new(list.len(), |i: int| list[i]@)
}

impl View for Row {
    type V = RowView;

    open spec fn view(&self) -> RowView {
        RowView { spans: span_views(self.spans@), style: self.style }
    }
}

/// Rows.
pub open spec fn row_views(list: Seq<Row>) -> Seq<RowView> {
    Seq::new(list.len(), |i: int| list[i]@)
}

/// A piece of a row.
pub open spec fn span(text: Seq<char>, style: Style) -> SpanView {
    SpanView { text, style }
}

/// A row of these pieces that is not itself coloured.
pub open spec fn row(spans: Seq<SpanView>) -> RowView {
    RowView { spans, style: plain() }
}

/// Adds a piece to a row.
pub fn add_span(out: &mut Vec<Span>, text: String, style: Style)
    ensures
        span_views(final(out)@) == span_views(old(out)@).push(span(text@, style)),
{
    out.push(Span { text, style });
    proof {
        assert(span_views(out@) == span_views(old(out)@).push(span(text@, style)));
    }
}

/// Adds a row that is not itself coloured.
pub fn add_row(out: &mut Vec<Row>, spans: Vec<Span>)
    ensures
        row_views(final(out)@) == row_views(old(out)@).push(row(span_views(spans@))),
{
    out.push(Row { spans, style: Style::plain() });
    proof {
        assert(row_views(out@) == row_views(old(out)@).push(row(span_views(spans@))));
    }
}

/// A row with the same text and looks.
pub fn copy_row(r: &Row) -> (c: Row)
    ensures
        c@ == r@,
{
    let mut spans: Vec<Span> = Vec::new();
    let mut i: usize = 0;
    while i < r.spans.len()
        invariant
            i <= r.spans@.len(),
            span_views(spans@) == span_views(r.spans@).take(i as int),
        decreases r.spans@.len() - i,
    {
        add_span(&mut spans, r.spans[i].text.clone(), r.spans[i].style);
        proof {
            assert(span_views(r.spans@).take(i + 1) == span_views(r.spans@).take(i as int).push(
                span_views(r.spans@)[i as int],
            ));
        }
        i = i + 1;
    }
    proof {
        assert(span_views(spans@) == span_views(r.spans@));
    }
    Row { spans, style: r.style }
}

/// Looks are what they are called: a colour in front, a colour behind, bold, faint, or none of
/// these.
pub proof fn law_looks_are_what_they_are_called(color: Color, front: Option<Color>, bold: bool)
    ensures
        plain().fg is None && plain().bg is None && !plain().bold && !plain().dim,
        fg_style(color, bold).fg == Some(color) && fg_style(color, bold).bg is None,
        fg_style(color, bold).bold == bold && !fg_style(color, bold).dim,
        dim_style().fg is None && dim_style().bg is None && !dim_style().bold && dim_style().dim,
        on_style(front, color).fg == front && on_style(front, color).bg == Some(color),
        !on_style(front, color).bold && !on_style(front, color).dim,
{
}

} // verus!
