//! The footer line of the terminal client: mode, model, status, and chips on the right.

use crate::text;
use vstd::arithmetic::div_mod::*;
use vstd::prelude::*;
use vstd::string::*;

verus! {

/// The number of columns that a text takes on the screen.
pub uninterp spec fn str_width(s: Seq<char>) -> usize;

/// The number of columns that a character takes on the screen; a control character has none.
pub uninterp spec fn char_width(c: char) -> Option<usize>;

/// `unicode_width::UnicodeWidthStr::width` on a `str` is a fixed function of its characters.
#[verifier::external_body]
fn width_of_text(s: &str) -> (r: usize)
    ensures
        r == str_width(s@),
{
    unicode_width::UnicodeWidthStr::width(s)
}

/// `unicode_width::UnicodeWidthChar::width` on a `char` is a fixed function of the character.
#[verifier::external_body]
fn width_of_char(c: char) -> (r: Option<usize>)
    ensures
        r == char_width(c),
{
    unicode_width::UnicodeWidthChar::width(c)
}

/// The colors of the footer: the roles that the palette of the client fills, and the colors of a
/// terminal.
#[derive(Clone, Copy, Debug, PartialEq, Eq, Structural)]
pub enum Color {
    ModeAgent,
    ModeYolo,
    ModePlan,
    DeepseekSky,
    TextDim,
    TextHint,
    TextMuted,
    StatusWarning,
    Reset,
    Black,
    Red,
    Green,
    Yellow,
    Blue,
    Magenta,
    Cyan,
    Gray,
    DarkGray,
    LightRed,
    LightGreen,
    LightYellow,
    LightBlue,
    LightMagenta,
    LightCyan,
    White,
    Rgb(u8, u8, u8),
    Indexed(u8),
}

/// How a piece of text looks. What is not set is taken from the surroundings.
#[derive(Clone, Copy, Debug, PartialEq, Eq, Structural)]
pub struct Style {
    pub fg: Option<Color>,
    pub bg: Option<Color>,
    pub underline_color: Option<Color>,
    /// The modifiers that are switched on, one bit each.
    pub add_modifier: u16,
    /// The modifiers that are switched off, one bit each.
    pub sub_modifier: u16,
}

impl Style {
    /// The style of the surroundings.
    pub open spec fn plain() -> Style {
        Style { fg: None, bg: None, underline_color: None, add_modifier: 0, sub_modifier: 0 }
    }

    /// The style of the surroundings but for the color of the text.
    pub open spec fn colored(color: Color) -> Style {
        Style { fg: Some(color), ..Style::plain() }
    }

    /// The style with another color of the text.
    pub fn fg(self, color: Color) -> (r: Style)
        ensures
            r == (Style { fg: Some(color), ..self }),
    {
        Style {
            fg: Some(color),
            bg: self.bg,
            underline_color: self.underline_color,
            add_modifier: self.add_modifier,
            sub_modifier: self.sub_modifier,
        }
    }
}

impl Default for Style {
    fn default() -> (r: Style)
        ensures
            r == Style::plain(),
    {
        Style { fg: None, bg: None, underline_color: None, add_modifier: 0, sub_modifier: 0 }
    }
}

/// A piece of text in one style.
#[derive(Debug)]
pub struct Span {
    pub content: String,
    pub style: Style,
}

/// The value of a [`Span`].
pub struct SpanView {
    pub content: Seq<char>,
    pub style: Style,
}

impl View for Span {
    type V = SpanView;

    open spec fn view(&self) -> SpanView {
        SpanView { content: self.content@, style: self.style }
    }
}

impl Clone for Span {
    fn clone(&self) -> (r: Self)
        ensures
            r@ == self@,
    {
        Span { content: self.content.clone(), style: self.style }
    }
}

/// The values of a list of spans.
pub open spec fn span_views(spans: Seq<Span>) -> Seq<SpanView> {
    spans.map_values(|span: Span| span@)
}

impl Span {
    /// A text in a style.
    pub fn styled(content: String, style: Style) -> (r: Span)
        ensures
            r@ == (SpanView { content: content@, style }),
    {
        Span { content, style }
    }

    /// A text in the style of the surroundings.
    pub fn raw(content: String) -> (r: Span)
        ensures
            r@ == (SpanView { content: content@, style: Style::plain() }),
    {
        Span { content, style: Style::default() }
    }
}

/// A copy of a list of spans.
pub fn clone_spans(spans: &Vec<Span>) -> (r: Vec<Span>)
    ensures
        span_views(r@) == span_views(spans@),
{
    let copy: Vec<Span> = spans.clone();
    assert(span_views(copy@) =~= span_views(spans@));
    copy
}

/// The modes of the client.
#[derive(Clone, Copy, Debug, PartialEq, Eq, Structural)]
pub enum AppMode {
    Agent,
    Yolo,
    Plan,
}

impl AppMode {
    /// The label of the mode.
    pub open spec fn label(self) -> Seq<char> {
        match self {
            AppMode::Agent => "agent"@,
            AppMode::Yolo => "yolo"@,
            AppMode::Plan => "plan"@,
        }
    }

    /// The color of the mode.
    pub open spec fn color(self) -> Color {
        match self {
            AppMode::Agent => Color::ModeAgent,
            AppMode::Yolo => Color::ModeYolo,
            AppMode::Plan => Color::ModePlan,
        }
    }
}

/// What the footer shows of the state of the client.
#[derive(Debug)]
pub struct App {
    pub mode: AppMode,
    pub model: String,
}

/// A number as a signed number of the same 64 bits.
pub open spec fn signed(n: int) -> int {
    if n > i64::MAX {
        n - 0x1_0000_0000_0000_0000
    } else {
        n
    }
}

/// The column of the spout in a frame: it moves from the first column to the last and back.
pub open spec fn spout_column(width: int, frame: u64) -> int {
    let t = signed(frame as int) % (2 * width);
    if t < width {
        t
    } else {
        2 * width - 1 - t
    }
}

/// The glyph in a column of a strip of which the spout stands in the column `spout`.
pub open spec fn strip_glyph(col: int, spout: int) -> char {
    if col == spout {
        '\u{257F}'
    } else if col == spout - 1 || col == spout + 1 {
        '\u{2576}'
    } else {
        '\u{2500}'
    }
}

/// The remainder of a negative number, from that of a number that is not negative.
proof fn lemma_negative_mod(n: int, span: int)
    requires
        n < 0,
        span > 0,
    ensures
        n % span == span - 1 - ((-(n + 1)) % span),
        0 <= (-(n + 1)) % span < span,
{
    let m = -(n + 1);
    lemma_fundamental_div_mod(m, span);
    lemma_mod_bound(m, span);
    let q = m / span;
    let r = m % span;
    assert(n == span * (-(q + 1)) + (span - 1 - r)) by (nonlinear_arith)
        requires
            m == span * q + r,
            n == -(m + 1),
    ;
    assert(n == (-(q + 1)) * span + (span - 1 - r)) by (nonlinear_arith)
        requires
            n == span * (-(q + 1)) + (span - 1 - r),
    ;
    lemma_fundamental_div_mod_converse(n, span, -(q + 1), span - 1 - r);
}

/// One cell of the animated strip in the footer: a calm water line with one spout that drifts back
/// and forth. `col` is the cell in the strip, `width` the width of the strip, `frame` the number
/// of the frame.
#[must_use]
pub fn footer_working_strip_glyph_at(col: usize, width: usize, frame: u64) -> (glyph: char)
    requires
        2 * width <= i64::MAX,
    ensures
        width == 0 ==> glyph == ' ',
        width > 0 ==> glyph == strip_glyph(signed(col as int), spout_column(width as int, frame)),
{
    if width == 0 {
        return ' ';
    }
    let w: u64 = width as u64;
    let span: u64 = w * 2;
    let t: u64 = if frame <= 0x7fff_ffff_ffff_ffff {
        frame % span
    } else {
        proof {
            lemma_negative_mod(signed(frame as int), span as int);
        }
        span - 1 - (u64::MAX - frame) % span
    };
    let pos: u64 = if t < w {
        t
    } else {
        span - 1 - t
    };
    let column: i128 = if col as u64 <= 0x7fff_ffff_ffff_ffff {
        col as i128
    } else {
        col as i128 - 0x1_0000_0000_0000_0000
    };
    let spout: i128 = pos as i128;
    if column == spout {
        '\u{257F}'
    } else if column == spout - 1 || column == spout + 1 {
        '\u{2576}'
    } else {
        '\u{2500}'
    }
}

/// One frame of the animated strip.
pub open spec fn strip(width: nat, frame: u64) -> Seq<char> {
    Seq::new(width, |col: int| strip_glyph(col, spout_column(width as int, frame)))
}

/// One frame of the animated strip: `width` characters, one for each column.
#[must_use]
pub fn footer_working_strip_string(width: usize, frame: u64) -> (r: String)
    requires
        2 * width <= i64::MAX,
    ensures
        r@ == strip(width as nat, frame),
{
    let mut out: String = String::new();
    let mut col: usize = 0;
    while col < width
        invariant
            col <= width,
            2 * width <= i64::MAX,
            out@ == strip(width as nat, frame).take(col as int),
        decreases width - col,
    {
        let glyph: char = footer_working_strip_glyph_at(col, width, frame);
        proof {
            let all = strip(width as nat, frame);
            assert(all.take(col + 1) =~= all.take(col as int).push(all[col as int]));
        }
        out.push(glyph);
        col += 1;
    }
    assert(strip(width as nat, frame).take(col as int) =~= strip(width as nat, frame));
    out
}

/// The spout stands in one column of the strip, and in no other.
pub proof fn strip_has_one_spout(width: nat, frame: u64)
    requires
        width > 0,
    ensures
        0 <= spout_column(width as int, frame) < width,
        forall|col: int|
            0 <= col < width ==> (#[trigger] strip(width, frame)[col] == '\u{257F}' <==> col
                == spout_column(width as int, frame)),
{
    lemma_mod_bound(signed(frame as int), 2 * width as int);
}

/// From one frame to the next the spout moves by one column; it rests for one frame at each end.
pub proof fn spout_drifts(width: nat, frame: u64)
    requires
        width > 0,
        frame < i64::MAX,
    ensures
        ({
            let here = spout_column(width as int, frame);
            let next = spout_column(width as int, (frame + 1) as u64);
            let t = frame as int % (2 * width as int);
            &&& t < width - 1 ==> next == here + 1
            &&& t == width - 1 ==> next == here == width - 1
            &&& width <= t < 2 * width - 1 ==> next == here - 1
            &&& t == 2 * width - 1 ==> next == here == 0
        }),
{
    let span = 2 * width as int;
    let t = frame as int % span;
    lemma_mod_bound(frame as int, span);
    lemma_fundamental_div_mod(frame as int, span);
    let q = frame as int / span;
    if t < span - 1 {
        assert(frame + 1 == q * span + (t + 1)) by (nonlinear_arith)
            requires
                frame == span * q + t,
        ;
        lemma_fundamental_div_mod_converse(frame + 1, span, q, t + 1);
    } else {
        assert(frame + 1 == (q + 1) * span + 0) by (nonlinear_arith)
            requires
                frame == span * q + t,
                t == span - 1,
        ;
        lemma_fundamental_div_mod_converse(frame + 1, span, q + 1, 0);
    }
}

/// The chip for sub-agents at work: none without agents, and in the singular for one.
pub open spec fn agents_chip(running: nat) -> Seq<SpanView> {
    if running == 0 {
        seq![]
    } else {
        seq![
            SpanView {
                content: if running == 1 {
                    "1 agent"@
                } else {
                    text::decimal_text(running) + " agents"@
                },
                style: Style::colored(Color::DeepseekSky),
            },
        ]
    }
}

/// The chip for sub-agents at work.
#[must_use]
pub fn footer_agents_chip(running: usize) -> (r: Vec<Span>)
    ensures
        span_views(r@) == agents_chip(running as nat),
{
    let mut chip: Vec<Span> = Vec::new();
    if running == 0 {
        assert(span_views(chip@) =~= agents_chip(0));
        return chip;
    }
    let label: String = if running == 1 {
        "1 agent".to_string()
    } else {
        let mut many: String = text::decimal(running as u64);
        many.append(" agents");
        many
    };
    chip.push(Span::styled(label, Style::default().fg(Color::DeepseekSky)));
    assert(span_views(chip@) =~= agents_chip(running as nat));
    chip
}

/// A message that takes the place of the status line for a short time.
#[derive(Debug)]
pub struct FooterToast {
    pub text: String,
    pub color: Color,
}

impl Clone for FooterToast {
    fn clone(&self) -> (r: Self)
        ensures
            r.text@ == self.text@,
            r.color == self.color,
    {
        FooterToast { text: self.text.clone(), color: self.color }
    }
}

/// What the footer shows.
#[derive(Debug)]
pub struct FooterProps {
    pub model: String,
    pub mode_label: &'static str,
    pub mode_color: Color,
    /// A label such as `ready` or `working`; the label `ready` is not shown.
    pub state_label: String,
    pub state_color: Color,
    pub coherence: Vec<Span>,
    pub agents: Vec<Span>,
    pub reasoning_replay: Vec<Span>,
    pub cache: Vec<Span>,
    pub cost: Vec<Span>,
    pub toast: Option<FooterToast>,
    /// The frame of the animated strip; without one the gap stays blank.
    pub working_strip_frame: Option<u64>,
}

/// The value of [`FooterProps`].
pub struct FooterPropsView {
    pub model: Seq<char>,
    pub mode_label: Seq<char>,
    pub mode_color: Color,
    pub state_label: Seq<char>,
    pub state_color: Color,
    pub coherence: Seq<SpanView>,
    pub agents: Seq<SpanView>,
    pub reasoning_replay: Seq<SpanView>,
    pub cache: Seq<SpanView>,
    pub cost: Seq<SpanView>,
    pub toast: Option<SpanView>,
    pub working_strip_frame: Option<u64>,
}

/// A toast as a span.
pub open spec fn toast_view(toast: Option<FooterToast>) -> Option<SpanView> {
    match toast {
        Some(toast) => Some(SpanView { content: toast.text@, style: Style::colored(toast.color) }),
        None => None,
    }
}

impl View for FooterProps {
    type V = FooterPropsView;

    open spec fn view(&self) -> FooterPropsView {
        FooterPropsView {
            model: self.model@,
            mode_label: self.mode_label@,
            mode_color: self.mode_color,
            state_label: self.state_label@,
            state_color: self.state_color,
            coherence: span_views(self.coherence@),
            agents: span_views(self.agents@),
            reasoning_replay: span_views(self.reasoning_replay@),
            cache: span_views(self.cache@),
            cost: span_views(self.cost@),
            toast: toast_view(self.toast),
            working_strip_frame: self.working_strip_frame,
        }
    }
}

impl Clone for FooterProps {
    fn clone(&self) -> (r: Self)
        ensures
            r@ == self@,
    {
        FooterProps {
            model: self.model.clone(),
            mode_label: self.mode_label,
            mode_color: self.mode_color,
            state_label: self.state_label.clone(),
            state_color: self.state_color,
            coherence: clone_spans(&self.coherence),
            agents: clone_spans(&self.agents),
            reasoning_replay: clone_spans(&self.reasoning_replay),
            cache: clone_spans(&self.cache),
            cost: clone_spans(&self.cost),
            toast: match &self.toast {
                Some(toast) => Some(toast.clone()),
                None => None,
            },
            working_strip_frame: self.working_strip_frame,
        }
    }
}

/// The label and the color of a mode.
pub fn mode_style(mode: AppMode) -> (r: (&'static str, Color))
    ensures
        r.0@ == mode.label(),
        r.1 == mode.color(),
{
    match mode {
        AppMode::Agent => ("agent", Color::ModeAgent),
        AppMode::Yolo => ("yolo", Color::ModeYolo),
        AppMode::Plan => ("plan", Color::ModePlan),
    }
}

impl FooterProps {
    /// What the footer shows of the client, with the given status and chips and no strip.
    #[must_use]
    pub fn from_app(
        app: &App,
        toast: Option<FooterToast>,
        state_label: &'static str,
        state_color: Color,
        coherence: Vec<Span>,
        agents: Vec<Span>,
        reasoning_replay: Vec<Span>,
        cache: Vec<Span>,
        cost: Vec<Span>,
    ) -> (props: Self)
        ensures
            props@ == (FooterPropsView {
                model: app.model@,
                mode_label: app.mode.label(),
                mode_color: app.mode.color(),
                state_label: state_label@,
                state_color,
                coherence: span_views(coherence@),
                agents: span_views(agents@),
                reasoning_replay: span_views(reasoning_replay@),
                cache: span_views(cache@),
                cost: span_views(cost@),
                toast: toast_view(toast),
                working_strip_frame: None,
            }),
    {
        let (mode_label, mode_color): (&'static str, Color) = mode_style(app.mode);
        FooterProps {
            model: app.model.clone(),
            mode_label,
            mode_color,
            state_label: state_label.to_string(),
            state_color,
            coherence,
            agents,
            reasoning_replay,
            cache,
            cost,
            toast,
            working_strip_frame: None,
        }
    }
}

/// The number of columns that a list of spans takes.
pub open spec fn spans_width(spans: Seq<SpanView>) -> nat
    decreases spans.len(),
{
    if spans.len() == 0 {
        0
    } else {
        spans_width(spans.drop_last()) + str_width(spans.last().content) as nat
    }
}

/// The number of columns that a list of spans takes.
pub fn span_width(spans: &Vec<Span>) -> (r: u128)
    ensures
        r == spans_width(span_views(spans@)),
{
    let ghost views = span_views(spans@);
    let mut sum: u128 = 0;
    let mut i: usize = 0;
    assert(views.take(0) =~= Seq::<SpanView>::empty());
    while i < spans.len()
        invariant
            i <= spans@.len(),
            views == span_views(spans@),
            sum == spans_width(views.take(i as int)),
            sum <= i * (usize::MAX as u128),
        decreases spans@.len() - i,
    {
        assert(views.take(i + 1).drop_last() =~= views.take(i as int));
        assert(views.take(i + 1).last() == spans@[i as int]@);
        let width: usize = width_of_text(spans[i].content.as_str());
        assert(i * (usize::MAX as u128) + usize::MAX == (i + 1) * (usize::MAX as u128))
            by (nonlinear_arith);
        assert((i + 1) * (usize::MAX as u128) <= u128::MAX) by (nonlinear_arith)
            requires
                i + 1 <= usize::MAX,
        ;
        sum = sum + width as u128;
        i += 1;
    }
    assert(views.take(i as int) =~= views);
    sum
}

/// How many items at the start of a list of widths fit into a number of columns.
pub open spec fn fitting_prefix(widths: Seq<usize>, columns: int) -> nat
    decreases widths.len(),
{
    if widths.len() == 0 || widths[0] > columns {
        0
    } else {
        1 + fitting_prefix(widths.drop_first(), columns - widths[0])
    }
}

/// How many items at the start of a list of widths fit into a number of columns.
pub fn count_fitting(widths: &Vec<usize>, columns: usize) -> (n: usize)
    ensures
        n == fitting_prefix(widths@, columns as int),
        n <= widths@.len(),
{
    let mut free: usize = columns;
    let mut n: usize = 0;
    assert(widths@.skip(0) =~= widths@);
    while n < widths.len()
        invariant
            n <= widths@.len(),
            n + fitting_prefix(widths@.skip(n as int), free as int) == fitting_prefix(
                widths@,
                columns as int,
            ),
        decreases widths@.len() - n,
    {
        assert(widths@.skip(n as int).drop_first() =~= widths@.skip(n + 1));
        assert(widths@.skip(n as int)[0] == widths@[n as int]);
        if widths[n] > free {
            return n;
        }
        free = free - widths[n];
        n += 1;
    }
    n
}

/// The widths of the characters of a text; a control character counts as none.
pub open spec fn char_widths(s: Seq<char>) -> Seq<usize> {
    s.map_values(
        |c: char|
            match char_width(c) {
                Some(width) => width,
                None => 0usize,
            },
    )
}

/// A text of the given width, with characters of the given widths, cut to a number of columns: a
/// text that fits stays as it is, a longer one ends in three dots, and in three columns or less it
/// is cut to as many characters.
pub open spec fn cut(s: Seq<char>, width: int, widths: Seq<usize>, columns: int) -> Seq<char> {
    if columns == 0 {
        seq![]
    } else if width <= columns {
        s
    } else if columns <= 3 {
        if columns <= s.len() {
            s.take(columns)
        } else {
            s
        }
    } else {
        s.take(fitting_prefix(widths, columns - 3) as int) + "..."@
    }
}

/// A text cut to a number of columns.
pub open spec fn truncated(s: Seq<char>, columns: int) -> Seq<char> {
    cut(s, str_width(s) as int, char_widths(s), columns)
}

/// A text of the given width, with characters of the given widths, cut to a number of columns.
pub fn cut_measured(content: &str, width: usize, widths: &Vec<usize>, max_width: usize) -> (r:
    String)
    requires
        widths@.len() == content@.len(),
    ensures
        r@ == cut(content@, width as int, widths@, max_width as int),
{
    if max_width == 0 {
        let nothing: String = String::new();
        assert(nothing@ =~= seq![]);
        return nothing;
    }
    if width <= max_width {
        return content.to_string();
    }
    let len: usize = content.unicode_len();
    if max_width <= 3 {
        let kept: usize = if max_width <= len {
            max_width
        } else {
            len
        };
        assert(content@.subrange(0, kept as int) =~= content@.take(kept as int));
        assert(content@.take(len as int) =~= content@);
        return content.substring_char(0, kept).to_string();
    }
    let kept: usize = count_fitting(widths, max_width - 3);
    assert(content@.subrange(0, kept as int) =~= content@.take(kept as int));
    let mut out: String = content.substring_char(0, kept).to_string();
    out.append("...");
    out
}

/// A text cut to a number of columns.
pub fn truncate_to_width(content: &str, max_width: usize) -> (r: String)
    ensures
        r@ == truncated(content@, max_width as int),
{
    let chars: Vec<char> = text::chars_of(content);
    let mut widths: Vec<usize> = Vec::new();
    let mut i: usize = 0;
    while i < chars.len()
        invariant
            i <= chars@.len(),
            chars@ == content@,
            widths@ == char_widths(content@).take(i as int),
        decreases chars@.len() - i,
    {
        let width: usize = width_of_char(chars[i]).unwrap_or(0);
        proof {
            let all = char_widths(content@);
            assert(all.take(i + 1) =~= all.take(i as int).push(all[i as int]));
        }
        widths.push(width);
        i += 1;
    }
    assert(char_widths(content@).take(i as int) =~= char_widths(content@));
    cut_measured(content, width_of_text(content), &widths, max_width)
}

/// The number of columns that items of the given widths take together.
pub open spec fn total_width(widths: Seq<usize>) -> int
    decreases widths.len(),
{
    if widths.len() == 0 {
        0
    } else {
        widths[0] + total_width(widths.drop_first())
    }
}

/// Of a text that is too long for its columns, as many characters are kept as leave room for the
/// dots: the kept ones fit, and with one more they would not.
pub proof fn long_text_keeps_what_fits(s: Seq<char>, columns: nat)
    requires
        str_width(s) > columns > 3,
    ensures
        ({
            let n = fitting_prefix(char_widths(s), columns - 3) as int;
            &&& n <= s.len()
            &&& truncated(s, columns as int) == s.take(n) + "..."@
            &&& total_width(char_widths(s.take(n))) <= columns - 3
            &&& n < s.len() ==> total_width(char_widths(s.take(n + 1))) > columns - 3
        }),
{
    let n = fitting_prefix(char_widths(s), columns - 3) as int;
    lemma_fitting_prefix(char_widths(s), columns - 3);
    assert(char_widths(s.take(n)) =~= char_widths(s).take(n));
    if n < s.len() {
        assert(char_widths(s.take(n + 1)) =~= char_widths(s).take(n + 1));
    }
}

proof fn lemma_fitting_prefix(widths: Seq<usize>, columns: int)
    requires
        columns >= 0,
    ensures
        fitting_prefix(widths, columns) <= widths.len(),
        total_width(widths.take(fitting_prefix(widths, columns) as int)) <= columns,
        fitting_prefix(widths, columns) < widths.len() ==> total_width(
            widths.take(fitting_prefix(widths, columns) as int + 1),
        ) > columns,
    decreases widths.len(),
{
    if widths.len() > 0 {
        if widths[0] > columns {
            assert(widths.take(1).drop_first() =~= Seq::<usize>::empty());
            reveal_with_fuel(total_width, 2);
        } else {
            let rest = widths.drop_first();
            let n = fitting_prefix(rest, columns - widths[0]) as int;
            lemma_fitting_prefix(rest, columns - widths[0]);
            assert(widths.take(n + 1).drop_first() =~= rest.take(n));
            if n < rest.len() {
                assert(widths.take(n + 2).drop_first() =~= rest.take(n + 1));
            }
        }
    }
}

/// A text of which every character takes one column never takes more columns than asked for.
pub proof fn plain_text_is_cut_to_fit(s: Seq<char>, columns: nat)
    requires
        str_width(s) == s.len(),
        forall|i: int| 0 <= i < s.len() ==> #[trigger] char_width(s[i]) == Some(1usize),
    ensures
        truncated(s, columns as int).len() <= columns,
        s.len() <= columns ==> truncated(s, columns as int) == s || columns == 0,
        s.len() > columns > 3 ==> truncated(s, columns as int) == s.take(columns - 3) + "..."@,
{
    reveal_strlit("...");
    if s.len() > columns > 3 {
        let widths = char_widths(s);
        assert forall|i: int| 0 <= i < widths.len() implies #[trigger] widths[i] == 1 by {
            assert(char_width(s[i]) == Some(1usize));
        }
        lemma_unit_prefix(widths, columns - 3);
    }
}

proof fn lemma_unit_prefix(widths: Seq<usize>, columns: int)
    requires
        0 <= columns <= widths.len(),
        forall|i: int| 0 <= i < widths.len() ==> #[trigger] widths[i] == 1,
    ensures
        fitting_prefix(widths, columns) == columns,
    decreases widths.len(),
{
    if columns > 0 {
        let rest = widths.drop_first();
        assert forall|i: int| 0 <= i < rest.len() implies #[trigger] rest[i] == 1 by {
            assert(widths[i + 1] == 1);
        }
        lemma_unit_prefix(rest, columns - 1);
    }
}

/// Chips side by side, with two blanks between them.
pub open spec fn side_by_side(chips: Seq<Seq<SpanView>>) -> Seq<SpanView>
    decreases chips.len(),
{
    if chips.len() == 0 {
        seq![]
    } else if chips.len() == 1 {
        chips[0]
    } else {
        side_by_side(chips.drop_last()) + seq![SpanView { content: "  "@, style: Style::plain() }]
            + chips.last()
    }
}

/// The greatest number up to `n` whose entry in a list of widths fits into the columns; nothing
/// always fits.
pub open spec fn greatest_fitting(widths: Seq<int>, n: nat, columns: int) -> nat
    decreases n,
{
    if n == 0 || widths[n as int] <= columns {
        n
    } else {
        greatest_fitting(widths, (n - 1) as nat, columns)
    }
}

/// The greatest number whose entry in a list of widths fits into the columns.
pub fn most_fitting(widths: &Vec<u128>, columns: usize) -> (n: usize)
    requires
        widths@.len() > 0,
    ensures
        n == greatest_fitting(
            widths@.map_values(|w: u128| w as int),
            (widths@.len() - 1) as nat,
            columns as int,
        ),
        n < widths@.len(),
{
    let mut n: usize = widths.len() - 1;
    while n > 0 && widths[n] > columns as u128
        invariant
            n < widths@.len(),
            greatest_fitting(widths@.map_values(|w: u128| w as int), n as nat, columns as int)
                == greatest_fitting(
                widths@.map_values(|w: u128| w as int),
                (widths@.len() - 1) as nat,
                columns as int,
            ),
        decreases n,
    {
        n -= 1;
    }
    n
}

/// How many columns the first chips take side by side, for each number of chips.
pub open spec fn chip_widths(chips: Seq<Seq<SpanView>>) -> Seq<int> {
    Seq::new(chips.len() + 1, |n: int| spans_width(side_by_side(chips.take(n))) as int)
}

/// How many chips are shown: as many as fit side by side into the columns.
pub open spec fn shown_chips(chips: Seq<Seq<SpanView>>, columns: int) -> nat {
    greatest_fitting(chip_widths(chips), chips.len(), columns)
}

/// Whether a chip shows anything.
pub open spec fn chip_test() -> spec_fn(Seq<SpanView>) -> bool {
    |chip: Seq<SpanView>| chip.len() > 0
}

/// How the status line is laid out.
#[derive(Clone, Copy, Debug, PartialEq, Eq, Structural)]
pub enum StatusLayout {
    /// There is no room.
    Blank,
    /// The mode alone, cut to the room.
    ModeOnly,
    /// Mode, model and, where it is shown, the status; the model gets this many columns.
    Full { model_budget: usize },
}

/// How the status line is laid out in a number of columns, from the widths of its parts; the
/// status has a width where it is shown.
pub open spec fn layout(
    columns: int,
    mode_width: int,
    separator_width: int,
    status_width: Option<usize>,
) -> StatusLayout {
    let fixed: int = mode_width + separator_width + match status_width {
        Some(width) => separator_width + width,
        None => 0,
    };
    if columns == 0 {
        StatusLayout::Blank
    } else if columns <= mode_width {
        StatusLayout::ModeOnly
    } else if columns - fixed > 1 {
        StatusLayout::Full { model_budget: (columns - fixed) as usize }
    } else {
        StatusLayout::Full { model_budget: 1 }
    }
}

/// How the status line is laid out in a number of columns.
pub fn status_layout(
    max_width: usize,
    mode_width: usize,
    separator_width: usize,
    status_width: Option<usize>,
) -> (r: StatusLayout)
    ensures
        r == layout(max_width as int, mode_width as int, separator_width as int, status_width),
{
    if max_width == 0 {
        return StatusLayout::Blank;
    }
    if max_width <= mode_width {
        return StatusLayout::ModeOnly;
    }
    let mut fixed: u128 = mode_width as u128 + separator_width as u128;
    if let Some(width) = status_width {
        fixed = fixed + separator_width as u128 + width as u128;
    }
    if max_width as u128 > fixed {
        StatusLayout::Full { model_budget: max_width - fixed as usize }
    } else {
        StatusLayout::Full { model_budget: 1 }
    }
}

/// The columns of the left-hand side: what the right-hand side and a gap of two columns leave, and
/// at least one.
pub open spec fn left_share(columns: int, right: int) -> int {
    let gap: int = if right > 0 {
        2
    } else {
        0
    };
    if columns - right - gap > 1 {
        columns - right - gap
    } else {
        1
    }
}

/// The columns of the left-hand side.
pub fn left_budget(columns: usize, right_width: usize) -> (r: usize)
    ensures
        r == left_share(columns as int, right_width as int),
{
    let min_gap: usize = if right_width > 0 {
        2
    } else {
        0
    };
    let free: usize = columns.saturating_sub(right_width).saturating_sub(min_gap);
    if free > 1 {
        free
    } else {
        1
    }
}

/// The columns between the two sides: what these leave, if anything.
pub open spec fn gap_share(columns: int, left: int, right: int) -> int {
    if columns - left - right > 0 {
        columns - left - right
    } else {
        0
    }
}

/// The columns between the two sides.
pub fn gap_width(columns: usize, left_width: u128, right_width: usize) -> (r: usize)
    ensures
        r == gap_share(columns as int, left_width as int, right_width as int),
{
    let free: usize = columns.saturating_sub(right_width);
    if left_width < free as u128 {
        free - left_width as usize
    } else {
        0
    }
}

impl FooterPropsView {
    /// The chips that show anything, in order.
    pub open spec fn chips(self) -> Seq<Seq<SpanView>> {
        seq![
            self.coherence,
            self.agents,
            self.reasoning_replay,
            self.cache,
            self.cost,
        ].filter(chip_test())
    }

    /// The right-hand side of the footer: as many chips as fit, dropped from the end.
    pub open spec fn auxiliary(self, columns: int) -> Seq<SpanView> {
        let chips = self.chips();
        side_by_side(chips.take(shown_chips(chips, columns) as int))
    }

    /// Whether the status is shown.
    pub open spec fn shows_status(self) -> bool {
        self.state_label != "ready"@
    }

    /// How the status line is laid out.
    pub open spec fn status_layout(self, columns: int) -> StatusLayout {
        layout(
            columns,
            str_width(self.mode_label) as int,
            str_width(separator()) as int,
            if self.shows_status() {
                Some(str_width(self.state_label))
            } else {
                None
            },
        )
    }

    /// The status line.
    pub open spec fn status_line(self, columns: int) -> Seq<SpanView> {
        match self.status_layout(columns) {
            StatusLayout::Blank => seq![],
            StatusLayout::ModeOnly => seq![
                SpanView {
                    content: truncated(self.mode_label, columns),
                    style: Style::colored(self.mode_color),
                },
            ],
            StatusLayout::Full { model_budget } => {
                let line = seq![
                    SpanView { content: self.mode_label, style: Style::colored(self.mode_color) },
                    SpanView { content: separator(), style: Style::colored(Color::TextDim) },
                    SpanView {
                        content: truncated(self.model, model_budget as int),
                        style: Style::colored(Color::TextHint),
                    },
                ];
                if self.shows_status() {
                    line + seq![
                        SpanView { content: separator(), style: Style::colored(Color::TextDim) },
                        SpanView { content: self.state_label, style: Style::colored(self.state_color) },
                    ]
                } else {
                    line
                }
            },
        }
    }

    /// The left-hand side of the footer: the toast, if there is one, or the status line.
    pub open spec fn left(self, columns: int) -> Seq<SpanView> {
        match self.toast {
            Some(toast) => seq![
                SpanView {
                    content: truncated(
                        toast.content,
                        if columns > 1 {
                            columns
                        } else {
                            1
                        },
                    ),
                    style: toast.style,
                },
            ],
            None => self.status_line(columns),
        }
    }

    /// The columns of the left-hand side.
    pub open spec fn left_columns(self, columns: int) -> int {
        left_share(columns, spans_width(self.auxiliary(columns)) as int)
    }

    /// The columns between the two sides.
    pub open spec fn spacer_columns(self, columns: int) -> int {
        gap_share(
            columns,
            spans_width(self.left(self.left_columns(columns))) as int,
            spans_width(self.auxiliary(columns)) as int,
        )
    }

    /// What stands between the two sides: a frame of the strip, or blanks.
    pub open spec fn spacer(self, columns: int) -> SpanView {
        let free = self.spacer_columns(columns);
        match self.working_strip_frame {
            Some(frame) if free > 0 => SpanView {
                content: strip(free as nat, frame),
                style: Style::colored(Color::DeepseekSky),
            },
            _ => SpanView { content: blanks(free as nat), style: Style::plain() },
        }
    }

    /// The whole footer line.
    pub open spec fn line(self, columns: int) -> Seq<SpanView> {
        self.left(self.left_columns(columns)) + seq![self.spacer(columns)] + self.auxiliary(columns)
    }
}

/// What stands between the parts of the status line.
pub open spec fn separator() -> Seq<char> {
    " \u{00B7} "@
}

/// A number of blanks.
pub open spec fn blanks(n: nat) -> Seq<char> {
    Seq::new(n, |i: int| ' ')
}

/// A number of blanks.
fn blank_text(n: usize) -> (r: String)
    ensures
        r@ == blanks(n as nat),
{
    let mut out: String = String::new();
    let mut i: usize = 0;
    while i < n
        invariant
            i <= n,
            out@ == blanks(i as nat),
        decreases n - i,
    {
        assert(blanks((i + 1) as nat) =~= blanks(i as nat).push(' '));
        out.push(' ');
        i += 1;
    }
    out
}

/// The footer. It is built for each redraw, and laid out for the columns that it gets.
pub struct FooterWidget {
    props: FooterProps,
}

impl View for FooterWidget {
    type V = FooterPropsView;

    closed spec fn view(&self) -> FooterPropsView {
        self.props@
    }
}

/// The values of a list of chips.
spec fn chip_views(chips: Seq<Vec<Span>>) -> Seq<Seq<SpanView>> {
    chips.map_values(|chip: Vec<Span>| span_views(chip@))
}

/// Adds a chip that shows anything to a list of chips.
fn add_chip(chips: &mut Vec<Vec<Span>>, chip: &Vec<Span>)
    ensures
        chip_views(final(chips)@) == (if span_views(chip@).len() > 0 {
            chip_views(old(chips)@).push(span_views(chip@))
        } else {
            chip_views(old(chips)@)
        }),
{
    if chip.len() > 0 {
        chips.push(clone_spans(chip));
        assert(chip_views(chips@) =~= chip_views(old(chips)@).push(span_views(chip@)));
    }
}

/// The first `n` chips side by side.
fn combine(chips: &Vec<Vec<Span>>, n: usize) -> (r: Vec<Span>)
    requires
        n <= chips@.len(),
    ensures
        span_views(r@) == side_by_side(chip_views(chips@).take(n as int)),
{
    let ghost views = chip_views(chips@);
    let mut out: Vec<Span> = Vec::new();
    let mut i: usize = 0;
    assert(span_views(out@) =~= Seq::<SpanView>::empty());
    assert(views.take(0) =~= Seq::<Seq<SpanView>>::empty());
    while i < n
        invariant
            i <= n <= chips@.len(),
            views == chip_views(chips@),
            span_views(out@) == side_by_side(views.take(i as int)),
        decreases n - i,
    {
        let ghost before = span_views(out@);
        assert(views.take(i + 1).drop_last() =~= views.take(i as int));
        assert(views.take(i + 1).last() == span_views(chips@[i as int]@));
        if i > 0 {
            out.push(Span::raw("  ".to_string()));
            assert(span_views(out@) =~= before + seq![SpanView { content: "  "@, style: Style::plain() }]);
        }
        let ghost mid = span_views(out@);
        let mut chip: Vec<Span> = clone_spans(&chips[i]);
        let ghost added = span_views(chip@);
        let ghost first = out@;
        let ghost second = chip@;
        out.append(&mut chip);
        assert(out@ == first + second);
        assert(span_views(out@) =~= mid + added);
        if i == 0 {
            assert(mid + added =~= added);
        }
        i += 1;
    }
    out
}

impl FooterWidget {
    /// A footer that shows the given content.
    #[must_use]
    pub fn new(props: FooterProps) -> (widget: Self)
        ensures
            widget@ == props@,
    {
        FooterWidget { props }
    }

    /// The right-hand side of the footer.
    fn auxiliary_spans(&self, max_width: usize) -> (r: Vec<Span>)
        ensures
            span_views(r@) == self@.auxiliary(max_width as int),
            spans_width(span_views(r@)) <= max_width,
    {
        let ghost all = seq![
            self@.coherence,
            self@.agents,
            self@.reasoning_replay,
            self@.cache,
            self@.cost,
        ];
        let mut chips: Vec<Vec<Span>> = Vec::new();
        assert(chip_views(chips@) =~= Seq::<Seq<SpanView>>::empty());
        add_chip(&mut chips, &self.props.coherence);
        add_chip(&mut chips, &self.props.agents);
        add_chip(&mut chips, &self.props.reasoning_replay);
        add_chip(&mut chips, &self.props.cache);
        add_chip(&mut chips, &self.props.cost);
        assert(chip_views(chips@) =~= self@.chips()) by {
            assert(all.take(5) =~= all);
            assert(all.take(5).drop_last() =~= all.take(4));
            assert(all.take(4).drop_last() =~= all.take(3));
            assert(all.take(3).drop_last() =~= all.take(2));
            assert(all.take(2).drop_last() =~= all.take(1));
            assert(all.take(1).drop_last() =~= all.take(0));
            reveal_with_fuel(Seq::filter, 6);
        }
        let ghost views = self@.chips();
        let mut widths: Vec<u128> = Vec::new();
        let mut n: usize = 0;
        while n <= chips.len()
            invariant
                n <= chips@.len() + 1,
                views == chip_views(chips@),
                chips@.len() <= 5,
                widths@.len() == n,
                forall|k: int| 0 <= k < n ==> #[trigger] widths@[k] == chip_widths(views)[k],
            decreases chips@.len() + 1 - n,
        {
            let combined: Vec<Span> = combine(&chips, n);
            widths.push(span_width(&combined));
            n += 1;
        }
        assert(widths@.map_values(|w: u128| w as int) =~= chip_widths(views));
        let shown: usize = most_fitting(&widths, max_width);
        proof {
            chips_fit(self@, max_width as nat);
        }
        combine(&chips, shown)
    }

    /// The toast, cut to the columns.
    fn toast_spans(toast: &FooterToast, max_width: usize) -> (r: Vec<Span>)
        ensures
            span_views(r@) == seq![
                SpanView {
                    content: truncated(
                        toast.text@,
                        if max_width > 1 {
                            max_width as int
                        } else {
                            1
                        },
                    ),
                    style: Style::colored(toast.color),
                },
            ],
    {
        let columns: usize = if max_width > 1 {
            max_width
        } else {
            1
        };
        let cut: String = truncate_to_width(toast.text.as_str(), columns);
        let ghost content = cut@;
        let mut spans: Vec<Span> = Vec::new();
        spans.push(Span::styled(cut, Style::default().fg(toast.color)));
        assert(span_views(spans@) =~= seq![SpanView { content, style: Style::colored(toast.color) }]);
        spans
    }

    /// The status line.
    fn status_line_spans(&self, max_width: usize) -> (r: Vec<Span>)
        ensures
            span_views(r@) == self@.status_line(max_width as int),
    {
        let mode_label: &str = self.props.mode_label;
        let sep: &str = " \u{00B7} ";
        let show_status: bool = !text::same_text(self.props.state_label.as_str(), "ready");
        let status_width: Option<usize> = if show_status {
            Some(width_of_text(self.props.state_label.as_str()))
        } else {
            None
        };
        let mut spans: Vec<Span> = Vec::new();
        match status_layout(
            max_width,
            width_of_text(mode_label),
            width_of_text(sep),
            status_width,
        ) {
            StatusLayout::Blank => {},
            StatusLayout::ModeOnly => {
                let label: String = truncate_to_width(mode_label, max_width);
                spans.push(Span::styled(label, Style::default().fg(self.props.mode_color)));
            },
            StatusLayout::Full { model_budget } => {
                let model: String = truncate_to_width(self.props.model.as_str(), model_budget);
                spans.push(Span::styled(mode_label.to_string(), Style::default().fg(self.props.mode_color)));
                spans.push(Span::styled(sep.to_string(), Style::default().fg(Color::TextDim)));
                spans.push(Span::styled(model, Style::default().fg(Color::TextHint)));
                if show_status {
                    spans.push(Span::styled(sep.to_string(), Style::default().fg(Color::TextDim)));
                    spans.push(
                        Span::styled(self.props.state_label.clone(), Style::default().fg(self.props.state_color)),
                    );
                }
            },
        }
        assert(span_views(spans@) =~= self@.status_line(max_width as int));
        spans
    }

    /// The spans of the footer line in an area of the given size; nothing in an empty area.
    pub fn render(&self, width: u16, height: u16) -> (r: Vec<Span>)
        ensures
            span_views(r@) == (if width == 0 || height == 0 {
                seq![]
            } else {
                self@.line(width as int)
            }),
    {
        if height == 0 || width == 0 {
            let nothing: Vec<Span> = Vec::new();
            assert(span_views(nothing@) =~= Seq::<SpanView>::empty());
            return nothing;
        }
        let available: usize = width as usize;
        let mut right_spans: Vec<Span> = self.auxiliary_spans(available);
        let right_width: usize = span_width(&right_spans) as usize;
        let max_left_width: usize = left_budget(available, right_width);
        let mut all_spans: Vec<Span> = match &self.props.toast {
            Some(toast) => Self::toast_spans(toast, max_left_width),
            None => self.status_line_spans(max_left_width),
        };
        assert(span_views(all_spans@) =~= self@.left(max_left_width as int));
        let left_width: u128 = span_width(&all_spans);
        let spacer_width: usize = gap_width(available, left_width, right_width);
        let spacer_span: Span = match self.props.working_strip_frame {
            Some(frame) => {
                if spacer_width > 0 {
                    Span::styled(
                        footer_working_strip_string(spacer_width, frame),
                        Style::default().fg(Color::DeepseekSky),
                    )
                } else {
                    Span::raw(blank_text(spacer_width))
                }
            },
            None => Span::raw(blank_text(spacer_width)),
        };
        assert(spacer_span@ == self@.spacer(width as int));
        let ghost left = span_views(all_spans@);
        let ghost right = span_views(right_spans@);
        all_spans.push(spacer_span);
        assert(span_views(all_spans@) =~= left.push(spacer_span@));
        let ghost mid = all_spans@;
        let ghost tail = right_spans@;
        all_spans.append(&mut right_spans);
        assert(all_spans@ == mid + tail);
        assert(span_views(all_spans@) =~= left + seq![spacer_span@] + right);
        all_spans
    }

    /// The footer takes one line.
    pub fn desired_height(&self, _width: u16) -> (r: u16)
        ensures
            r == 1,
    {
        1
    }
}

/// The chips on the right always fit: they never take more than the columns of the footer.
pub proof fn chips_fit(props: FooterPropsView, columns: nat)
    ensures
        spans_width(props.auxiliary(columns as int)) <= columns,
{
    let chips = props.chips();
    lemma_greatest_fitting(chip_widths(chips), chips.len(), columns as int);
    assert(side_by_side(chips.take(0)) =~= Seq::<SpanView>::empty());
}

proof fn lemma_greatest_fitting(widths: Seq<int>, n: nat, columns: int)
    ensures
        greatest_fitting(widths, n, columns) <= n,
        greatest_fitting(widths, n, columns) > 0 ==> widths[greatest_fitting(
            widths,
            n,
            columns,
        ) as int] <= columns,
        forall|m: int|
            greatest_fitting(widths, n, columns) < m <= n ==> #[trigger] widths[m] > columns,
    decreases n,
{
    if n > 0 && widths[n as int] > columns {
        lemma_greatest_fitting(widths, (n - 1) as nat, columns);
    }
}

/// As many chips are shown as fit: with any more of them the chips would take too many columns.
pub proof fn no_further_chip_fits(props: FooterPropsView, columns: nat, n: nat)
    requires
        shown_chips(props.chips(), columns as int) < n <= props.chips().len(),
    ensures
        spans_width(side_by_side(props.chips().take(n as int))) > columns,
{
    lemma_greatest_fitting(chip_widths(props.chips()), props.chips().len(), columns as int);
    assert(chip_widths(props.chips())[n as int] > columns);
}

/// The gap closes the line: together with the two sides it takes exactly the columns of the
/// footer, unless the left-hand side alone leaves none for it.
pub proof fn gap_fills_the_line(props: FooterPropsView, columns: nat)
    ensures
        ({
            let left = spans_width(props.left(props.left_columns(columns as int)));
            let right = spans_width(props.auxiliary(columns as int));
            &&& props.spacer(columns as int).content.len() == props.spacer_columns(columns as int)
            &&& left + right <= columns ==> left + props.spacer_columns(columns as int) + right
                == columns
            &&& left + right > columns ==> props.spacer_columns(columns as int) == 0
        }),
{
}

/// While a toast is shown, the left-hand side does not depend on mode, model or status.
pub proof fn toast_replaces_the_status_line(
    a: FooterPropsView,
    b: FooterPropsView,
    columns: nat,
)
    requires
        a.toast is Some,
        a.toast == b.toast,
    ensures
        a.left(columns as int) == b.left(columns as int),
{
}

/// Two groups of spans side by side, with two blanks between them where both show anything.
pub open spec fn beside(left: Seq<SpanView>, right: Seq<SpanView>) -> Seq<SpanView> {
    if left.len() == 0 {
        right
    } else if right.len() == 0 {
        left
    } else {
        left + seq![SpanView { content: "  "@, style: Style::plain() }] + right
    }
}

/// The first `n` of the five groups of chips side by side: coherence, agents, replayed reasoning,
/// cache and cost.
pub open spec fn first_groups(props: FooterPropsView, n: nat) -> Seq<SpanView> {
    if n == 0 {
        seq![]
    } else if n == 1 {
        props.coherence
    } else if n == 2 {
        beside(props.coherence, props.agents)
    } else if n == 3 {
        beside(beside(props.coherence, props.agents), props.reasoning_replay)
    } else if n == 4 {
        beside(
            beside(beside(props.coherence, props.agents), props.reasoning_replay),
            props.cache,
        )
    } else {
        beside(
            beside(
                beside(beside(props.coherence, props.agents), props.reasoning_replay),
                props.cache,
            ),
            props.cost,
        )
    }
}

/// The right-hand side shows the groups of chips in their order, whole, and as many of them as fit:
/// if the first `n` groups fit and the next one does not, it shows these `n`. Where there is room
/// for all five, it shows all five.
pub proof fn groups_of_chips_are_shown(props: FooterPropsView, columns: nat, n: nat)
    requires
        n <= 5,
        spans_width(first_groups(props, n)) <= columns,
        n < 5 ==> spans_width(first_groups(props, n + 1)) > columns,
    ensures
        props.auxiliary(columns as int) == first_groups(props, n),
{
    let all = seq![
        props.coherence,
        props.agents,
        props.reasoning_replay,
        props.cache,
        props.cost,
    ];
    let chips = props.chips();
    lemma_groups(props, all, n);
    let m = all.take(n as int).filter(chip_test()).len();
    assert(side_by_side(chips.take(m as int)) == first_groups(props, n));
    let widths = chip_widths(chips);
    lemma_greatest_fitting(widths, chips.len(), columns as int);
    let g = greatest_fitting(widths, chips.len(), columns as int);
    assert(widths[m as int] <= columns);
    if n < 5 {
        lemma_groups(props, all, n + 1);
        let next = all.take(n as int + 1).filter(chip_test()).len();
        assert(side_by_side(chips.take(next as int)) == first_groups(props, n + 1));
        assert(widths[next as int] > columns);
        if g > m {
            assert(g >= next);
            lemma_more_chips_are_wider(chips, next as int, g as int);
            assert(widths[g as int] > columns);
        }
    } else {
        assert(all.take(5) =~= all);
    }
}

/// Where just one group of chips shows anything and it fits, the right-hand side is that group.
pub proof fn a_single_group_is_shown(props: FooterPropsView, columns: nat)
    ensures
        spans_width(first_groups(props, 5)) <= columns ==> props.auxiliary(columns as int)
            == first_groups(props, 5),
        ({
            let a = props.coherence.len() == 0;
            let b = props.agents.len() == 0;
            let c = props.reasoning_replay.len() == 0;
            let d = props.cache.len() == 0;
            let e = props.cost.len() == 0;
            &&& b && c && d && e && spans_width(props.coherence) <= columns ==> props.auxiliary(
                columns as int,
            ) == props.coherence
            &&& a && c && d && e && spans_width(props.agents) <= columns ==> props.auxiliary(
                columns as int,
            ) == props.agents
            &&& a && b && d && e && spans_width(props.reasoning_replay) <= columns
                ==> props.auxiliary(columns as int) == props.reasoning_replay
            &&& a && b && c && e && spans_width(props.cache) <= columns ==> props.auxiliary(
                columns as int,
            ) == props.cache
            &&& a && b && c && d && spans_width(props.cost) <= columns ==> props.auxiliary(
                columns as int,
            ) == props.cost
        }),
{
    if spans_width(first_groups(props, 5)) <= columns {
        groups_of_chips_are_shown(props, columns, 5);
    }
}

/// The chips among the first `n` groups, side by side, are these groups side by side.
proof fn lemma_groups(props: FooterPropsView, all: Seq<Seq<SpanView>>, n: nat)
    requires
        n <= 5,
        all == seq![
            props.coherence,
            props.agents,
            props.reasoning_replay,
            props.cache,
            props.cost,
        ],
    ensures
        ({
            let some = all.take(n as int).filter(chip_test());
            &&& side_by_side(some) == first_groups(props, n)
            &&& some.len() <= props.chips().len()
            &&& props.chips().take(some.len() as int) == some
            &&& first_groups(props, n).len() > 0 <==> some.len() > 0
            &&& n < 5 ==> all.take(n as int + 1).filter(chip_test()).len() <= some.len() + 1
        }),
    decreases 5 - n,
{
    reveal(Seq::filter);
    assert(all.take(5) =~= all);
    let some = all.take(n as int).filter(chip_test());
    if n < 5 {
        lemma_groups_up(props, all, n + 1);
        lemma_groups(props, all, n + 1);
        assert(all.take(n as int + 1).drop_last() =~= all.take(n as int));
        let more = all.take(n as int + 1).filter(chip_test());
        assert(props.chips().take(some.len() as int) =~= more.take(some.len() as int));
        assert(more.take(some.len() as int) =~= some);
    } else {
        assert(props.chips().take(some.len() as int) =~= some);
    }
    lemma_groups_up(props, all, n);
}

proof fn lemma_groups_up(props: FooterPropsView, all: Seq<Seq<SpanView>>, n: nat)
    requires
        n <= 5,
        all == seq![
            props.coherence,
            props.agents,
            props.reasoning_replay,
            props.cache,
            props.cost,
        ],
    ensures
        side_by_side(all.take(n as int).filter(chip_test())) == first_groups(props, n),
        first_groups(props, n).len() > 0 <==> all.take(n as int).filter(chip_test()).len() > 0,
    decreases n,
{
    reveal(Seq::filter);
    if n > 0 {
        lemma_groups_up(props, all, (n - 1) as nat);
        let front = all.take(n - 1).filter(chip_test());
        assert(all.take(n as int).drop_last() =~= all.take(n - 1));
        assert(all.take(n as int).last() == all[n - 1]);
        if all[n - 1].len() > 0 {
            let some = front.push(all[n - 1]);
            assert(all.take(n as int).filter(chip_test()) =~= some);
            assert(some.drop_last() =~= front);
            if front.len() == 0 {
                assert(some =~= seq![all[n - 1]]);
            }
        }
        assert(first_groups(props, n) =~= beside(first_groups(props, (n - 1) as nat), all[n - 1]));
    }
}

proof fn lemma_width_of_both(a: Seq<SpanView>, b: Seq<SpanView>)
    ensures
        spans_width(a + b) == spans_width(a) + spans_width(b),
    decreases b.len(),
{
    if b.len() == 0 {
        assert(a + b =~= a);
    } else {
        lemma_width_of_both(a, b.drop_last());
        assert((a + b).drop_last() =~= a + b.drop_last());
    }
}

proof fn lemma_more_chips_are_wider(chips: Seq<Seq<SpanView>>, few: int, many: int)
    requires
        0 <= few <= many <= chips.len(),
    ensures
        spans_width(side_by_side(chips.take(few))) <= spans_width(side_by_side(chips.take(many))),
    decreases many - few,
{
    if few < many {
        lemma_more_chips_are_wider(chips, few, many - 1);
        let last = chips.take(many);
        assert(last.drop_last() =~= chips.take(many - 1));
        if many > 1 {
            let blank = seq![SpanView { content: "  "@, style: Style::plain() }];
            lemma_width_of_both(side_by_side(last.drop_last()) + blank, last.last());
            lemma_width_of_both(side_by_side(last.drop_last()), blank);
        }
    }
}

/// The footer line is the left-hand side, one span between, and the right-hand side, in this order.
pub proof fn the_line_has_two_sides(props: FooterPropsView, columns: nat)
    ensures
        ({
            let right = props.auxiliary(columns as int);
            let left = props.left(props.left_columns(columns as int));
            let line = props.line(columns as int);
            &&& line.len() == left.len() + 1 + right.len()
            &&& line.take(left.len() as int) == left
            &&& line.skip(left.len() as int + 1) == right
            &&& props.working_strip_frame is None ==> forall|i: int|
                0 <= i < line[left.len() as int].content.len() ==> #[trigger] line[left.len() as int].content[i]
                    == ' '
        }),
{
    let right = props.auxiliary(columns as int);
    let left = props.left(props.left_columns(columns as int));
    let line = props.line(columns as int);
    assert(line.take(left.len() as int) =~= left);
    assert(line.skip(left.len() as int + 1) =~= right);
}

/// Where there is more room than for the mode, the status line names the mode and the model, and the
/// status unless it is "ready", each in its color. The model is shown whole where there is room.
pub proof fn the_status_line_names_its_parts(props: FooterPropsView, columns: nat)
    requires
        props.toast is None,
        str_width(props.mode_label) < columns <= usize::MAX,
    ensures
        ({
            let line = props.left(columns as int);
            let busy = props.state_label != "ready"@;
            let dots = str_width(" \u{00B7} "@) as int;
            let fixed = str_width(props.mode_label) + dots + (if busy {
                dots + str_width(props.state_label)
            } else {
                0
            });
            &&& line.len() == (if busy {
                5int
            } else {
                3int
            })
            &&& line[0].content == props.mode_label
            &&& line[0].style.fg == Some(props.mode_color)
            &&& line[1].content == " \u{00B7} "@
            &&& fixed < columns && fixed + str_width(props.model) <= columns ==> line[2].content
                == props.model
            &&& busy ==> line[3].content == " \u{00B7} "@ && line[4].content == props.state_label
                && line[4].style.fg == Some(props.state_color)
        }),
{
}

/// A toast stands alone on the left-hand side, in its own style, and whole where it fits.
pub proof fn toasts_stand_alone(props: FooterPropsView, columns: nat)
    requires
        props.toast is Some,
    ensures
        props.left(columns as int).len() == 1,
        props.left(columns as int)[0].style == props.toast->0.style,
        columns > 0 && str_width(props.toast->0.content) <= columns ==> props.left(
            columns as int,
        )[0].content == props.toast->0.content,
{
}

/// A text that fits is shown as it is; without any column nothing is shown, and in up to three
/// columns a text that does not fit is cut to its first characters, without dots.
pub proof fn short_cuts_have_no_dots(s: Seq<char>, columns: nat)
    ensures
        columns == 0 ==> truncated(s, columns as int).len() == 0,
        columns > 0 && str_width(s) <= columns ==> truncated(s, columns as int) == s,
        0 < columns <= 3 && str_width(s) > columns && columns <= s.len() ==> truncated(
            s,
            columns as int,
        ) == s.take(columns as int),
        0 < columns <= 3 && s.len() < columns ==> truncated(s, columns as int) == s,
{
}

/// The left-hand side gets what the right-hand side leaves, less a gap of two columns where there is
/// anything on the right, and never less than one column.
pub proof fn the_sides_share_the_line(columns: nat, right: nat)
    ensures
        right == 0 && columns > 0 ==> left_share(columns as int, right as int) == columns,
        right > 0 && columns >= right + 3 ==> left_share(columns as int, right as int) + 2 + right
            == columns,
        right > 0 && columns < right + 3 ==> left_share(columns as int, right as int) == 1,
        left_share(columns as int, right as int) >= 1,
{
}

} // verus!
