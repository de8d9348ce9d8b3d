//! Colored source text for the editor.

use crate::gui::theme::Rgb;
use crate::text;
use vstd::prelude::*;
use vstd::string::*;

verus! {

/// Longer files, in bytes, are shown without colors.
pub const MAX_HIGHLIGHT_CHARS: usize = 20_000;

/// A piece of text in one color; without a color it is shown in light gray.
#[derive(Debug)]
pub struct TextRun {
    pub content: String,
    pub color: Option<Rgb>,
}

/// The value of a [`TextRun`].
pub struct TextRunView {
    pub content: Seq<char>,
    pub color: Option<Rgb>,
}

impl View for TextRun {
    type V = TextRunView;

    open spec fn view(&self) -> TextRunView {
        TextRunView { content: self.content@, color: self.color }
    }
}

impl Clone for TextRun {
    fn clone(&self) -> (r: Self)
        ensures
            r@ == self@,
    {
        TextRun { content: self.content.clone(), color: self.color }
    }
}

/// The values of a list of runs.
pub open spec fn run_views(runs: Seq<TextRun>) -> Seq<TextRunView> {
    runs.map_values(|run: TextRun| run@)
}

/// The text of a list of runs.
pub open spec fn runs_text(runs: Seq<TextRunView>) -> Seq<char>
    decreases runs.len(),
{
    if runs.len() == 0 {
        seq![]
    } else {
        runs_text(runs.drop_last()) + runs.last().content
    }
}

/// Whether a file is too long to be colored.
pub open spec fn is_too_long(content: Seq<char>) -> bool {
    vstd::utf8::encode_utf8(content).len() > MAX_HIGHLIGHT_CHARS
}

/// The texts in a list, put together.
pub open spec fn concatenated(parts: Seq<Seq<char>>) -> Seq<char>
    decreases parts.len(),
{
    if parts.len() == 0 {
        seq![]
    } else {
        concatenated(parts.drop_last()) + parts.last()
    }
}

/// The syntaxes that texts can be written in.
#[verifier::external_type_specification]
#[verifier::external_body]
pub struct ExSyntaxSet(syntect::parsing::SyntaxSet);

/// One syntax.
#[verifier::external_type_specification]
#[verifier::external_body]
pub struct ExSyntaxReference(syntect::parsing::SyntaxReference);

/// The colors of the parts of a text.
#[verifier::external_type_specification]
#[verifier::external_body]
pub struct ExTheme(syntect::highlighting::Theme);

/// A highlighter, which is given a text line by line.
#[verifier::external_type_specification]
#[verifier::external_body]
pub struct ExHighlightLines<'a>(syntect::easy::HighlightLines<'a>);

/// Whether a set is that of the bundled syntaxes.
pub uninterp spec fn is_bundled(set: syntect::parsing::SyntaxSet) -> bool;

/// The bundled theme with a name.
pub uninterp spec fn bundled_theme(key: Seq<char>) -> syntect::highlighting::Theme;

/// The syntax for files with an extension.
pub uninterp spec fn syntax_for(
    set: syntect::parsing::SyntaxSet,
    ext: Seq<char>,
) -> Option<syntect::parsing::SyntaxReference>;

/// The syntax of plain text, if the set has one.
pub uninterp spec fn plain_syntax(
    set: syntect::parsing::SyntaxSet,
) -> Option<syntect::parsing::SyntaxReference>;

/// A highlighter at the start of a text.
pub uninterp spec fn fresh_highlighter(
    syntax: syntect::parsing::SyntaxReference,
    theme: syntect::highlighting::Theme,
) -> syntect::easy::HighlightLines<'static>;

/// The colored parts of the next line, if it can be parsed.
pub uninterp spec fn line_runs(
    highlighter: syntect::easy::HighlightLines<'_>,
    set: syntect::parsing::SyntaxSet,
    line: Seq<char>,
) -> Option<Seq<TextRunView>>;

/// A highlighter after the next line.
pub uninterp spec fn after_line(
    highlighter: syntect::easy::HighlightLines<'_>,
    set: syntect::parsing::SyntaxSet,
    line: Seq<char>,
) -> syntect::easy::HighlightLines<'static>;

/// `SyntaxSet::find_syntax_by_extension` is a fixed function of the set and the extension.
pub assume_specification<'a>[ syntect::parsing::SyntaxSet::find_syntax_by_extension ](
    set: &'a syntect::parsing::SyntaxSet,
    extension: &str,
) -> (r: Option<&'a syntect::parsing::SyntaxReference>)
    ensures
        match r {
            Some(syntax) => syntax_for(*set, extension@) == Some(*syntax),
            None => syntax_for(*set, extension@) is None,
        },
;

/// `SyntaxSet::find_syntax_plain_text` gives the plain-text syntax of a set that has one.
pub assume_specification[ syntect::parsing::SyntaxSet::find_syntax_plain_text ](
    set: &syntect::parsing::SyntaxSet,
) -> (r: &syntect::parsing::SyntaxReference)
    requires
        plain_syntax(*set) is Some,
    ensures
        plain_syntax(*set) == Some(*r),
;

/// A set gives a syntax for some extension, or for plain text.
pub open spec fn has_syntax(
    set: syntect::parsing::SyntaxSet,
    syntax: syntect::parsing::SyntaxReference,
) -> bool {
    plain_syntax(set) == Some(syntax) || exists|ext: Seq<char>| #[trigger]
        syntax_for(set, ext) == Some(syntax)
}

/// `HighlightLines::new` makes a highlighter that is fixed by the syntax and the theme. The syntax
/// has to be a bundled one, which has a context to start in.
pub assume_specification<'a>[ syntect::easy::HighlightLines::<'a>::new ](
    syntax: &syntect::parsing::SyntaxReference,
    theme: &'a syntect::highlighting::Theme,
) -> (r: syntect::easy::HighlightLines<'a>)
    requires
        exists|set: syntect::parsing::SyntaxSet|
            is_bundled(set) && #[trigger] has_syntax(set, *syntax),
    ensures
        r == fresh_highlighter(*syntax, *theme),
;

/// A highlighter after some lines.
pub open spec fn after_lines(
    highlighter: syntect::easy::HighlightLines<'static>,
    set: syntect::parsing::SyntaxSet,
    lines: Seq<Seq<char>>,
) -> syntect::easy::HighlightLines<'static>
    decreases lines.len(),
{
    if lines.len() == 0 {
        highlighter
    } else {
        after_line(after_lines(highlighter, set, lines.drop_last()), set, lines.last())
    }
}

/// A highlighter for a syntax of the set that was given some lines.
pub open spec fn is_highlighter_of(
    highlighter: syntect::easy::HighlightLines<'_>,
    set: syntect::parsing::SyntaxSet,
    syntax: syntect::parsing::SyntaxReference,
    theme: syntect::highlighting::Theme,
    lines: Seq<Seq<char>>,
) -> bool {
    &&& has_syntax(set, syntax)
    &&& highlighter == after_lines(fresh_highlighter(syntax, theme), set, lines)
}

/// `HighlightLines::highlight_line` colors the next line of a text. Its result and the state that
/// it leaves behind are fixed by the highlighter, the set and the line. That the parts of a line
/// make up the line is not said: after a scope that cannot be restored the rest of the line is
/// left out. The set has to be that of the bundled syntaxes, whose patterns are taken to compile,
/// and the highlighter one for a syntax of the set. The lines given so far, this one among them,
/// must not make too long a text: a syntax can put a piece of an earlier line into a pattern, and
/// one of hundreds of kilobytes would not compile.
#[verifier::external_body]
fn highlight_line(
    highlighter: &mut syntect::easy::HighlightLines<'_>,
    set: &syntect::parsing::SyntaxSet,
    line: &str,
) -> (r: Option<Vec<TextRun>>)
    requires
        is_bundled(*set),
        exists|
            syntax: syntect::parsing::SyntaxReference,
            theme: syntect::highlighting::Theme,
            lines: Seq<Seq<char>>,
        |
            is_highlighter_of(*old(highlighter), *set, syntax, theme, lines) && !is_too_long(
                concatenated(lines.push(line@)),
            ),
    ensures
        match r {
            Some(runs) => line_runs(*old(highlighter), *set, line@) == Some(run_views(runs@)),
            None => line_runs(*old(highlighter), *set, line@) is None,
        },
        *final(highlighter) == after_line(*old(highlighter), *set, line@),
{
    let parts = highlighter.highlight_line(line, set).ok()?;
    let run = |(style, part): (syntect::highlighting::Style, &str)| TextRun {
        content: part.to_string(),
        color: Some(Rgb { r: style.foreground.r, g: style.foreground.g, b: style.foreground.b }),
    };
    Some(parts.into_iter().map(run).collect())
}

/// `SyntaxSet::load_defaults_newlines` gives the bundled syntaxes, plain text among them.
pub assume_specification[ syntect::parsing::SyntaxSet::load_defaults_newlines ]() -> (r:
    syntect::parsing::SyntaxSet)
    ensures
        is_bundled(r),
        plain_syntax(r) is Some,
;

/// The names of the bundled themes.
pub open spec fn names_theme(key: Seq<char>) -> bool {
    ||| key == "base16-ocean.dark"@
    ||| key == "base16-eighties.dark"@
    ||| key == "base16-mocha.dark"@
    ||| key == "base16-ocean.light"@
    ||| key == "InspiredGitHub"@
    ||| key == "Solarized (dark)"@
    ||| key == "Solarized (light)"@
}

/// `ThemeSet::load_defaults` holds a theme for each of the names that it documents, and the theme
/// is fixed by the name.
#[verifier::external_body]
fn theme_named(key: &str) -> (r: syntect::highlighting::Theme)
    requires
        names_theme(key@),
    ensures
        r == bundled_theme(key@),
{
    syntect::highlighting::ThemeSet::load_defaults().themes[key].clone()
}

/// A text in one run without colors.
pub open spec fn uncolored(content: Seq<char>) -> Seq<TextRunView> {
    seq![TextRunView { content, color: None }]
}

/// The colors that the runs of a line get; a line that cannot be parsed gets none.
pub open spec fn runs_of_line(line: Seq<char>, parts: Option<Seq<TextRunView>>) -> Seq<
    TextRunView,
> {
    match parts {
        Some(runs) => runs,
        None => uncolored(line),
    }
}

/// The runs of a text, from the parts of its lines.
pub open spec fn assembled(lines: Seq<Seq<char>>, parts: Seq<Option<Seq<TextRunView>>>) -> Seq<
    TextRunView,
>
    decreases lines.len(),
{
    if lines.len() == 0 {
        seq![]
    } else {
        assembled(lines.drop_last(), parts) + runs_of_line(lines.last(), parts[lines.len() - 1])
    }
}

/// The value of the parts of a line.
pub open spec fn parts_view(parts: Option<Vec<TextRun>>) -> Option<Seq<TextRunView>> {
    match parts {
        Some(runs) => Some(run_views(runs@)),
        None => None,
    }
}

/// The values of the parts of some lines.
pub open spec fn parts_views(parts: Seq<Option<Vec<TextRun>>>) -> Seq<Option<Seq<TextRunView>>> {
    parts.map_values(|p: Option<Vec<TextRun>>| parts_view(p))
}

/// The runs of a text, from the parts of its lines.
pub fn assemble(lines: &Vec<String>, parts: &Vec<Option<Vec<TextRun>>>) -> (r: Vec<TextRun>)
    requires
        lines@.len() == parts@.len(),
    ensures
        run_views(r@) == assembled(text::texts(lines@), parts_views(parts@)),
{
    let ghost texts = text::texts(lines@);
    let ghost views = parts_views(parts@);
    let mut out: Vec<TextRun> = Vec::new();
    let mut i: usize = 0;
    assert(texts.take(0) =~= Seq::<Seq<char>>::empty());
    assert(run_views(out@) =~= Seq::<TextRunView>::empty());
    while i < lines.len()
        invariant
            i <= lines@.len(),
            lines@.len() == parts@.len(),
            texts == text::texts(lines@),
            views == parts_views(parts@),
            run_views(out@) == assembled(texts.take(i as int), views),
        decreases lines@.len() - i,
    {
        let ghost before = run_views(out@);
        assert(texts.take(i + 1).drop_last() =~= texts.take(i as int));
        assert(texts.take(i + 1).last() == lines@[i as int]@);
        assert(views[i as int] == parts_view(parts@[i as int]));
        match &parts[i] {
            Some(runs) => {
                let mut copy: Vec<TextRun> = runs.clone();
                assert(run_views(copy@) =~= run_views(runs@));
                let ghost front = out@;
                let ghost back = copy@;
                out.append(&mut copy);
                assert(out@ == front + back);
                assert(run_views(out@) =~= before + run_views(back));
            },
            None => {
                out.push(TextRun { content: lines[i].clone(), color: None });
                assert(run_views(out@) =~= before + seq![
                    TextRunView { content: lines@[i as int]@, color: None },
                ]);
            },
        }
        i += 1;
    }
    assert(texts.take(i as int) =~= texts);
    out
}

/// The lines of a text with their endings: each but the last ends with a newline, and put together
/// they are the text.
pub open spec fn lines_with_endings(s: Seq<char>) -> Seq<Seq<char>>
    decreases s.len(),
{
    match s.index_of_first('\n') {
        Some(k) => if 0 <= k < s.len() {
            seq![s.take(k + 1)] + lines_with_endings(s.skip(k + 1))
        } else {
            seq![]
        },
        None => if s.len() == 0 {
            seq![]
        } else {
            seq![s]
        },
    }
}

/// The lines of a text with their endings.
pub fn split_lines(content: &str) -> (r: Vec<String>)
    ensures
        text::texts(r@) == lines_with_endings(content@),
{
    let mut out: Vec<String> = Vec::new();
    let len: usize = content.unicode_len();
    let mut start: usize = 0;
    let mut at: usize = 0;
    assert(content@.skip(0) =~= content@);
    assert(text::texts(out@) + lines_with_endings(content@.skip(0)) =~= lines_with_endings(
        content@,
    ));
    for c in it: content.chars()
        invariant
            it.seq() == content@,
            len == content@.len(),
            at == it.index(),
            start <= at,
            forall|j: int| start <= j < at ==> content@[j] != '\n',
            text::texts(out@) + lines_with_endings(content@.skip(start as int))
                == lines_with_endings(content@),
    {
        at += 1;
        if c == '\n' {
            let ghost rest = content@.skip(start as int);
            let line: &str = content.substring_char(start, at);
            proof {
                let k = at - 1 - start;
                assert(rest[k] == '\n');
                assert(forall|j: int| 0 <= j < k ==> rest[j] != '\n');
                rest.index_of_first_ensures('\n');
                assert(rest.index_of_first('\n') == Some(k as int));
                assert(rest.skip(k + 1) =~= content@.skip(at as int));
                assert(rest.take(k + 1) =~= line@);
            }
            let ghost before = text::texts(out@);
            out.push(line.to_string());
            assert(text::texts(out@) =~= before.push(line@));
            assert(before.push(line@) + lines_with_endings(content@.skip(at as int)) =~= before + (
            seq![line@] + lines_with_endings(content@.skip(at as int))));
            start = at;
        }
    }
    let ghost rest = content@.skip(start as int);
    proof {
        rest.index_of_first_ensures('\n');
        assert(forall|j: int| 0 <= j < rest.len() ==> rest[j] != '\n');
    }
    if start < len {
        let line: &str = content.substring_char(start, len);
        assert(line@ =~= rest);
        let ghost before = text::texts(out@);
        out.push(line.to_string());
        assert(text::texts(out@) =~= before + seq![rest]);
    } else {
        assert(text::texts(out@) =~= text::texts(out@) + lines_with_endings(rest));
    }
    out
}

proof fn lemma_concatenated_first(parts: Seq<Seq<char>>)
    requires
        parts.len() > 0,
    ensures
        concatenated(parts) == parts[0] + concatenated(parts.drop_first()),
    decreases parts.len(),
{
    if parts.len() == 1 {
        assert(parts.drop_last() =~= Seq::<Seq<char>>::empty());
        assert(parts.drop_first() =~= Seq::<Seq<char>>::empty());
        assert(concatenated(parts) =~= parts[0] + concatenated(parts.drop_first()));
    } else {
        lemma_concatenated_first(parts.drop_last());
        assert(parts.drop_last().drop_first() =~= parts.drop_first().drop_last());
        assert(concatenated(parts) =~= parts[0] + concatenated(parts.drop_first()));
    }
}

/// The lines of a text with their endings, put together, are the text.
pub proof fn lines_make_the_text(s: Seq<char>)
    ensures
        concatenated(lines_with_endings(s)) == s,
    decreases s.len(),
{
    s.index_of_first_ensures('\n');
    let lines = lines_with_endings(s);
    match s.index_of_first('\n') {
        Some(k) => {
            let rest = s.skip(k + 1);
            lines_make_the_text(rest);
            lemma_concatenated_first(lines);
            assert(lines.drop_first() =~= lines_with_endings(rest));
            assert(s =~= s.take(k + 1) + rest);
        },
        None => {
            reveal_with_fuel(concatenated, 2);
            assert(concatenated(lines) =~= s);
        },
    }
}

/// The text of two lists of runs is the text of the one and the text of the other.
proof fn lemma_runs_text_concat(a: Seq<TextRunView>, b: Seq<TextRunView>)
    ensures
        runs_text(a + b) == runs_text(a) + runs_text(b),
    decreases b.len(),
{
    if b.len() == 0 {
        assert(a + b =~= a);
        assert(runs_text(a) + runs_text(b) =~= runs_text(a));
    } else {
        lemma_runs_text_concat(a, b.drop_last());
        assert((a + b).drop_last() =~= a + b.drop_last());
        assert(runs_text(a + b) =~= runs_text(a) + runs_text(b));
    }
}

/// The text of one run is the text in it.
proof fn lemma_single_run(content: Seq<char>)
    ensures
        runs_text(uncolored(content)) == content,
{
    reveal_with_fuel(runs_text, 2);
    assert(runs_text(uncolored(content)) =~= content);
}

/// Where the parts of each line make the line, the runs of a text make the text.
pub proof fn runs_make_the_text(
    lines: Seq<Seq<char>>,
    parts: Seq<Option<Seq<TextRunView>>>,
)
    requires
        lines.len() <= parts.len(),
        forall|i: int|
            0 <= i < lines.len() && (#[trigger] parts[i]) is Some ==> runs_text(parts[i]->0)
                == lines[i],
    ensures
        runs_text(assembled(lines, parts)) == concatenated(lines),
    decreases lines.len(),
{
    if lines.len() > 0 {
        let front = lines.drop_last();
        runs_make_the_text(front, parts);
        let last = runs_of_line(lines.last(), parts[lines.len() - 1]);
        assert(runs_text(last) =~= lines.last()) by {
            if parts[lines.len() - 1] is None {
                lemma_single_run(lines.last());
            }
        }
        lemma_runs_text_concat(assembled(front, parts), last);
    }
}

/// The parts of the lines of a text.
pub open spec fn parts_of_lines(
    start: syntect::easy::HighlightLines<'static>,
    set: syntect::parsing::SyntaxSet,
    lines: Seq<Seq<char>>,
) -> Seq<Option<Seq<TextRunView>>> {
    Seq::new(lines.len(), |i: int| line_runs(after_lines(start, set, lines.take(i)), set, lines[i]))
}

/// The syntax of a file: the one for its extension, or plain text.
pub open spec fn chosen_syntax(
    set: syntect::parsing::SyntaxSet,
    ext: Seq<char>,
) -> syntect::parsing::SyntaxReference {
    match syntax_for(set, ext) {
        Some(syntax) => syntax,
        None => plain_syntax(set)->0,
    }
}

/// The colored text of a file.
pub open spec fn colored(
    content: Seq<char>,
    ext: Seq<char>,
    set: syntect::parsing::SyntaxSet,
    theme: syntect::highlighting::Theme,
) -> Seq<TextRunView> {
    let lines = lines_with_endings(content);
    assembled(
        lines,
        parts_of_lines(fresh_highlighter(chosen_syntax(set, ext), theme), set, lines),
    )
}

/// The syntaxes and the colors of the editor.
pub struct CodeColors {
    set: syntect::parsing::SyntaxSet,
    theme: syntect::highlighting::Theme,
}

impl CodeColors {
    pub closed spec fn syntaxes(self) -> syntect::parsing::SyntaxSet {
        self.set
    }

    pub closed spec fn colors(self) -> syntect::highlighting::Theme {
        self.theme
    }

    /// The syntaxes are the bundled ones, and there is one for every file.
    #[verifier::type_invariant]
    spec fn is_usable(self) -> bool {
        is_bundled(self.set) && plain_syntax(self.set) is Some
    }

    /// The bundled syntaxes and the dark theme.
    pub fn load() -> (r: CodeColors)
        ensures
            is_bundled(r.syntaxes()),
            plain_syntax(r.syntaxes()) is Some,
            r.colors() == bundled_theme("base16-ocean.dark"@),
    {
        CodeColors {
            set: syntect::parsing::SyntaxSet::load_defaults_newlines(),
            theme: theme_named("base16-ocean.dark"),
        }
    }
}

/// The number of bytes of two texts together is that of the one and that of the other.
proof fn lemma_encoded_len(a: Seq<char>, b: Seq<char>)
    ensures
        vstd::utf8::encode_utf8(a + b).len() == vstd::utf8::encode_utf8(a).len()
            + vstd::utf8::encode_utf8(b).len(),
    decreases a.len(),
{
    if a.len() == 0 {
        assert(a + b =~= b);
    } else {
        lemma_encoded_len(a.drop_first(), b);
        assert((a + b).drop_first() =~= a.drop_first() + b);
        assert((a + b)[0] == a[0]);
    }
}

/// The text of some lines at the front of a list is no longer than the text of all.
proof fn lemma_front_is_no_longer(lines: Seq<Seq<char>>, n: int)
    requires
        0 <= n <= lines.len(),
    ensures
        vstd::utf8::encode_utf8(concatenated(lines.take(n))).len() <= vstd::utf8::encode_utf8(
            concatenated(lines),
        ).len(),
    decreases lines.len() - n,
{
    if n < lines.len() {
        lemma_front_is_no_longer(lines, n + 1);
        assert(lines.take(n + 1).drop_last() =~= lines.take(n));
        assert(lines.take(n + 1).last() == lines[n]);
        lemma_encoded_len(concatenated(lines.take(n)), lines[n]);
    } else {
        assert(lines.take(n) =~= lines);
    }
}

/// The colored text of a file with an extension. The file must not be too long.
pub fn highlight_code(content: &str, ext: &str, colors: &CodeColors) -> (r: Vec<TextRun>)
    requires
        !is_too_long(content@),
    ensures
        run_views(r@) == colored(content@, ext@, colors.syntaxes(), colors.colors()),
{
    proof {
        use_type_invariant(colors);
    }
    let set: &syntect::parsing::SyntaxSet = &colors.set;
    let syntax: &syntect::parsing::SyntaxReference = match set.find_syntax_by_extension(ext) {
        Some(syntax) => syntax,
        None => set.find_syntax_plain_text(),
    };
    assert(is_bundled(*set) && has_syntax(*set, *syntax));
    let mut highlighter: syntect::easy::HighlightLines = syntect::easy::HighlightLines::new(
        syntax,
        &colors.theme,
    );
    let ghost start = fresh_highlighter(*syntax, colors.theme);
    let lines: Vec<String> = split_lines(content);
    let ghost texts = lines_with_endings(content@);
    let ghost expected = parts_of_lines(start, *set, texts);
    let mut parts: Vec<Option<Vec<TextRun>>> = Vec::new();
    let mut i: usize = 0;
    assert(texts.take(0) =~= Seq::<Seq<char>>::empty());
    while i < lines.len()
        invariant
            i <= lines@.len(),
            parts@.len() == i,
            texts == text::texts(lines@),
            texts == lines_with_endings(content@),
            start == fresh_highlighter(*syntax, colors.theme),
            expected == parts_of_lines(start, *set, texts),
            !is_too_long(content@),
            is_bundled(*set),
            has_syntax(*set, *syntax),
            highlighter == after_lines(start, *set, texts.take(i as int)),
            forall|k: int| 0 <= k < i ==> parts_view(#[trigger] parts@[k]) == expected[k],
        decreases lines@.len() - i,
    {
        let ghost seen = texts.take(i as int);
        assert(texts.take(i + 1).drop_last() =~= seen);
        assert(texts[i as int] == lines@[i as int]@);
        assert(is_highlighter_of(highlighter, *set, *syntax, colors.theme, seen));
        proof {
            assert(seen.push(lines@[i as int]@) =~= texts.take(i + 1));
            lemma_front_is_no_longer(texts, i + 1);
            lines_make_the_text(content@);
        }
        let runs: Option<Vec<TextRun>> = highlight_line(&mut highlighter, set, lines[i].as_str());
        parts.push(runs);
        i += 1;
    }
    assert(parts_views(parts@) =~= expected);
    assemble(&lines, &parts)
}

/// A text in one run without colors.
pub fn plain_text_layout_job(content: &str) -> (r: Vec<TextRun>)
    ensures
        run_views(r@) == uncolored(content@),
{
    let mut runs: Vec<TextRun> = Vec::new();
    runs.push(TextRun { content: content.to_string(), color: None });
    assert(run_views(runs@) =~= uncolored(content@));
    runs
}

/// The text of a file as the editor shows it: with colors, or plain where it is too long.
pub open spec fn shown(
    content: Seq<char>,
    ext: Seq<char>,
    set: syntect::parsing::SyntaxSet,
    theme: syntect::highlighting::Theme,
) -> Seq<TextRunView> {
    if is_too_long(content) {
        uncolored(content)
    } else {
        colored(content, ext, set, theme)
    }
}

/// The text of a file as the editor shows it: with colors, or plain where it is too long.
pub fn layout_file(content: &str, ext: &str, colors: &CodeColors) -> (r: Vec<TextRun>)
    ensures
        run_views(r@) == shown(content@, ext@, colors.syntaxes(), colors.colors()),
{
    if content.as_bytes().len() > MAX_HIGHLIGHT_CHARS {
        plain_text_layout_job(content)
    } else {
        highlight_code(content, ext, colors)
    }
}

/// The lines of a text end where its newlines are: each line holds no newline but at its end, and
/// each but the last ends with one.
pub proof fn lines_end_with_their_newline(s: Seq<char>, i: int, j: int)
    requires
        0 <= i < lines_with_endings(s).len(),
        0 <= j < lines_with_endings(s)[i].len(),
    ensures
        j < lines_with_endings(s)[i].len() - 1 ==> lines_with_endings(s)[i][j] != '\n',
        i < lines_with_endings(s).len() - 1 ==> lines_with_endings(s)[i].last() == '\n',
    decreases s.len(),
{
    s.index_of_first_ensures('\n');
    if let Some(k) = s.index_of_first('\n') {
        let rest = s.skip(k + 1);
        assert(lines_with_endings(s) =~= seq![s.take(k + 1)] + lines_with_endings(rest));
        if i > 0 {
            assert(lines_with_endings(s)[i] == lines_with_endings(rest)[i - 1]);
            lines_end_with_their_newline(rest, i - 1, j);
        }
    }
}

/// The runs of a text keep the runs of its lines, in order: one more line adds its colored parts, or
/// itself without a color where it could not be parsed.
pub proof fn lines_keep_their_runs(
    lines: Seq<Seq<char>>,
    parts: Seq<Option<Seq<TextRunView>>>,
    line: Seq<char>,
)
    requires
        parts.len() == lines.len() + 1,
    ensures
        ({
            let before = assembled(lines, parts);
            let after = assembled(lines.push(line), parts);
            &&& before.len() <= after.len()
            &&& after.take(before.len() as int) == before
            &&& parts.last() matches Some(runs) ==> after.skip(before.len() as int) == runs
            &&& parts.last() is None ==> after.len() == before.len() + 1 && after.last().content
                == line && after.last().color is None
        }),
{
    let before = assembled(lines, parts);
    let after = assembled(lines.push(line), parts);
    assert(lines.push(line).drop_last() =~= lines);
    assert(after.take(before.len() as int) =~= before);
    assert(after.skip(before.len() as int) =~= runs_of_line(line, parts.last()));
}

/// A file of more than twenty thousand bytes is shown whole and without colors; any other in the
/// colors of the syntax for its extension, or of plain text where there is none.
pub proof fn long_files_are_shown_plain(
    content: Seq<char>,
    ext: Seq<char>,
    set: syntect::parsing::SyntaxSet,
    theme: syntect::highlighting::Theme,
)
    ensures
        ({
            let runs = shown(content, ext, set, theme);
            let bytes = vstd::utf8::encode_utf8(content).len();
            &&& bytes > 20_000 ==> runs.len() == 1 && runs[0].content == content
                && runs[0].color is None
            &&& bytes <= 20_000 ==> runs == colored(content, ext, set, theme)
            &&& syntax_for(set, ext) is Some ==> chosen_syntax(set, ext) == syntax_for(set, ext)->0
            &&& syntax_for(set, ext) is None ==> chosen_syntax(set, ext) == plain_syntax(set)->0
        }),
{
}

} // verus!
