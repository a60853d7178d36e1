//! Syntax highlighting of code blocks, from the `syntect` crate: its default
//! syntaxes and themes, looked up by name, and a highlighter that colours
//! one line at a time, each line in the parse state the earlier ones left.

use syntect::easy::HighlightLines;
use syntect::highlighting::{Theme, ThemeSet};
use syntect::parsing::{SyntaxReference, SyntaxSet};
use vstd::prelude::*;

verus! {

#[verifier::external_type_specification]
#[verifier::external_body]
pub struct ExSyntaxSet(syntect::parsing::SyntaxSet);

#[verifier::external_type_specification]
#[verifier::external_body]
pub struct ExThemeSet(syntect::highlighting::ThemeSet);

#[verifier::external_type_specification]
#[verifier::external_body]
pub struct ExSyntaxReference(syntect::parsing::SyntaxReference);

#[verifier::external_type_specification]
#[verifier::external_body]
pub struct ExTheme(syntect::highlighting::Theme);

#[verifier::external_type_specification]
#[verifier::external_body]
pub struct ExHighlightLines<'a>(syntect::easy::HighlightLines<'a>);

/// One highlighted region of a line: its foreground colour (red, green,
/// blue), its font style flags (bold 1, underline 2, italic 4) and its text.
pub type Region = (u8, u8, u8, u8, String);

pub open spec fn region_view(r: Region) -> (u8, u8, u8, u8, Seq<char>) {
    (r.0, r.1, r.2, r.3, r.4@)
}

pub open spec fn regions_view(r: Result<Vec<Region>, String>) -> Result<Seq<(u8, u8, u8, u8, Seq<char>)>, Seq<char>> {
    match r {
        Ok(v) => Ok(v@.map_values(|x: Region| region_view(x))),
        Err(e) => Err(e@),
    }
}

/// `SyntaxSet::load_defaults_newlines`: the syntaxes compiled into syntect.
#[verifier::external_body]
fn default_syntaxes() -> SyntaxSet {
    SyntaxSet::load_defaults_newlines()
}

/// `ThemeSet::load_defaults`: the themes compiled into syntect.
#[verifier::external_body]
fn default_themes() -> ThemeSet {
    ThemeSet::load_defaults()
}

/// syntect's default syntaxes and themes. Only `load` makes one, so every
/// value holds exactly the defaults.
pub struct SyntaxAssets {
    syntaxes: SyntaxSet,
    themes: ThemeSet,
}

impl SyntaxAssets {
    /// Loads the default syntaxes and themes.
    pub fn load() -> (a: Self) {
        SyntaxAssets { syntaxes: default_syntaxes(), themes: default_themes() }
    }
}

/// Whether the default syntaxes hold one for the token (a language name or
/// file extension).
pub uninterp spec fn syntax_known(token: Seq<char>) -> bool;

/// `SyntaxSet::find_syntax_by_token` on the default syntaxes.
#[verifier::external_body]
fn syntax_for<'a>(assets: &'a SyntaxAssets, token: &str) -> (r: Option<&'a SyntaxReference>)
    ensures
        r is Some <==> syntax_known(token@),
{
    assets.syntaxes.find_syntax_by_token(token)
}

/// Whether the default themes hold one of that name.
pub uninterp spec fn theme_known(name: Seq<char>) -> bool;

/// The default theme of a name: `ThemeSet::themes`, a `BTreeMap`, looked up.
#[verifier::external_body]
fn theme_for<'a>(assets: &'a SyntaxAssets, name: &str) -> (r: Option<&'a Theme>)
    ensures
        r is Some <==> theme_known(name@),
{
    assets.themes.themes.get(name)
}

/// `HighlightLines::new`: a highlighter in a syntax and theme, at the start
/// of a text.
#[verifier::external_body]
fn start_lines<'a>(syntax: &'a SyntaxReference, theme: &'a Theme) -> HighlightLines<'a> {
    HighlightLines::new(syntax, theme)
}

/// The regions `HighlightLines::highlight_line` gives for `line` in the
/// syntax named by `language` and the default theme `theme`, after the
/// `earlier` lines were highlighted in turn, or the message of its error.
pub uninterp spec fn line_regions_of(
    language: Seq<char>,
    theme: Seq<char>,
    earlier: Seq<Seq<char>>,
    line: Seq<char>,
) -> Result<Seq<(u8, u8, u8, u8, Seq<char>)>, Seq<char>>;

/// Highlighting of one code text, line after line. Only `start` makes one,
/// from the syntax and theme its `language` and `theme` name, and only
/// `highlight_line` moves it on, recording each line in `earlier`.
pub struct CodeHighlighter<'a> {
    lines: HighlightLines<'a>,
    language: Ghost<Seq<char>>,
    theme: Ghost<Seq<char>>,
    earlier: Ghost<Seq<Seq<char>>>,
}

impl<'a> CodeHighlighter<'a> {
    pub closed spec fn language(&self) -> Seq<char> {
        self.language@
    }

    pub closed spec fn theme(&self) -> Seq<char> {
        self.theme@
    }

    /// The lines highlighted so far, in order.
    pub closed spec fn earlier(&self) -> Seq<Seq<char>> {
        self.earlier@
    }

    /// Starts highlighting in the syntax named by `language` with the
    /// default theme `theme`; `None` when either is unknown.
    pub fn start(assets: &'a SyntaxAssets, language: &str, theme: &str) -> (r: Option<Self>)
        ensures
            r is Some <==> syntax_known(language@) && theme_known(theme@),
            r matches Some(h) ==> h.language() == language@ && h.theme() == theme@ && h.earlier()
                == Seq::<Seq<char>>::empty(),
    {
        match syntax_for(assets, language) {
            None => None,
            Some(syntax) => match theme_for(assets, theme) {
                None => None,
                Some(found) => Some(
                    CodeHighlighter {
                        lines: start_lines(syntax, found),
                        language: Ghost(language@),
                        theme: Ghost(theme@),
                        earlier: Ghost(Seq::empty()),
                    },
                ),
            },
        }
    }
}

/// `HighlightLines::highlight_line` on one line, with the default syntaxes:
/// each region's colour, font flags and text, or the error's message. Its
/// result depends on the lines highlighted before, which the highlighter
/// records.
#[verifier::external_body]
pub(crate) fn highlight_line(h: &mut CodeHighlighter, line: &str, assets: &SyntaxAssets) -> (r: Result<Vec<Region>, String>)
    ensures
        regions_view(r) == line_regions_of(old(h).language(), old(h).theme(), old(h).earlier(), line@),
        final(h).language() == old(h).language(),
        final(h).theme() == old(h).theme(),
        final(h).earlier() == old(h).earlier().push(line@),
{
    let r = h.lines.highlight_line(line, &assets.syntaxes);
    h.earlier = Ghost(h.earlier@.push(line@));
    r.map(|v| v.into_iter().map(|(s, t)| (s.foreground.r, s.foreground.g, s.foreground.b, s.font_style.bits(), t.to_owned())).collect())
        .map_err(|e| e.to_string())
}

} // verus!
