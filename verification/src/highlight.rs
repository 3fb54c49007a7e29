//! Build-time syntax highlighting of fenced code blocks through `syntect`
//! (inline color spans, no client-side script).

use vstd::prelude::*;
use syntect::highlighting::{Theme, ThemeSet};
use syntect::parsing::{SyntaxReference, SyntaxSet};
use crate::md::{strip_pre_attributes, strip_pre_attributes_spec, syntax_alias, syntax_alias_spec};

verus! {

#[verifier::external_type_specification]
#[verifier::external_body]
pub struct ExSyntaxSet(SyntaxSet);

#[verifier::external_type_specification]
#[verifier::external_body]
pub struct ExThemeSet(ThemeSet);

#[verifier::external_type_specification]
#[verifier::external_body]
pub struct ExSyntaxReference(SyntaxReference);

#[verifier::external_type_specification]
#[verifier::external_body]
pub struct ExTheme(Theme);

#[verifier::external_type_specification]
#[verifier::external_body]
pub struct ExSyntectError(syntect::Error);

/// `SyntaxSet::load_defaults_newlines`: syntect's bundled grammars. Nothing
/// is stated of the set, which Verus cannot look into.
#[verifier::external_body]
fn load_syntax_set() -> SyntaxSet {
    SyntaxSet::load_defaults_newlines()
}

/// `ThemeSet::load_defaults`: syntect's bundled themes. Nothing is stated of
/// the set.
#[verifier::external_body]
fn load_theme_set() -> ThemeSet {
    ThemeSet::load_defaults()
}

/// syntect's default grammars and themes, loaded once and used for every
/// code block of a run. Only [`Highlighter::new`] makes one, so every
/// highlighter holds the bundled sets.
pub struct Highlighter {
    syntaxes: SyntaxSet,
    themes: ThemeSet,
}

/// A grammar of the bundled set, with the token it was found by.
pub struct Grammar<'a> {
    syntax: &'a SyntaxReference,
    token: String,
}

impl<'a> View for Grammar<'a> {
    type V = Seq<char>;

    /// The token the grammar was found by.
    closed spec fn view(&self) -> Seq<char> {
        self.token@
    }
}

/// A theme of the bundled set, with its name.
pub struct ThemeChoice<'a> {
    theme: &'a Theme,
    name: String,
}

impl<'a> View for ThemeChoice<'a> {
    type V = Seq<char>;

    /// The theme's name.
    closed spec fn view(&self) -> Seq<char> {
        self.name@
    }
}

/// Whether `SyntaxSet::find_syntax_by_token` finds a grammar for `token`
/// in syntect's bundled set (`load_defaults_newlines`).
pub uninterp spec fn default_grammar_known(token: Seq<char>) -> bool;

/// `SyntaxSet::find_syntax_by_token` on the highlighter's bundled grammars:
/// the grammar for a fence token (by file extension, then by name), kept
/// with the token. Whether one is found is a function of the token alone,
/// since every highlighter holds the same bundled set; which tokens are
/// known is left to the name.
#[verifier::external_body]
fn find_syntax_by_token<'a>(hl: &'a Highlighter, token: &str) -> (r: Option<Grammar<'a>>)
    ensures
        r is Some <==> default_grammar_known(token@),
        r matches Some(g) ==> g@ == token@,
{
    hl.syntaxes.find_syntax_by_token(token).map(|s| Grammar { syntax: s, token: token.to_string() })
}

/// Whether syntect's bundled theme set (`ThemeSet::load_defaults`) holds a
/// theme of that name.
pub uninterp spec fn default_theme_known(name: Seq<char>) -> bool;

/// The theme of that name in the highlighter's bundled `ThemeSet::themes`
/// (a `BTreeMap::get`), kept with its name. Which names the set holds is
/// left to the name.
#[verifier::external_body]
fn theme_named<'a>(hl: &'a Highlighter, name: &str) -> (r: Option<ThemeChoice<'a>>)
    ensures
        r is Some <==> default_theme_known(name@),
        r matches Some(t) ==> t@ == name@,
{
    hl.themes.themes.get(name).map(|t| ThemeChoice { theme: t, name: name.to_string() })
}

/// What `syntect::html::highlighted_html_for_string` gives for `code` with
/// the bundled grammar found by `token` and the bundled theme `theme`: the
/// `<pre ...>` snippet with inline-styled spans, or `None` when it fails.
pub uninterp spec fn highlighted_html(code: Seq<char>, token: Seq<char>, theme: Seq<char>) -> Option<Seq<char>>;

/// `syntect::html::highlighted_html_for_string` with the highlighter's
/// bundled grammars: a function of the code, the grammar (named by the
/// token it was found by) and the theme (named by its name), all taken
/// from the bundled sets. The HTML it produces is left to the name.
#[verifier::external_body]
fn highlighted_html_for_string(code: &str, hl: &Highlighter, g: &Grammar, t: &ThemeChoice) -> (r: Result<
    String,
    syntect::Error,
>)
    ensures
        match r {
            Ok(h) => highlighted_html(code@, g@, t@) == Some(h@),
            Err(_) => highlighted_html(code@, g@, t@) is None,
        },
{
    syntect::html::highlighted_html_for_string(code, &hl.syntaxes, g.syntax, t.theme)
}

/// The theme code blocks are colored with.
pub const THEME: &'static str = "base16-ocean.dark";

/// The token whose grammar highlights a fence token `lang`: `lang` itself
/// when the bundled set knows it, else its alias when the set knows that.
pub open spec fn grammar_token(lang: Seq<char>) -> Option<Seq<char>> {
    if default_grammar_known(lang) {
        Some(lang)
    } else {
        match syntax_alias_spec(lang) {
            Some(a) => if default_grammar_known(a) {
                Some(a)
            } else {
                None
            },
            None => None,
        }
    }
}

/// The highlighted HTML of `code` for the fence token `lang`: syntect's
/// snippet for the grammar of `lang` (or of its alias) in [`THEME`], with
/// the `<pre>` tag's own style dropped; `None` when `lang` is empty, no
/// grammar is found, the theme is missing, or highlighting fails.
pub open spec fn highlight_spec(code: Seq<char>, lang: Seq<char>) -> Option<Seq<char>> {
    if lang.len() == 0 {
        None
    } else {
        match grammar_token(lang) {
            None => None,
            Some(tok) => if !default_theme_known(THEME@) {
                None
            } else {
                match highlighted_html(code, tok, THEME@) {
                    Some(h) => strip_pre_attributes_spec(h),
                    None => None,
                }
            },
        }
    }
}

impl Highlighter {
    /// Loads syntect's default grammars and themes.
    pub fn new() -> Self {
        Highlighter { syntaxes: load_syntax_set(), themes: load_theme_set() }
    }

    /// Syntax-highlights `code` for the fence token `lang`: the highlighted
    /// `<pre>...</pre>` HTML, with the `<pre>` tag's own style dropped, or
    /// `None` when `lang` is empty, neither it nor its alias is a known
    /// grammar, or highlighting fails.
    pub fn highlight(&self, code: &str, lang: &str) -> (r: Option<String>)
        ensures
            match r {
                Some(h) => highlight_spec(code@, lang@) == Some(h@),
                None => highlight_spec(code@, lang@) is None,
            },
    {
        if lang.is_empty() {
            return None;
        }
        let grammar = match find_syntax_by_token(self, lang) {
            Some(g) => g,
            None => match syntax_alias(lang) {
                Some(alias) => match find_syntax_by_token(self, alias) {
                    Some(g) => g,
                    None => return None,
                },
                None => return None,
            },
        };
        let theme = match theme_named(self, THEME) {
            Some(t) => t,
            None => return None,
        };
        let rendered = match highlighted_html_for_string(code, self, &grammar, &theme) {
            Ok(h) => h,
            Err(_) => return None,
        };
        strip_pre_attributes(rendered.as_str())
    }
}

} // verus!
