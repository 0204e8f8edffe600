//! Syntax colouring of the editor's buffers: a tree-sitter highlighter
//! reports highlight events over the text, and the style text gives each
//! byte the letter of the highlight in force.
use vstd::prelude::*;
use vstd::string::StringSliceAdditionalSpecFns;
use crate::editor::Language;
use crate::styling::{after_events, apply_highlights, events_fit, HighlightEvent};
use tree_sitter_highlight::{HighlightConfiguration, Highlighter};
use tree_sitter_highlight::HighlightEvent as TsEvent;

verus! {

#[verifier::external_type_specification]
#[verifier::external_body]
pub struct ExHighlightConfiguration(HighlightConfiguration);

/// A highlighter configuration for a language, with the highlight names it
/// recognises (a highlight's index is its position in that list).
pub struct LanguageConfig {
    config: HighlightConfiguration,
    language: Language,
    names: Vec<String>,
}

pub open spec fn texts(v: Seq<String>) -> Seq<Seq<char>> {
    v.map_values(|s: String| s@)
}

impl LanguageConfig {
    pub closed spec fn language(&self) -> Language {
        self.language
    }

    pub closed spec fn names(&self) -> Seq<Seq<char>> {
        texts(self.names@)
    }
}

/// The events that `tree_sitter_highlight::Highlighter::highlight` reports
/// for a text under the configuration of a language recognising the given
/// names; `None` when highlighting fails.
pub uninterp spec fn highlight_events(lang: Language, names: Seq<Seq<char>>, text: Seq<u8>) -> Option<Seq<HighlightEvent>>;

/// Trusted: `HighlightConfiguration::new` with the TOML grammar and the
/// highlight query that `tree_sitter_toml` ships for it, then `configure`
/// with the names (which cannot fail). Both arguments of `new` are
/// constants built into the grammar crate, so its outcome is the same on
/// every run; the contract claims that it succeeds, as the query is the
/// one written for this grammar, and that the configuration is the TOML
/// one for those names.
#[verifier::external_body]
fn toml_config(names: Vec<String>) -> (c: LanguageConfig)
    ensures
        c.language() == Language::Toml,
        c.names() == texts(names@),
{
    let ts = tree_sitter_toml::language();
    let mut config = HighlightConfiguration::new(ts, tree_sitter_toml::HIGHLIGHT_QUERY, "", "")
        .expect("the bundled TOML highlight query");
    config.configure(&names);
    LanguageConfig { config, language: Language::Toml, names }
}

/// Trusted: `HighlightConfiguration::new` with the Markdown block grammar
/// and the block highlight query that `tree_sitter_md` ships for it, then
/// `configure` with the names (which cannot fail). Both arguments of `new`
/// are constants built into the grammar crate, so its outcome is the same
/// on every run; the contract claims that it succeeds, as the query is the
/// one written for this grammar, and that the configuration is the
/// Markdown one for those names.
#[verifier::external_body]
fn markdown_config(names: Vec<String>) -> (c: LanguageConfig)
    ensures
        c.language() == Language::Markdown,
        c.names() == texts(names@),
{
    let md = tree_sitter_md::language();
    let mut config = HighlightConfiguration::new(md, tree_sitter_md::HIGHLIGHT_QUERY_BLOCK, "", "")
        .expect("the bundled Markdown highlight query");
    config.configure(&names);
    LanguageConfig { config, language: Language::Markdown, names }
}

/// Trusted: `Highlighter::highlight` on the bytes of a text, each event
/// taken as it is (a highlight start by its index). The contract names the
/// events `highlight_events`; an error, at the start or on any event, is
/// `None`.
#[verifier::external_body]
fn run_highlighter(c: &LanguageConfig, text: &str) -> (r: Option<Vec<HighlightEvent>>)
    ensures
        r matches Some(v) ==> highlight_events(c.language(), c.names(), text.spec_bytes()) == Some(v@),
        r is None ==> highlight_events(c.language(), c.names(), text.spec_bytes()) is None,
{
    let mut h = Highlighter::new();
    let events = match h.highlight(&c.config, text.as_bytes(), None, |_| None) { Ok(e) => e, Err(_) => return None };
    let mut out = Vec::new();
    for ev in events {
        out.push(match ev {
            Ok(TsEvent::Source { start, end }) => HighlightEvent::Source { start, end },
            Ok(TsEvent::HighlightStart(hl)) => HighlightEvent::Start(hl.0),
            Ok(TsEvent::HighlightEnd) => HighlightEvent::End,
            Err(_) => return None,
        });
    }
    Some(out)
}

/// The highlight names of a language, in the order of its style table.
pub open spec fn style_names_of(lang: Language) -> Seq<Seq<char>> {
    match lang {
        Language::Toml => seq![
            "DEFAULT"@, "property"@, "comment"@, "string"@, "number"@, "operator"@,
            "punctuation"@, "constant.builtin"@,
        ],
        Language::Markdown => seq![
            "DEFAULT"@, "text.title"@, "text.reference"@, "punctuation.special"@,
            "text.literal"@, "punctuation.delimiter"@, "text.uri"@,
        ],
        Language::Rust => Seq::empty(),
    }
}

fn owned(s: &str) -> (r: String)
    ensures
        r@ == s@,
{
    s.to_owned()
}

/// The highlight names of a language.
pub fn style_names(lang: Language) -> (v: Vec<String>)
    ensures
        texts(v@) == style_names_of(lang),
{
    let mut v: Vec<String> = Vec::new();
    match lang {
        Language::Toml => {
            v.push(owned("DEFAULT"));
            v.push(owned("property"));
            v.push(owned("comment"));
            v.push(owned("string"));
            v.push(owned("number"));
            v.push(owned("operator"));
            v.push(owned("punctuation"));
            v.push(owned("constant.builtin"));
        },
        Language::Markdown => {
            v.push(owned("DEFAULT"));
            v.push(owned("text.title"));
            v.push(owned("text.reference"));
            v.push(owned("punctuation.special"));
            v.push(owned("text.literal"));
            v.push(owned("punctuation.delimiter"));
            v.push(owned("text.uri"));
        },
        Language::Rust => {},
    }
    assert(texts(v@) =~= style_names_of(lang));
    v
}

/// The highlighter configuration for a language with its highlight names:
/// TOML and Markdown have one, recognising the names of their style
/// tables; Rust has none.
pub fn language_config(lang: Language) -> (r: Option<LanguageConfig>)
    ensures
        r is None <==> lang == Language::Rust,
        r matches Some(c) ==> c.language() == lang && c.names() == style_names_of(lang),
{
    match lang {
        Language::Toml => Some(toml_config(style_names(lang))),
        Language::Markdown => Some(markdown_config(style_names(lang))),
        Language::Rust => None,
    }
}

fn fits(events: &Vec<HighlightEvent>, n: usize) -> (b: bool)
    ensures
        b == events_fit(events@, n as nat),
{
    let mut k: usize = 0;
    while k < events.len()
        invariant
            k <= events@.len(),
            forall|m: int|
                0 <= m < k ==> match #[trigger] events@[m] {
                    HighlightEvent::Start(s) => s < 62,
                    HighlightEvent::Source { start, end } => start <= end <= n,
                    HighlightEvent::End => true,
                },
        decreases events@.len() - k,
    {
        let ok = match events[k] {
            HighlightEvent::Start(s) => s < 62,
            HighlightEvent::Source { start, end } => start <= end && end <= n,
            HighlightEvent::End => true,
        };
        if !ok {
            return false;
        }
        k = k + 1;
    }
    true
}

/// The style text of a buffer: the highlighter's events applied to a text
/// of as many `'A'` as the buffer has bytes. `None` when highlighting fails
/// or reports a range outside the text.
pub fn highlight_styles(c: &LanguageConfig, text: &str) -> (r: Option<String>)
    ensures
        ({
            let n = text.spec_bytes().len();
            match highlight_events(c.language(), c.names(), text.spec_bytes()) {
                None => r is None,
                Some(ev) => if events_fit(ev, n) {
                    r matches Some(s) && s@ == after_events(ev, n).1
                } else {
                    r is None
                },
            }
        }),
{
    let n = text.as_bytes().len();
    match run_highlighter(c, text) {
        None => None,
        Some(events) => {
            if fits(&events, n) {
                Some(apply_highlights(n, &events))
            } else {
                None
            }
        },
    }
}

} // verus!
