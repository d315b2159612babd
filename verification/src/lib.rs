//! Verified core of a bilingual dictionary lookup library.
//!
//! The library turns the semi-structured HTML result page of a web
//! dictionary into a typed list of word senses.  Each sense pairs a
//! [`LanguageDefinition`] for the queried language with one for the target
//! language.  The HTML itself is navigated by an outside markup library
//! behind a small trusted boundary; everything the library decides —
//! how rows are grouped into senses, how the text fields are cleaned and
//! assembled, and when a page is rejected — is verified.

use vstd::prelude::*;

pub mod extract;
pub mod markup;
pub mod parse;
pub mod rows;
pub mod text;

pub use crate::extract::parse_entry;
pub use crate::parse::parse;

verus! {

use crate::text::chars_eq_str;
use crate::text::lower_chars;
use crate::text::lowered;
use crate::text::str_chars;

/// Languages a dictionary query can name.
#[derive(Debug, PartialEq, Eq, Structural, Clone, Copy)]
pub enum Language {
    /// English
    EN,
    /// Spanish
    ES,
}

/// The language a name or code denotes: the English or Spanish names and
/// the two-letter codes are recognized, ASCII case-insensitively.
pub open spec fn spec_language_of(s: Seq<char>) -> Result<Language, ()> {
    let l = lowered(s);
    if l == "english"@ || l == "en"@ {
        Result::Ok(Language::EN)
    } else if l == "spanish"@ || l == "es"@ {
        Result::Ok(Language::ES)
    } else {
        Result::Err(())
    }
}

impl Language {
    /// Parses a language name or two-letter code, ASCII case-insensitively.
    pub fn parse(s: &str) -> (r: Result<Language, ()>)
        ensures
            r == spec_language_of(s@),
    {
        let cs = str_chars(s);
        let l = lower_chars(&cs);
        if chars_eq_str(&l, "english") || chars_eq_str(&l, "en") {
            Ok(Language::EN)
        } else if chars_eq_str(&l, "spanish") || chars_eq_str(&l, "es") {
            Ok(Language::ES)
        } else {
            Err(())
        }
    }
}

impl core::str::FromStr for Language {
    type Err = ();

    fn from_str(s: &str) -> Result<Language, ()> {
        Language::parse(s)
    }
}

/// The site path a lookup fetches, for a query word and an optional
/// language pair; an omitted language defaults to the Spanish-to-English
/// pair.
pub open spec fn spec_request_path(
    word: Seq<char>,
    from: Option<Seq<char>>,
    to: Option<Seq<char>>,
) -> Seq<char> {
    let f = match from {
        Option::Some(v) => v,
        Option::None => "es"@,
    };
    let t = match to {
        Option::Some(v) => v,
        Option::None => "en"@,
    };
    "https://www.wordreference.com/"@ + f + "/"@ + t + "/translation.asp?spen="@ + word
}

/// Builds the page address a lookup fetches.  The language pair affects
/// only which page is fetched, never how it is parsed.
pub fn request_path(word: &str, from: Option<String>, to: Option<String>) -> (r: String)
    ensures
        r@ == spec_request_path(word@, from.deep_view(), to.deep_view()),
{
    let mut r = String::from_str("https://www.wordreference.com/");
    match &from {
        Some(f) => r.append(f.as_str()),
        None => r.append("es"),
    }
    r.append("/");
    match &to {
        Some(t) => r.append(t.as_str()),
        None => r.append("en"),
    }
    r.append("/translation.asp?spen=");
    r.append(word);
    r
}

/// One language's side of a dictionary sense.
#[derive(Debug, Clone, PartialEq)]
pub struct LanguageDefinition {
    /// The word in this language.
    pub word: String,
    /// Part of speech; empty when the page gives no qualifier.
    pub part: String,
    /// The word's definition or gloss.
    pub definition: String,
    /// Example sentences; empty when the page gives none.
    pub example: Vec<String>,
}

/// One dictionary sense, directional from the queried language to the
/// target language.
#[derive(Debug, Clone, PartialEq)]
pub struct Definition {
    /// The queried-language side.
    pub from: LanguageDefinition,
    /// The target-language side.
    pub to: LanguageDefinition,
}

/// A successful lookup: the senses in the order the page lists them.
#[derive(Debug, Clone, PartialEq)]
pub struct Response {
    /// All senses found on the page, most common first.
    pub definitions: Vec<Definition>,
}

/// Why a lookup failed.
#[derive(Debug, PartialEq, Eq, Structural, Clone, Copy)]
pub enum ParseError {
    /// The page reports that the word has no entry.
    NotFound,
    /// The expected table structure is absent, or a mandatory field of
    /// some sense could not be extracted.
    MalformedPage,
}

/// Mathematical value of a [`LanguageDefinition`].
pub ghost struct LanguageDefinitionView {
    pub word: Seq<char>,
    pub part: Seq<char>,
    pub definition: Seq<char>,
    pub example: Seq<Seq<char>>,
}

/// Mathematical value of a [`Definition`].
pub ghost struct DefinitionView {
    pub from: LanguageDefinitionView,
    pub to: LanguageDefinitionView,
}

/// Mathematical value of a [`Response`].
pub ghost struct ResponseView {
    pub definitions: Seq<DefinitionView>,
}

impl View for LanguageDefinition {
    type V = LanguageDefinitionView;

    open spec fn view(&self) -> LanguageDefinitionView {
        LanguageDefinitionView {
            word: self.word@,
            part: self.part@,
            definition: self.definition@,
            example: self.example.deep_view(),
        }
    }
}

impl View for Definition {
    type V = DefinitionView;

    open spec fn view(&self) -> DefinitionView {
        DefinitionView { from: self.from@, to: self.to@ }
    }
}

impl View for Response {
    type V = ResponseView;

    open spec fn view(&self) -> ResponseView {
        ResponseView { definitions: self.definitions@.map_values(|d: Definition| d@) }
    }
}

} // verus!
