//! Field extraction from one entry's row group.
//!
//! A row group is reconstituted as a standalone table fragment — rows
//! concatenated, line-break tags and special glyphs normalized — and the
//! seven textual fields of a sense are read from it with structural
//! queries.  The source word and the source definition are mandatory:
//! a group that yields neither is an extraction failure.  Part of speech
//! and examples default to empty, which the page frequently omits.

use vstd::prelude::*;

use crate::Definition;
use crate::DefinitionView;
use crate::LanguageDefinition;
use crate::LanguageDefinitionView;
use crate::ParseError;
use crate::markup::first_texts_of;
use crate::markup::select_first_texts;
use crate::markup::select_within_first;
use crate::markup::within_first_texts_of;
use crate::text::chars_to_string;
use crate::text::concat_all;
use crate::text::join_comma;
use crate::text::join_with;
use crate::text::lemma_concat_all_push;
use crate::text::normalize_chars;
use crate::text::normalize_markup;
use crate::text::str_chars;
use crate::text::strip_paren_chars;
use crate::text::strip_parens;
use crate::text::trim_chars;
use crate::text::trimmed;

verus! {

/// The usable texts of a query result: each element's first text node,
/// trimmed, with missing text nodes and whitespace-only texts dropped.
pub open spec fn cleaned(raw: Seq<Option<Seq<char>>>) -> Seq<Seq<char>>
    decreases raw.len(),
{
    if raw.len() == 0 {
        Seq::empty()
    } else {
        let rest = cleaned(raw.skip(1));
        match raw[0] {
            Option::Some(t) => if trimmed(t).len() > 0 {
                seq![trimmed(t)] + rest
            } else {
                rest
            },
            Option::None => rest,
        }
    }
}

/// Every text kept by the cleanup is non-empty.
pub proof fn lemma_cleaned_nonempty(raw: Seq<Option<Seq<char>>>)
    ensures
        forall|i: int| 0 <= i < cleaned(raw).len() ==> (#[trigger] cleaned(raw)[i]).len() > 0,
    decreases raw.len(),
{
    if raw.len() == 0 {
    } else {
        lemma_cleaned_nonempty(raw.skip(1));
        let rest = cleaned(raw.skip(1));
        assert forall|i: int| 0 <= i < cleaned(raw).len() implies (#[trigger] cleaned(
            raw,
        )[i]).len() > 0 by {
            match raw[0] {
                Option::Some(t) => {
                    if trimmed(t).len() > 0 {
                        assert(cleaned(raw) == seq![trimmed(t)] + rest);
                        if i == 0 {
                            assert(cleaned(raw)[0] == trimmed(t));
                        } else {
                            assert(cleaned(raw)[i] == rest[i - 1]);
                        }
                    } else {
                        assert(cleaned(raw) == rest);
                    }
                },
                Option::None => {
                    assert(cleaned(raw) == rest);
                },
            }
        }
    }
}

/// The standalone fragment an entry's rows are re-parsed as: the rows
/// concatenated, markup-normalized, and wrapped in a bare table.
pub open spec fn spec_fragment(entry: Seq<Seq<char>>) -> Seq<char> {
    "<table><tbody>"@ + normalize_markup(concat_all(entry)) + "</tbody></table>"@
}

/// The source-language word of a fragment: the first usable
/// strongly-emphasized text, or nothing.  This field is mandatory.
pub open spec fn spec_from_word(frag: Seq<char>) -> Option<Seq<char>> {
    let ws = cleaned(first_texts_of(frag, "strong"@));
    if ws.len() > 0 {
        Option::Some(ws[0])
    } else {
        Option::None
    }
}

/// The source-language part of speech: the first usable qualifier text
/// inside the source word cell, or empty.
pub open spec fn spec_from_part(frag: Seq<char>) -> Seq<char> {
    match within_first_texts_of(frag, "td.FrWrd"@, "em"@) {
        Option::Some(raw) => {
            let es = cleaned(raw);
            if es.len() > 0 {
                es[0]
            } else {
                Seq::empty()
            }
        },
        Option::None => Seq::empty(),
    }
}

/// The source-language definition: the first text of the fragment's second
/// cell, parentheses removed and the ends trimmed, or nothing.  This field
/// is mandatory.
pub open spec fn spec_from_definition(frag: Seq<char>) -> Option<Seq<char>> {
    let ts = first_texts_of(frag, "td"@);
    if ts.len() < 2 {
        Option::None
    } else {
        match ts[1] {
            Option::Some(t) => Option::Some(trimmed(strip_parens(t))),
            Option::None => Option::None,
        }
    }
}

/// The target-language word list: every usable target word cell text,
/// joined by a comma and a space.  The target gloss is this same join.
pub open spec fn spec_to_words(frag: Seq<char>) -> Seq<char> {
    join_with(cleaned(first_texts_of(frag, "td.ToWrd"@)), ", "@)
}

/// The target-language part of speech: the usable qualifier texts inside
/// the first target word cell, joined by a comma and a space.
pub open spec fn spec_to_part(frag: Seq<char>) -> Seq<char> {
    match within_first_texts_of(frag, "td.ToWrd"@, "em"@) {
        Option::Some(raw) => join_with(cleaned(raw), ", "@),
        Option::None => Seq::empty(),
    }
}

/// The example sentences held by the first example cell matching `cell`:
/// every usable span text, in order; empty when the cell is absent.
pub open spec fn spec_examples(frag: Seq<char>, cell: Seq<char>) -> Seq<Seq<char>> {
    match within_first_texts_of(frag, cell, "span"@) {
        Option::Some(raw) => cleaned(raw),
        Option::None => Seq::empty(),
    }
}

/// The sense extracted from one entry's row group, or nothing when a
/// mandatory field — source word or source definition — is missing.
pub open spec fn spec_extract(entry: Seq<Seq<char>>) -> Option<DefinitionView> {
    let frag = spec_fragment(entry);
    match (spec_from_word(frag), spec_from_definition(frag)) {
        (Option::Some(w), Option::Some(d)) => Option::Some(
            DefinitionView {
                from: LanguageDefinitionView {
                    word: w,
                    part: spec_from_part(frag),
                    definition: d,
                    example: spec_examples(frag, "td.FrEx"@),
                },
                to: LanguageDefinitionView {
                    word: spec_to_words(frag),
                    part: spec_to_part(frag),
                    definition: spec_to_words(frag),
                    example: spec_examples(frag, "td.ToEx"@),
                },
            },
        ),
        _ => Option::None,
    }
}

/// An extracted sense always carries a non-empty source word.
pub proof fn lemma_extract_word_nonempty(entry: Seq<Seq<char>>, d: DefinitionView)
    requires
        spec_extract(entry) == Option::Some(d),
    ensures
        d.from.word.len() > 0,
{
    lemma_cleaned_nonempty(first_texts_of(spec_fragment(entry), "strong"@));
}

/// The usable texts of one raw query result, as owned strings.
fn cleaned_texts(raw: &Vec<Option<String>>) -> (r: Vec<String>)
    ensures
        r.deep_view() == cleaned(raw.deep_view()),
{
    let ghost dv = raw.deep_view();
    let mut r: Vec<String> = Vec::new();
    proof {
        assert(dv.skip(0) =~= dv);
        assert(r.deep_view() =~= Seq::<Seq<char>>::empty());
        assert(r.deep_view() + cleaned(dv) =~= cleaned(dv));
    }
    for i in 0..raw.len()
        invariant
            dv == raw.deep_view(),
            dv.len() == raw@.len(),
            cleaned(dv) == r.deep_view() + cleaned(dv.skip(i as int)),
    {
        proof {
            let rest = dv.skip(i as int);
            assert(rest[0] == dv[i as int]);
            assert(rest.skip(1) =~= dv.skip(i as int + 1));
        }
        match &raw[i] {
            Some(s) => {
                let cs = str_chars(s.as_str());
                let tc = trim_chars(&cs);
                proof {
                    assert(dv[i as int] == Option::Some(s@));
                }
                if tc.len() > 0 {
                    let ghost old_r = r.deep_view();
                    r.push(chars_to_string(&tc));
                    proof {
                        assert(r.deep_view() =~= old_r.push(trimmed(s@)));
                        assert(old_r.push(trimmed(s@)) + cleaned(dv.skip(i as int + 1)) =~= old_r
                            + (seq![trimmed(s@)] + cleaned(dv.skip(i as int + 1))));
                    }
                }
            },
            None => {
                proof {
                    assert(dv[i as int] is None);
                }
            },
        }
    }
    proof {
        assert(dv.skip(raw@.len() as int) =~= Seq::<Option<Seq<char>>>::empty());
        assert(r.deep_view() + Seq::<Seq<char>>::empty() =~= r.deep_view());
    }
    r
}

/// Reconstitutes one entry's rows as the standalone fragment the fields
/// are read from.
fn build_fragment(entry: &[String]) -> (f: String)
    ensures
        f@ == spec_fragment(entry.deep_view()),
{
    let ghost dv = entry.deep_view();
    let mut joined = String::new();
    proof {
        assert(dv.take(0) =~= Seq::<Seq<char>>::empty());
    }
    let n = entry.len();
    for i in 0..n
        invariant
            dv == entry.deep_view(),
            dv.len() == entry@.len(),
            n == entry@.len(),
            joined@ == concat_all(dv.take(i as int)),
    {
        proof {
            assert(dv.take(i as int).push(dv[i as int]) =~= dv.take(i as int + 1));
            lemma_concat_all_push(dv.take(i as int), dv[i as int]);
            assert(dv[i as int] == entry@[i as int]@);
        }
        joined.append(entry[i].as_str());
    }
    proof {
        assert(dv.take(entry@.len() as int) =~= dv);
    }
    let cs = str_chars(joined.as_str());
    let norm = normalize_chars(&cs);
    let body = chars_to_string(&norm);
    let mut f = String::from_str("<table><tbody>");
    f.append(body.as_str());
    f.append("</tbody></table>");
    f
}

/// Extracts one sense from one entry's row group.
///
/// Fails exactly when the group yields no mandatory field: no usable
/// source word, or no second cell to read the source definition from.
pub fn parse_entry(entry: &[String]) -> (r: Result<Definition, ParseError>)
    ensures
        match r {
            Ok(d) => spec_extract(entry.deep_view()) == Option::Some(d@),
            Err(e) => e == ParseError::MalformedPage && spec_extract(entry.deep_view()) is None,
        },
{
    let frag = build_fragment(entry);
    let ghost fv = spec_fragment(entry.deep_view());

    let strong_raw = select_first_texts(frag.as_str(), "strong");
    let strongs = cleaned_texts(&strong_raw);
    if strongs.len() == 0 {
        return Err(ParseError::MalformedPage);
    }
    let from_word = strongs[0].clone();
    proof {
        assert(from_word@ == strongs.deep_view()[0]);
    }

    let td_raw = select_first_texts(frag.as_str(), "td");
    if td_raw.len() < 2 {
        proof {
            assert(first_texts_of(fv, "td"@).len() < 2);
        }
        return Err(ParseError::MalformedPage);
    }
    let from_definition = match &td_raw[1] {
        Some(t) => {
            let cs = str_chars(t.as_str());
            let sp = strip_paren_chars(&cs);
            let tc = trim_chars(&sp);
            proof {
                assert(td_raw.deep_view()[1] == Option::Some(t@));
            }
            chars_to_string(&tc)
        },
        None => {
            proof {
                assert(td_raw.deep_view()[1] is None);
            }
            return Err(ParseError::MalformedPage);
        },
    };

    let from_part = match select_within_first(frag.as_str(), "td.FrWrd", "em") {
        Some(raw) => {
            let es = cleaned_texts(&raw);
            if es.len() > 0 {
                let p = es[0].clone();
                proof {
                    assert(p@ == es.deep_view()[0]);
                }
                p
            } else {
                String::new()
            }
        },
        None => String::new(),
    };

    let to_raw = select_first_texts(frag.as_str(), "td.ToWrd");
    let to_clean = cleaned_texts(&to_raw);
    let to_words = join_comma(&to_clean);
    let to_definition = to_words.clone();

    let to_part = match select_within_first(frag.as_str(), "td.ToWrd", "em") {
        Some(raw) => {
            let es = cleaned_texts(&raw);
            join_comma(&es)
        },
        None => String::new(),
    };

    let from_example = match select_within_first(frag.as_str(), "td.FrEx", "span") {
        Some(raw) => cleaned_texts(&raw),
        None => Vec::new(),
    };
    let to_example = match select_within_first(frag.as_str(), "td.ToEx", "span") {
        Some(raw) => cleaned_texts(&raw),
        None => Vec::new(),
    };

    let d = Definition {
        from: LanguageDefinition {
            word: from_word,
            part: from_part,
            definition: from_definition,
            example: from_example,
        },
        to: LanguageDefinition {
            word: to_words,
            part: to_part,
            definition: to_definition,
            example: to_example,
        },
    };
    proof {
        assert(d@.from.example =~= spec_examples(fv, "td.FrEx"@));
        assert(d@.to.example =~= spec_examples(fv, "td.ToEx"@));
    }
    Ok(d)
}

} // verus!
