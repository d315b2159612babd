//! The lookup pipeline: validate the page, group the result-table rows
//! into entries, extract one sense per group, and assemble the response.
//!
//! The whole pipeline is a function of the raw page text alone, written
//! down by [`spec_parse`]; [`parse`] is proved to return exactly that
//! value.  A request either succeeds with at least one sense or fails as a
//! whole: a page that reports no entry fails with `NotFound`, and a page
//! without the expected table structure — or with any single group missing
//! a mandatory field — fails with `MalformedPage`, never with a truncated
//! response.

use vstd::prelude::*;

use crate::Definition;
use crate::DefinitionView;
use crate::ParseError;
use crate::Response;
use crate::ResponseView;
use crate::extract::lemma_extract_word_nonempty;
use crate::extract::parse_entry;
use crate::extract::spec_extract;
use crate::markup::no_entry_marker;
use crate::markup::page_reports_no_entry;
use crate::markup::select_table_rows;
use crate::markup::table_rows_of;
use crate::rows::Row;
use crate::rows::RowView;
use crate::rows::group_rows;
use crate::rows::group_tables;
use crate::rows::lemma_group_tables_push;
use crate::rows::rows_from_raw;
use crate::rows::rows_of_raw_table;

verus! {

/// The result tables the pipeline reads, limited to the first two, each as
/// a sequence of marker-established rows.
pub open spec fn page_tables(page: Seq<char>) -> Seq<Seq<RowView>> {
    let raw = table_rows_of(page);
    let limited = if raw.len() <= 2 {
        raw
    } else {
        raw.take(2)
    };
    limited.map_values(|t: Seq<(Option<Seq<char>>, Seq<char>)>| rows_of_raw_table(t))
}

/// The entry groups of the page: each table grouped on its own, appended
/// in table order.
pub open spec fn page_groups(page: Seq<char>) -> Seq<Seq<RowView>> {
    group_tables(page_tables(page))
}

/// The markup of a group's rows, in order.
pub open spec fn group_htmls(g: Seq<RowView>) -> Seq<Seq<char>> {
    g.map_values(|r: RowView| r.html)
}

/// The sense one group yields, or nothing when a mandatory field is
/// missing from it.
pub open spec fn group_sense(g: Seq<RowView>) -> Option<DefinitionView> {
    spec_extract(group_htmls(g))
}

/// What a lookup returns for a page: `NotFound` when the page carries the
/// no-entry marker; `MalformedPage` when no result table is present, when
/// the tables yield no group, or when any group misses a mandatory field;
/// otherwise every group's sense, in page order.
pub open spec fn spec_parse(page: Seq<char>) -> Result<ResponseView, ParseError> {
    if no_entry_marker(page) {
        Result::Err(ParseError::NotFound)
    } else if table_rows_of(page).len() == 0 {
        Result::Err(ParseError::MalformedPage)
    } else if page_groups(page).len() == 0 {
        Result::Err(ParseError::MalformedPage)
    } else if exists|i: int|
        0 <= i < page_groups(page).len() && group_sense(#[trigger] page_groups(page)[i]) is None {
        Result::Err(ParseError::MalformedPage)
    } else {
        Result::Ok(
            ResponseView {
                definitions: page_groups(page).map_values(
                    |g: Seq<RowView>| group_sense(g)->Some_0,
                ),
            },
        )
    }
}

/// The first `n` collected senses match the first `n` groups.
pub open spec fn senses_match(gdv: Seq<Seq<RowView>>, defs: Seq<Definition>, n: int) -> bool {
    forall|j: int|
        #![trigger gdv[j]]
        0 <= j < n ==> group_sense(gdv[j]) is Some && defs[j]@ == group_sense(gdv[j])->Some_0
}

/// The markup of a group's rows, as owned strings.
fn htmls_of(rows: &Vec<Row>) -> (r: Vec<String>)
    ensures
        r.deep_view() == group_htmls(rows.deep_view()),
{
    let mut r: Vec<String> = Vec::new();
    for i in 0..rows.len()
        invariant
            r@.len() == i,
            rows.deep_view().len() == rows@.len(),
            forall|j: int| 0 <= j < i ==> (#[trigger] r@[j])@ == rows.deep_view()[j].html,
    {
        r.push(rows[i].html.clone());
        proof {
            assert(rows.deep_view()[i as int] == rows@[i as int]@);
        }
    }
    proof {
        assert forall|k: int| 0 <= k < r.deep_view().len() implies r.deep_view()[k] == group_htmls(
            rows.deep_view(),
        )[k] by {
            assert(r.deep_view()[k] == r@[k]@);
        }
        assert(r.deep_view() =~= group_htmls(rows.deep_view()));
    }
    r
}

/// Parses one dictionary result page into the senses it lists.
///
/// Returns `Err(NotFound)` exactly when the page carries the no-entry
/// marker; `Err(MalformedPage)` exactly when the expected table structure
/// is absent or some entry group misses a mandatory field; and otherwise
/// `Ok` with one sense per entry group, in page order.
#[verifier::loop_isolation(false)]
pub fn parse(page: &str) -> (r: Result<Response, ParseError>)
    ensures
        match r {
            Ok(resp) => spec_parse(page@) == Result::<ResponseView, ParseError>::Ok(resp@),
            Err(e) => spec_parse(page@) == Result::<ResponseView, ParseError>::Err(e),
        },
{
    if page_reports_no_entry(page) {
        return Err(ParseError::NotFound);
    }
    let raw_tables = select_table_rows(page);
    let ghost rawdv = raw_tables.deep_view();
    proof {
        assert(rawdv.len() == raw_tables@.len());
    }
    if raw_tables.len() == 0 {
        return Err(ParseError::MalformedPage);
    }
    let ghost ptables = page_tables(page@);
    let tcount = if raw_tables.len() < 2 {
        raw_tables.len()
    } else {
        2
    };
    proof {
        assert(ptables.len() == tcount);
    }
    let mut groups: Vec<Vec<Row>> = Vec::new();
    proof {
        assert(groups.deep_view() =~= Seq::<Seq<RowView>>::empty());
        assert(ptables.take(0) =~= Seq::<Seq<RowView>>::empty());
    }
    for t in 0..tcount
        invariant
            rawdv == raw_tables.deep_view(),
            rawdv.len() == raw_tables@.len(),
            ptables == page_tables(page@),
            tcount == ptables.len(),
            tcount <= raw_tables@.len(),
            groups.deep_view() == group_tables(ptables.take(t as int)),
    {
        let rows = rows_from_raw(&raw_tables[t]);
        proof {
            assert(raw_tables.deep_view()[t as int] == raw_tables@[t as int].deep_view());
            if rawdv.len() > 2 {
                assert(rawdv.take(2)[t as int] == rawdv[t as int]);
            }
            assert(ptables[t as int] == rows_of_raw_table(rawdv[t as int]));
        }
        let mut gs = group_rows(&rows);
        let ghost old_groups = groups.deep_view();
        let ghost gsdv = gs.deep_view();
        groups.append(&mut gs);
        proof {
            assert(groups.deep_view() =~= old_groups + gsdv);
            assert(ptables.take(t as int).push(ptables[t as int]) =~= ptables.take(t as int + 1));
            lemma_group_tables_push(ptables.take(t as int), ptables[t as int]);
        }
    }
    proof {
        assert(ptables.take(tcount as int) =~= ptables);
    }
    let ghost gdv = groups.deep_view();
    if groups.len() == 0 {
        proof {
            assert(page_groups(page@).len() == 0);
        }
        return Err(ParseError::MalformedPage);
    }
    let mut defs: Vec<Definition> = Vec::new();
    for i in 0..groups.len()
        invariant
            gdv == groups.deep_view(),
            gdv == page_groups(page@),
            gdv.len() == groups@.len(),
            defs@.len() == i,
            groups@.len() > 0,
            !no_entry_marker(page@),
            table_rows_of(page@).len() > 0,
            senses_match(gdv, defs@, i as int),
    {
        let entry = htmls_of(&groups[i]);
        let sl = entry.as_slice();
        proof {
            assert(groups.deep_view()[i as int] == groups@[i as int].deep_view());
            assert(sl.deep_view() =~= entry.deep_view());
        }
        match parse_entry(sl) {
            Ok(d) => {
                proof {
                    assert(group_htmls(gdv[i as int]) == sl.deep_view());
                    assert(group_sense(gdv[i as int]) == Option::Some(d@));
                }
                let ghost old_defs = defs@;
                defs.push(d);
                proof {
                    assert forall|j: int|
                        #![trigger gdv[j]]
                        0 <= j < i + 1 implies group_sense(gdv[j]) is Some && defs@[j]@
                        == group_sense(gdv[j])->Some_0 by {
                        if j < i {
                            assert(defs@[j] == old_defs[j]);
                        } else {
                            assert(defs@[j] == d);
                        }
                    }
                    assert(senses_match(gdv, defs@, i + 1));
                }
            },
            Err(_) => {
                proof {
                    assert(group_sense(page_groups(page@)[i as int]) is None);
                }
                return Err(ParseError::MalformedPage);
            },
        }
    }
    let resp = Response { definitions: defs };
    proof {
        assert forall|k: int| 0 <= k < page_groups(page@).len() implies group_sense(
            #[trigger] page_groups(page@)[k],
        ) is Some by {
            assert(senses_match(gdv, defs@, gdv.len() as int));
            assert(group_sense(gdv[k]) is Some && defs@[k]@ == group_sense(gdv[k])->Some_0);
        }
        let want = page_groups(page@).map_values(|g: Seq<RowView>| group_sense(g)->Some_0);
        assert forall|j: int| 0 <= j < resp@.definitions.len() implies resp@.definitions[j]
            == want[j] by {
            assert(resp@.definitions[j] == defs@[j]@);
        }
        assert(resp@.definitions =~= want);
    }
    Ok(resp)
}

/// Over the result tables of a page, the grouper yields exactly the total
/// number of marker toggles plus the number of tables with at least one
/// row, and every row appears in exactly one group, in document order.
pub proof fn lemma_page_groups_cover(page: Seq<char>)
    ensures
        page_groups(page).len() == crate::rows::total_toggles(page_tables(page))
            + crate::rows::tables_with_rows(page_tables(page)),
        crate::text::concat_all(page_groups(page)) == crate::text::concat_all(page_tables(page)),
{
    crate::rows::lemma_group_tables_counts(page_tables(page));
}

/// Idempotence: the pipeline's outcome is a function of the raw text
/// alone, so running it twice on the same text yields structurally equal
/// results.
pub proof fn lemma_parse_deterministic(
    page: Seq<char>,
    r1: Result<ResponseView, ParseError>,
    r2: Result<ResponseView, ParseError>,
)
    requires
        r1 == spec_parse(page),
        r2 == spec_parse(page),
    ensures
        r1 == r2,
{
}

/// A missing mandatory field in any single entry group fails the whole
/// request with `MalformedPage`: a truncated response is never returned.
pub proof fn lemma_mandatory_field_failure(page: Seq<char>, i: int)
    requires
        !no_entry_marker(page),
        0 <= i < page_groups(page).len(),
        group_sense(page_groups(page)[i]) is None,
    ensures
        spec_parse(page) == Result::<ResponseView, ParseError>::Err(ParseError::MalformedPage),
{
}

/// A successful lookup always carries at least one sense: a zero-entry
/// success is never surfaced.
pub proof fn lemma_response_nonempty(page: Seq<char>, rv: ResponseView)
    requires
        spec_parse(page) == Result::<ResponseView, ParseError>::Ok(rv),
    ensures
        rv.definitions.len() > 0,
{
}

/// Every sense of a successful lookup has a non-empty source word.
pub proof fn lemma_response_words_nonempty(page: Seq<char>, rv: ResponseView)
    requires
        spec_parse(page) == Result::<ResponseView, ParseError>::Ok(rv),
    ensures
        forall|i: int|
            0 <= i < rv.definitions.len() ==> (#[trigger] rv.definitions[i]).from.word.len() > 0,
{
    assert forall|i: int|
        0 <= i < rv.definitions.len() implies (#[trigger] rv.definitions[i]).from.word.len()
        > 0 by {
        let g = page_groups(page)[i];
        assert(group_sense(g) is Some);
        lemma_extract_word_nonempty(group_htmls(g), group_sense(g)->Some_0);
    }
}

} // verus!
