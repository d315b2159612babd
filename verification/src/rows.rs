//! Grouping of result-table rows into entry groups.
//!
//! The source page marks adjacent entries only by alternating a row-class
//! attribute between two values.  The grouper scans the rows of a table in
//! order and starts a new group exactly where the marker value changes
//! relative to the row before; rows whose marker is missing or unrecognized
//! extend the current group.  The scan is an explicit fold carrying the
//! last established marker, the open group, and the finished groups.

use vstd::prelude::*;

use crate::text::concat_all;
use crate::text::lemma_concat_all_add;
use crate::text::str_chars;
use crate::text::chars_eq_str;

verus! {

/// The binary row marker, with a third state for rows that carry no
/// recognizable marker.
#[derive(Debug, PartialEq, Eq, Structural, Clone, Copy)]
pub enum Marker {
    /// The row class names the even polarity.
    Even,
    /// The row class names the odd polarity.
    Odd,
    /// The row class is missing or names neither polarity.
    Unmarked,
}

/// One table row: its marker and its serialized markup.
#[derive(Debug, PartialEq)]
pub struct Row {
    /// The marker derived from the row's class attribute.
    pub marker: Marker,
    /// The row's own markup, used later by the field extractor.
    pub html: String,
}

/// Mathematical value of a [`Row`].
pub ghost struct RowView {
    pub marker: Marker,
    pub html: Seq<char>,
}

impl View for Row {
    type V = RowView;

    open spec fn view(&self) -> RowView {
        RowView { marker: self.marker, html: self.html@ }
    }
}

impl DeepView for Row {
    type V = RowView;

    open spec fn deep_view(&self) -> RowView {
        self@
    }
}

impl Clone for Row {
    fn clone(&self) -> (r: Self)
        ensures
            r == *self,
    {
        Row { marker: self.marker, html: self.html.clone() }
    }
}

/// Whether a row whose marker is `m` starts a new group when the last
/// established marker is `last`: only a change between the two established
/// polarities is a boundary.
pub open spec fn is_boundary(last: Marker, m: Marker) -> bool {
    last != Marker::Unmarked && m != Marker::Unmarked && m != last
}

/// The marker state after a row with marker `m`: an unmarked row leaves the
/// state unchanged.
pub open spec fn advance(last: Marker, m: Marker) -> Marker {
    if m == Marker::Unmarked {
        last
    } else {
        m
    }
}

/// The grouping fold over the remaining rows, carrying the last established
/// marker, the open group, and the finished groups.  At the end the open
/// group, if non-empty, is flushed.
pub open spec fn group_fold(
    rows: Seq<RowView>,
    last: Marker,
    open: Seq<RowView>,
    done: Seq<Seq<RowView>>,
) -> Seq<Seq<RowView>>
    decreases rows.len(),
{
    if rows.len() == 0 {
        if open.len() == 0 {
            done
        } else {
            done.push(open)
        }
    } else {
        let r = rows[0];
        if is_boundary(last, r.marker) && open.len() > 0 {
            group_fold(rows.skip(1), r.marker, seq![r], done.push(open))
        } else {
            group_fold(rows.skip(1), advance(last, r.marker), open.push(r), done)
        }
    }
}

/// The groups of one table's rows, in order.
pub open spec fn group_table(rows: Seq<RowView>) -> Seq<Seq<RowView>> {
    group_fold(rows, Marker::Unmarked, Seq::empty(), Seq::empty())
}

/// The number of marker-toggle boundaries in `rows` when the last
/// established marker is `last`.
pub open spec fn toggle_count(rows: Seq<RowView>, last: Marker) -> nat
    decreases rows.len(),
{
    if rows.len() == 0 {
        0
    } else {
        (if is_boundary(last, rows[0].marker) {
            1nat
        } else {
            0nat
        }) + toggle_count(rows.skip(1), advance(last, rows[0].marker))
    }
}

/// Whether all rows of a group that carry a marker carry the same one.
pub open spec fn coherent(g: Seq<RowView>) -> bool {
    forall|i: int, j: int|
        0 <= i < g.len() && 0 <= j < g.len() && g[i].marker != Marker::Unmarked
            && g[j].marker != Marker::Unmarked ==> g[i].marker == g[j].marker
}

/// The groups of a list of tables, each table grouped on its own, appended
/// in table order.  A table never continues the previous table's last group.
pub open spec fn group_tables(tables: Seq<Seq<RowView>>) -> Seq<Seq<RowView>>
    decreases tables.len(),
{
    if tables.len() == 0 {
        Seq::empty()
    } else {
        group_table(tables[0]) + group_tables(tables.skip(1))
    }
}

/// The total number of marker-toggle boundaries over a list of tables.
pub open spec fn total_toggles(tables: Seq<Seq<RowView>>) -> nat
    decreases tables.len(),
{
    if tables.len() == 0 {
        0
    } else {
        toggle_count(tables[0], Marker::Unmarked) + total_toggles(tables.skip(1))
    }
}

/// The number of tables that have at least one row.
pub open spec fn tables_with_rows(tables: Seq<Seq<RowView>>) -> nat
    decreases tables.len(),
{
    if tables.len() == 0 {
        0
    } else {
        (if tables[0].len() > 0 {
            1nat
        } else {
            0nat
        }) + tables_with_rows(tables.skip(1))
    }
}

proof fn lemma_group_fold_flatten(
    rows: Seq<RowView>,
    last: Marker,
    open: Seq<RowView>,
    done: Seq<Seq<RowView>>,
)
    ensures
        concat_all(group_fold(rows, last, open, done)) == concat_all(done) + open + rows,
    decreases rows.len(),
{
    if rows.len() == 0 {
        if open.len() == 0 {
            assert(concat_all(done) + open + rows =~= concat_all(done));
        } else {
            crate::text::lemma_concat_all_push(done, open);
            assert(concat_all(done) + open + rows =~= concat_all(done.push(open)));
        }
    } else {
        let r = rows[0];
        assert(seq![r] + rows.skip(1) =~= rows);
        if is_boundary(last, r.marker) && open.len() > 0 {
            lemma_group_fold_flatten(rows.skip(1), r.marker, seq![r], done.push(open));
            crate::text::lemma_concat_all_push(done, open);
            assert(concat_all(done.push(open)) + seq![r] + rows.skip(1) =~= concat_all(done)
                + open + rows);
        } else {
            lemma_group_fold_flatten(rows.skip(1), advance(last, r.marker), open.push(r), done);
            assert(concat_all(done) + open.push(r) + rows.skip(1) =~= concat_all(done) + open
                + rows);
        }
    }
}

/// Every input row appears in exactly one output group, in the original
/// order: the groups of a table concatenate back to its rows.
pub proof fn lemma_group_table_partition(rows: Seq<RowView>)
    ensures
        concat_all(group_table(rows)) == rows,
{
    lemma_group_fold_flatten(rows, Marker::Unmarked, Seq::empty(), Seq::empty());
    assert(concat_all(Seq::<Seq<RowView>>::empty()) + Seq::<RowView>::empty() + rows =~= rows);
}

proof fn lemma_group_fold_count(
    rows: Seq<RowView>,
    last: Marker,
    open: Seq<RowView>,
    done: Seq<Seq<RowView>>,
)
    requires
        open.len() == 0 ==> last == Marker::Unmarked,
    ensures
        group_fold(rows, last, open, done).len() == done.len() + toggle_count(rows, last) + (
        if open.len() > 0 || rows.len() > 0 {
            1nat
        } else {
            0nat
        }),
    decreases rows.len(),
{
    if rows.len() == 0 {
    } else {
        let r = rows[0];
        if is_boundary(last, r.marker) && open.len() > 0 {
            lemma_group_fold_count(rows.skip(1), r.marker, seq![r], done.push(open));
        } else {
            assert(!is_boundary(last, r.marker));
            lemma_group_fold_count(rows.skip(1), advance(last, r.marker), open.push(r), done);
        }
    }
}

/// A table's rows yield exactly one group more than they have marker
/// toggles, and a table without rows yields no group.
pub proof fn lemma_group_table_count(rows: Seq<RowView>)
    ensures
        group_table(rows).len() == toggle_count(rows, Marker::Unmarked) + (
        if rows.len() > 0 {
            1nat
        } else {
            0nat
        }),
{
    lemma_group_fold_count(rows, Marker::Unmarked, Seq::empty(), Seq::empty());
}

/// Over any list of tables, the grouper yields exactly the total number of
/// marker toggles plus the number of tables that have at least one row, and
/// every row of every table appears in exactly one group, in order.
pub proof fn lemma_group_tables_counts(tables: Seq<Seq<RowView>>)
    ensures
        group_tables(tables).len() == total_toggles(tables) + tables_with_rows(tables),
        concat_all(group_tables(tables)) == concat_all(tables),
    decreases tables.len(),
{
    if tables.len() == 0 {
    } else {
        lemma_group_tables_counts(tables.skip(1));
        lemma_group_table_count(tables[0]);
        lemma_group_table_partition(tables[0]);
        lemma_concat_all_add(group_table(tables[0]), group_tables(tables.skip(1)));
        assert(concat_all(tables) == tables[0] + concat_all(tables.skip(1)));
    }
}

proof fn lemma_group_fold_wf(
    rows: Seq<RowView>,
    last: Marker,
    open: Seq<RowView>,
    done: Seq<Seq<RowView>>,
)
    requires
        forall|i: int|
            0 <= i < open.len() ==> (#[trigger] open[i].marker == Marker::Unmarked || open[i].marker
                == last),
        forall|k: int|
            0 <= k < done.len() ==> coherent(#[trigger] done[k]) && done[k].len() > 0,
    ensures
        forall|k: int|
            0 <= k < group_fold(rows, last, open, done).len() ==> coherent(
                #[trigger] group_fold(rows, last, open, done)[k],
            ) && group_fold(rows, last, open, done)[k].len() > 0,
    decreases rows.len(),
{
    if rows.len() == 0 {
        if open.len() > 0 {
            assert(coherent(open));
            let result = done.push(open);
            assert forall|k: int| 0 <= k < result.len() implies coherent(#[trigger] result[k])
                && result[k].len() > 0 by {
                if k < done.len() {
                    assert(result[k] == done[k]);
                } else {
                    assert(result[k] == open);
                }
            }
        }
    } else {
        let r = rows[0];
        if is_boundary(last, r.marker) && open.len() > 0 {
            assert(coherent(open));
            let nd = done.push(open);
            assert forall|k: int| 0 <= k < nd.len() implies coherent(#[trigger] nd[k])
                && nd[k].len() > 0 by {
                if k < done.len() {
                    assert(nd[k] == done[k]);
                } else {
                    assert(nd[k] == open);
                }
            }
            assert(seq![r][0] == r);
            lemma_group_fold_wf(rows.skip(1), r.marker, seq![r], nd);
            assert(group_fold(rows, last, open, done) == group_fold(
                rows.skip(1),
                r.marker,
                seq![r],
                nd,
            ));
        } else {
            let nl = advance(last, r.marker);
            let no = open.push(r);
            assert forall|i: int| 0 <= i < no.len() implies (#[trigger] no[i].marker
                == Marker::Unmarked || no[i].marker == nl) by {
                if i < open.len() {
                    assert(no[i] == open[i]);
                } else {
                    assert(no[i] == r);
                }
            }
            lemma_group_fold_wf(rows.skip(1), nl, no, done);
            assert(group_fold(rows, last, open, done) == group_fold(rows.skip(1), nl, no, done));
        }
    }
}

/// Every group the grouper emits is non-empty and marker-coherent: all its
/// rows that carry a marker carry the same one.
pub proof fn lemma_groups_wf(rows: Seq<RowView>)
    ensures
        forall|k: int|
            0 <= k < group_table(rows).len() ==> coherent(#[trigger] group_table(rows)[k])
                && group_table(rows)[k].len() > 0,
{
    lemma_group_fold_wf(rows, Marker::Unmarked, Seq::empty(), Seq::empty());
}

proof fn lemma_group_fold_single(
    rows: Seq<RowView>,
    last: Marker,
    open: Seq<RowView>,
    done: Seq<Seq<RowView>>,
    gm: Marker,
)
    requires
        gm != Marker::Unmarked,
        last == Marker::Unmarked || last == gm,
        forall|i: int|
            0 <= i < rows.len() ==> (#[trigger] rows[i].marker == Marker::Unmarked || rows[i].marker
                == gm),
    ensures
        group_fold(rows, last, open, done) == if open.len() + rows.len() > 0 {
            done.push(open + rows)
        } else {
            done
        },
    decreases rows.len(),
{
    if rows.len() == 0 {
        assert(open + rows =~= open);
    } else {
        let r = rows[0];
        assert(!is_boundary(last, r.marker));
        lemma_group_fold_single(rows.skip(1), advance(last, r.marker), open.push(r), done, gm);
        assert(open.push(r) + rows.skip(1) =~= open + rows);
    }
}

/// A table with exactly one row yields exactly one group.
pub proof fn lemma_single_row_one_group(rows: Seq<RowView>)
    requires
        rows.len() == 1,
    ensures
        group_table(rows).len() == 1,
{
    lemma_group_table_count(rows);
    assert(rows.skip(1) =~= Seq::<RowView>::empty());
    assert(!is_boundary(Marker::Unmarked, rows[0].marker));
    assert(toggle_count(rows.skip(1), advance(Marker::Unmarked, rows[0].marker)) == 0);
    assert(toggle_count(rows, Marker::Unmarked) == 0);
}

/// A table with no rows contributes no groups.
pub proof fn lemma_no_rows_no_groups(rows: Seq<RowView>)
    requires
        rows.len() == 0,
    ensures
        group_table(rows).len() == 0,
{
    lemma_group_table_count(rows);
}

/// Grouping one more table appends its groups after those of the tables
/// before it.
pub proof fn lemma_group_tables_push(tables: Seq<Seq<RowView>>, x: Seq<RowView>)
    ensures
        group_tables(tables.push(x)) == group_tables(tables) + group_table(x),
    decreases tables.len(),
{
    if tables.len() == 0 {
        assert(tables.push(x)[0] == x);
        assert(tables.push(x).skip(1) =~= Seq::<Seq<RowView>>::empty());
        assert(group_tables(tables.push(x)) == group_table(x) + group_tables(
            Seq::<Seq<RowView>>::empty(),
        ));
        assert(group_table(x) + Seq::<Seq<RowView>>::empty() =~= group_table(x));
        assert(group_tables(tables) + group_table(x) =~= group_table(x));
    } else {
        lemma_group_tables_push(tables.skip(1), x);
        assert(tables.push(x).skip(1) =~= tables.skip(1).push(x));
        assert(tables.push(x)[0] == tables[0]);
        assert(group_tables(tables.push(x)) == group_table(tables[0]) + (group_tables(
            tables.skip(1),
        ) + group_table(x)));
        assert(group_table(tables[0]) + (group_tables(tables.skip(1)) + group_table(x)) =~= (
        group_table(tables[0]) + group_tables(tables.skip(1))) + group_table(x));
    }
}

/// Re-grouping the rows of one emitted group, on their own, yields exactly
/// that one group again.
pub proof fn lemma_regroup_single(g: Seq<RowView>)
    requires
        g.len() > 0,
        coherent(g),
    ensures
        group_table(g) == seq![g],
{
    let gm = if exists|i: int| 0 <= i < g.len() && g[i].marker != Marker::Unmarked {
        g[choose|i: int| 0 <= i < g.len() && g[i].marker != Marker::Unmarked].marker
    } else {
        Marker::Even
    };
    assert(forall|i: int|
        0 <= i < g.len() ==> (#[trigger] g[i].marker == Marker::Unmarked || g[i].marker == gm));
    lemma_group_fold_single(g, Marker::Unmarked, Seq::empty(), Seq::empty(), gm);
    assert(Seq::<RowView>::empty() + g =~= g);
    assert(Seq::<Seq<RowView>>::empty().push(g) =~= seq![g]);
}

/// Round trip: re-grouping any emitted group's own rows, as a single-table
/// input, yields exactly that one group again.
pub proof fn lemma_group_roundtrip(rows: Seq<RowView>, k: int)
    requires
        0 <= k < group_table(rows).len(),
    ensures
        group_table(group_table(rows)[k]) == seq![group_table(rows)[k]],
{
    lemma_groups_wf(rows);
    lemma_regroup_single(group_table(rows)[k]);
}

/// The marker a row-class attribute establishes.
pub open spec fn marker_of_class(class: Option<Seq<char>>) -> Marker {
    match class {
        Option::Some(c) => if c == "even"@ {
            Marker::Even
        } else if c == "odd"@ {
            Marker::Odd
        } else {
            Marker::Unmarked
        },
        Option::None => Marker::Unmarked,
    }
}

/// One raw row — class attribute and markup — as a [`RowView`].
pub open spec fn row_of_raw(raw: (Option<Seq<char>>, Seq<char>)) -> RowView {
    RowView { marker: marker_of_class(raw.0), html: raw.1 }
}

/// One raw table as a row sequence.
pub open spec fn rows_of_raw_table(t: Seq<(Option<Seq<char>>, Seq<char>)>) -> Seq<RowView> {
    t.map_values(|raw: (Option<Seq<char>>, Seq<char>)| row_of_raw(raw))
}

/// The marker a row-class attribute establishes.
fn marker_from_class(class: &Option<String>) -> (m: Marker)
    ensures
        m == marker_of_class(class.deep_view()),
{
    match class {
        Some(c) => {
            let cs = str_chars(c.as_str());
            if chars_eq_str(&cs, "even") {
                Marker::Even
            } else if chars_eq_str(&cs, "odd") {
                Marker::Odd
            } else {
                Marker::Unmarked
            }
        },
        None => Marker::Unmarked,
    }
}

/// Turns one raw table — each row's class attribute and markup — into rows
/// with their markers established.
pub fn rows_from_raw(t: &Vec<(Option<String>, String)>) -> (r: Vec<Row>)
    ensures
        r.deep_view() == rows_of_raw_table(t.deep_view()),
{
    let mut r: Vec<Row> = Vec::new();
    for i in 0..t.len()
        invariant
            r@.len() == i,
            t.deep_view().len() == t@.len(),
            forall|j: int| 0 <= j < i ==> (#[trigger] r@[j])@ == row_of_raw(t.deep_view()[j]),
    {
        let marker = marker_from_class(&t[i].0);
        let html = t[i].1.clone();
        r.push(Row { marker, html });
        proof {
            assert(t.deep_view()[i as int] == (t@[i as int].0.deep_view(), t@[i as int].1@));
            assert(r@[i as int]@ == row_of_raw(t.deep_view()[i as int]));
        }
    }
    proof {
        assert forall|k: int| 0 <= k < r.deep_view().len() implies r.deep_view()[k]
            == rows_of_raw_table(t.deep_view())[k] by {
            assert(r.deep_view()[k] == r@[k]@);
        }
        assert(r.deep_view() =~= rows_of_raw_table(t.deep_view()));
    }
    r
}

/// Partitions one table's rows into entry groups: a new group starts
/// exactly where the row marker toggles between the two polarities; rows
/// without a recognizable marker extend the current group; the trailing
/// open group is flushed.
pub fn group_rows(rows: &Vec<Row>) -> (groups: Vec<Vec<Row>>)
    ensures
        groups.deep_view() == group_table(rows.deep_view()),
{
    let ghost all: Seq<RowView> = rows.deep_view();
    let mut done: Vec<Vec<Row>> = Vec::new();
    let mut open: Vec<Row> = Vec::new();
    let mut last = Marker::Unmarked;
    proof {
        assert(all.skip(0) =~= all);
        assert(open.deep_view() =~= Seq::<RowView>::empty());
        assert(done.deep_view() =~= Seq::<Seq<RowView>>::empty());
    }
    for i in 0..rows.len()
        invariant
            all == rows.deep_view(),
            all.len() == rows@.len(),
            group_table(all) == group_fold(
                all.skip(i as int),
                last,
                open.deep_view(),
                done.deep_view(),
            ),
    {
        proof {
            let rest = all.skip(i as int);
            assert(rest[0] == rows.deep_view()[i as int]);
            assert(rest.skip(1) =~= all.skip(i as int + 1));
        }
        let m = rows[i].marker;
        proof {
            assert(rows@[i as int]@ == rows.deep_view()[i as int]);
        }
        let boundary = last != Marker::Unmarked && m != Marker::Unmarked && m != last;
        if boundary && open.len() > 0 {
            let ghost old_done = done.deep_view();
            let ghost old_open = open.deep_view();
            done.push(open);
            open = Vec::new();
            open.push(rows[i].clone());
            last = m;
            proof {
                assert(done.deep_view() =~= old_done.push(old_open));
                assert(open.deep_view() =~= seq![all.skip(i as int)[0]]);
            }
        } else {
            let ghost old_open = open.deep_view();
            open.push(rows[i].clone());
            if m != Marker::Unmarked {
                last = m;
            }
            proof {
                assert(open.deep_view() =~= old_open.push(all.skip(i as int)[0]));
            }
        }
    }
    proof {
        assert(all.skip(rows@.len() as int) =~= Seq::<RowView>::empty());
    }
    if open.len() > 0 {
        let ghost old_done = done.deep_view();
        let ghost old_open = open.deep_view();
        done.push(open);
        proof {
            assert(done.deep_view() =~= old_done.push(old_open));
        }
    }
    done
}

} // verus!

