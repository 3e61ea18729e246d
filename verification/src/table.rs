//! The table of packages and their versions.

use vstd::prelude::*;
use lazysort::SortedBy;
use std::cmp::Ordering;
use std::io::Write;
use tabwriter::TabWriter;
use crate::config::{Configuration, SettingsView};
use crate::package::{Candidate, CandidateView, GitCandidate, GitCandidateView};
use crate::text::{lemma_precedes_transitive, lemma_precedes_trichotomy, precedes, text_order, Text};
use crate::views::views;

verus! {

/// A line of the table.
#[derive(Debug, PartialEq, Eq)]
pub struct Row {
    pub needs_update: bool,
    pub name: String,
    pub installed: String,
    pub latest: String,
}

/// What a [`Row`] holds.
pub struct RowView {
    pub needs_update: bool,
    pub name: Text,
    pub installed: Text,
    pub latest: Text,
}

impl View for Row {
    type V = RowView;

    open spec fn view(&self) -> RowView {
        RowView {
            needs_update: self.needs_update,
            name: self.name@,
            installed: self.installed@,
            latest: self.latest@,
        }
    }
}

/// Packages that need an update come first; among the others, and among those, the names
/// decide.
pub open spec fn row_before(a: RowView, b: RowView) -> bool {
    (a.needs_update && !b.needs_update) || (a.needs_update == b.needs_update && precedes(
        a.name,
        b.name,
    ))
}

/// No row comes before one that stands above it.
pub open spec fn ordered(rows: Seq<RowView>) -> bool {
    forall|i: int, j: int|
        0 <= i < j < rows.len() ==> !row_before(#[trigger] rows[j], #[trigger] rows[i])
}

/// The order of two rows.
pub fn row_order(a: &Row, b: &Row) -> (order: Ordering)
    ensures
        order is Less <==> row_before(a@, b@),
        order is Equal <==> a.needs_update == b.needs_update && a.name@ == b.name@,
        order is Greater <==> row_before(b@, a@),
{
    proof {
        lemma_precedes_trichotomy(a.name@, b.name@);
    }
    if a.needs_update && !b.needs_update {
        Ordering::Less
    } else if !a.needs_update && b.needs_update {
        Ordering::Greater
    } else {
        text_order(a.name.as_str(), b.name.as_str())
    }
}

/// The order in which `lazysort` hands out rows that are sorted by [`row_order`].
pub uninterp spec fn lazy_sorted(rows: Seq<RowView>) -> Seq<RowView>;

/// The rows are shown all and in order.
pub open spec fn shown_in_order(rows: Seq<RowView>) -> bool {
    &&& ordered(lazy_sorted(rows))
    &&& lazy_sorted(rows).to_multiset() == rows.to_multiset()
}

/// The tables each show all their rows, and in order.
pub open spec fn all_in_order(tables: Seq<Seq<RowView>>) -> bool {
    forall|i: int| 0 <= i < tables.len() ==> shown_in_order(#[trigger] tables[i])
}

/// Sorts by `lazysort::SortedBy::sorted_by`: the rows come out in an order that their views
/// alone decide, the same rows as went in, none of them after one that it comes before. How
/// rows stand that neither comes before the other is left open.
#[verifier::external_body]
fn sort_rows(rows: Vec<Row>) -> (sorted: Vec<Row>)
    ensures
        views(sorted@) == lazy_sorted(views(rows@)),
        views(sorted@).to_multiset() == views(rows@).to_multiset(),
        ordered(views(sorted@)),
{
    rows.into_iter().sorted_by(|a, b| row_order(a, b)).collect()
}

/// The rows in the order of the table.
pub fn arrange(rows: Vec<Row>) -> (arranged: Vec<Row>)
    ensures
        views(arranged@) == lazy_sorted(views(rows@)),
        views(arranged@).to_multiset() == views(rows@).to_multiset(),
        ordered(views(arranged@)),
{
    sort_rows(rows)
}

/// The line of a row, with tabs between the columns.
pub open spec fn line(row: RowView) -> Text {
    row.name + "\t"@ + row.installed + "\t"@ + row.latest + "\t"@ + (if row.needs_update {
        "Yes"@
    } else {
        "No"@
    }) + "\n"@
}

/// The lines of the rows, one after the other.
pub open spec fn lines(rows: Seq<RowView>) -> Text
    decreases rows.len(),
{
    if rows.len() == 0 {
        Seq::empty()
    } else {
        lines(rows.drop_last()) + line(rows.last())
    }
}

/// A heading, the lines of the rows and an empty line.
pub open spec fn table(rows: Seq<RowView>) -> Text {
    "Package\tInstalled\tLatest\tNeeds update\n"@ + lines(rows) + "\n"@
}

/// The table of the rows in the order given, with tabs between the columns.
pub fn table_text(rows: &Vec<Row>) -> (text: String)
    ensures
        text@ == table(views(rows@)),
{
    let mut text: String = "Package\tInstalled\tLatest\tNeeds update\n".to_owned();
    let ghost head = text@;
    let ghost all = views(rows@);
    let mut i: usize = 0;
    while i < rows.len()
        invariant
            i <= rows@.len(),
            all == views(rows@),
            text@ =~= head + lines(all.take(i as int)),
        decreases rows@.len() - i,
    {
        proof {
            assert(all.take(i + 1).drop_last() =~= all.take(i as int));
            assert(all.take(i + 1).last() == rows@[i as int]@);
        }
        let row: &Row = &rows[i];
        text.append(row.name.as_str());
        text.append("\t");
        text.append(row.installed.as_str());
        text.append("\t");
        text.append(row.latest.as_str());
        text.append("\t");
        text.append(if row.needs_update { "Yes" } else { "No" });
        text.append("\n");
        i = i + 1;
    }
    text.append("\n");
    proof {
        assert(all.take(i as int) =~= all);
        assert(text@ =~= table(all));
    }
    text
}

/// What `tabwriter` makes of a text with tabs.
pub uninterp spec fn tab_aligned(text: Text) -> Text;

/// Aligns the columns by `tabwriter::TabWriter`, with the settings that it starts with: the
/// text that comes out is decided by the text alone. How it looks is left open.
#[verifier::external_body]
fn align(text: &str) -> (aligned: String)
    ensures
        aligned@ == tab_aligned(text@),
{
    let mut writer = TabWriter::new(Vec::new());
    writer.write_all(text.as_bytes()).unwrap();
    String::from_utf8(writer.into_inner().unwrap()).unwrap()
}

/// The table of the rows, sorted, with its columns aligned.
pub fn render(rows: Vec<Row>) -> (text: String)
    ensures
        text@ == tab_aligned(table(lazy_sorted(views(rows@)))),
        ordered(lazy_sorted(views(rows@))),
        lazy_sorted(views(rows@)).to_multiset() == views(rows@).to_multiset(),
{
    let arranged: Vec<Row> = arrange(rows);
    align(table_text(&arranged).as_str())
}

/// The version requirement of the package, if its settings name one.
pub open spec fn target_version(config: Map<Text, SettingsView>, name: Text) -> Option<Text> {
    if config.contains_key(name) {
        config[name].target_version
    } else {
        None
    }
}

/// The row of a registry package: the version that is installed, the version that would be
/// installed, and a newer one that would not.
pub open spec fn candidate_row(
    config: Map<Text, SettingsView>,
    candidate: CandidateView,
) -> RowView {
    RowView {
        needs_update: candidate.versions.needs_update,
        name: candidate.name,
        installed: match candidate.versions.installed {
            Some(version) => "v"@ + version,
            None => "No"@,
        },
        latest: match target_version(config, candidate.name) {
            Some(target) => target,
            None => match candidate.versions.update_to {
                Some(version) => match candidate.versions.alternative {
                    Some(newer) => "v"@ + version + " (v"@ + newer + " available)"@,
                    None => "v"@ + version,
                },
                None => "N/A"@,
            },
        },
    }
}

/// The rows of registry packages.
pub open spec fn candidate_rows(
    config: Map<Text, SettingsView>,
    candidates: Seq<CandidateView>,
) -> Seq<RowView> {
    candidates.map_values(|candidate: CandidateView| candidate_row(config, candidate))
}

/// The row of a git package: the installed and the newest commit.
pub open spec fn git_row(candidate: GitCandidateView) -> RowView {
    RowView {
        needs_update: candidate.commits.needs_update,
        name: candidate.name,
        installed: candidate.commits.id,
        latest: candidate.commits.newest->0,
    }
}

/// The rows of git packages.
pub open spec fn git_rows(candidates: Seq<GitCandidateView>) -> Seq<RowView> {
    candidates.map_values(|candidate: GitCandidateView| git_row(candidate))
}

/// The row of a registry package.
fn make_candidate_row(config: &Configuration, candidate: &Candidate) -> (row: Row)
    ensures
        row@ == candidate_row(config@, candidate@),
{
    let installed: String = match &candidate.versions.installed {
        Some(version) => "v".to_owned().concat(version.as_str()),
        None => "No".to_owned(),
    };
    let target: Option<String> = match config.get(&candidate.name) {
        Some(settings) => match &settings.target_version {
            Some(target) => Some(target.clone()),
            None => None,
        },
        None => None,
    };
    let latest: String = match target {
        Some(target) => target,
        None => match &candidate.versions.update_to {
            Some(version) => {
                let mut text: String = "v".to_owned();
                text.append(version.as_str());
                match &candidate.versions.alternative {
                    Some(newer) => {
                        text.append(" (v");
                        text.append(newer.as_str());
                        text.append(" available)");
                    },
                    None => {},
                }
                text
            },
            None => "N/A".to_owned(),
        },
    };
    let needs_update: bool = candidate.versions.needs_update;
    Row { needs_update, name: candidate.name.clone(), installed, latest }
}

/// The rows of registry packages.
pub fn make_candidate_rows(config: &Configuration, candidates: &Vec<Candidate>) -> (rows: Vec<Row>)
    ensures
        views(rows@) == candidate_rows(config@, views(candidates@)),
{
    let mut rows: Vec<Row> = Vec::new();
    let mut i: usize = 0;
    while i < candidates.len()
        invariant
            i <= candidates@.len(),
            rows@.len() == i,
            forall|j: int|
                0 <= j < i ==> (#[trigger] rows@[j])@ == candidate_row(config@, candidates@[j]@),
        decreases candidates@.len() - i,
    {
        rows.push(make_candidate_row(config, &candidates[i]));
        i = i + 1;
    }
    proof {
        assert(views(rows@) =~= candidate_rows(config@, views(candidates@)));
    }
    rows
}

/// Every package has a newest commit.
pub open spec fn all_newest_known(candidates: Seq<GitCandidateView>) -> bool {
    forall|i: int| 0 <= i < candidates.len() ==> (#[trigger] candidates[i]).commits.newest is Some
}

/// The rows of git packages.
pub fn make_git_rows(candidates: &Vec<GitCandidate>) -> (rows: Vec<Row>)
    requires
        all_newest_known(views(candidates@)),
    ensures
        views(rows@) == git_rows(views(candidates@)),
{
    let mut rows: Vec<Row> = Vec::new();
    let mut i: usize = 0;
    while i < candidates.len()
        invariant
            all_newest_known(views(candidates@)),
            i <= candidates@.len(),
            rows@.len() == i,
            forall|j: int| 0 <= j < i ==> (#[trigger] rows@[j])@ == git_row(candidates@[j]@),
        decreases candidates@.len() - i,
    {
        let candidate: &GitCandidate = &candidates[i];
        assert(views(candidates@)[i as int].commits.newest is Some);
        let latest: String = match &candidate.commits.newest {
            Some(newest) => newest.clone(),
            None => String::new(),
        };
        let needs_update: bool = candidate.commits.needs_update;
        let installed: String = candidate.commits.id.clone();
        rows.push(Row { needs_update, name: candidate.name.clone(), installed, latest });
        i = i + 1;
    }
    proof {
        assert(views(rows@) =~= git_rows(views(candidates@)));
    }
    rows
}

/// The order of rows is strict: no row comes before itself and no two come before each other;
/// rows that neither comes before the other have the same name and need an update alike.
pub proof fn lemma_row_before_strict(a: RowView, b: RowView)
    ensures
        !row_before(a, a),
        !(row_before(a, b) && row_before(b, a)),
        !row_before(a, b) && !row_before(b, a) ==> a.name == b.name && a.needs_update
            == b.needs_update,
{
    lemma_precedes_trichotomy(a.name, b.name);
}

/// The order of rows is transitive.
pub proof fn lemma_row_before_transitive(a: RowView, b: RowView, c: RowView)
    requires
        row_before(a, b),
        row_before(b, c),
    ensures
        row_before(a, c),
{
    if precedes(a.name, b.name) && precedes(b.name, c.name) {
        lemma_precedes_transitive(a.name, b.name, c.name);
    }
}

/// No two rows have the same name.
pub open spec fn names_differ(rows: Seq<RowView>) -> bool {
    forall|i: int, j: int|
        0 <= i < j < rows.len() ==> (#[trigger] rows[i]).name != (#[trigger] rows[j]).name
}

/// Rows of different names can be put in order in one way only.
pub proof fn lemma_one_order(a: Seq<RowView>, b: Seq<RowView>)
    requires
        ordered(a),
        ordered(b),
        a.to_multiset() == b.to_multiset(),
        names_differ(a),
    ensures
        a == b,
    decreases a.len(),
{
    a.to_multiset_ensures();
    b.to_multiset_ensures();
    assert(a.len() == b.len());
    if a.len() == 0 {
        assert(a =~= b);
    } else {
        let x = a.last();
        let y = b.last();
        assert(a[a.len() - 1] == x && b[b.len() - 1] == y);
        assert(a.contains(x) && b.contains(y));
        assert(a.to_multiset().count(x) > 0 && b.to_multiset().count(y) > 0);
        assert(b.contains(x) && a.contains(y));
        let i = choose|i: int| 0 <= i < b.len() && b[i] == x;
        let j = choose|j: int| 0 <= j < a.len() && a[j] == y;
        if x != y {
            assert(!row_before(y, x));
            assert(!row_before(x, y));
            lemma_row_before_strict(x, y);
            assert(a[j].name == a[a.len() - 1].name);
        }
        assert(a.drop_last() =~= a.remove(a.len() - 1));
        assert(b.drop_last() =~= b.remove(b.len() - 1));
        lemma_one_order(a.drop_last(), b.drop_last());
        assert(a =~= a.drop_last().push(x));
        assert(b =~= b.drop_last().push(x));
    }
}

} // verus!
