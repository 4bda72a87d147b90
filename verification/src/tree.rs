//! Applications as a tree of three levels.
//!
//! The values are gathered under their first level, and below it under
//! their second. A value of two levels stands directly under the first.

use crate::applications::{
    application_mid, application_top, leaf_level, leaf_of, mid_level, top_level,
};
use crate::facets::FacetValueCount;
use crate::filter::Filter;
use crate::tables::{id_of, value_id, value_text, Axis};
use crate::text::{owned, same_text, texts};
use vstd::prelude::*;

verus! {

/// A value at the end of a branch.
#[derive(Debug)]
pub struct LeafRow {
    /// The value.
    pub value: String,
    /// Its last level.
    pub label: String,
    /// How many documents have it.
    pub count: u32,
    /// Its id.
    pub id: u8,
    /// Whether it is chosen.
    pub selected: bool,
}

/// A branch of the second level; without a label where the values have
/// two levels only.
#[derive(Debug)]
pub struct MidNode {
    /// The second level.
    pub label: String,
    /// The counts of its values together; zero without a label.
    pub total: u32,
    /// Its values.
    pub leaves: Vec<LeafRow>,
}

/// A branch of the first level.
#[derive(Debug)]
pub struct TopNode {
    /// The first level.
    pub label: String,
    /// The counts of its values together.
    pub total: u32,
    /// Its branches.
    pub mids: Vec<MidNode>,
}

/// The tree.
#[derive(Debug)]
pub struct ApplicationTree {
    /// Its branches.
    pub tops: Vec<TopNode>,
    /// How many values it holds.
    pub rows: usize,
    /// Whether there are more values than fit without scrolling.
    pub overflows: bool,
}

/// The first level of an application.
pub open spec fn top_name(id: u8) -> Seq<char> {
    match value_text(Axis::Application, id) {
        Some(v) => top_level(v),
        None => "Other"@,
    }
}

/// The second level of an application; empty where it has none.
pub open spec fn mid_name(id: u8) -> Seq<char> {
    match value_text(Axis::Application, id) {
        Some(v) => match mid_level(v) {
            Some(m) => m,
            None => Seq::empty(),
        },
        None => Seq::empty(),
    }
}

/// A counted application.
pub struct RowView {
    /// The value.
    pub value: Seq<char>,
    /// How many documents have it.
    pub count: u32,
    /// Its id.
    pub id: u8,
}

/// Those of the first `n` counted values that are applications.
pub open spec fn rows_of(values: Seq<FacetValueCount>, n: int) -> Seq<RowView>
    decreases n,
{
    if n <= 0 {
        Seq::empty()
    } else {
        let front = rows_of(values, n - 1);
        let c = values[n - 1];
        match value_id(Axis::Application, c.value@) {
            Some(id) => front.push(RowView { value: c.value@, count: c.count, id }),
            None => front,
        }
    }
}

/// The names among the first `n`, each where it is first seen.
pub open spec fn first_seen(names: Seq<Seq<char>>, n: int) -> Seq<Seq<char>>
    decreases n,
{
    if n <= 0 {
        Seq::empty()
    } else {
        let front = first_seen(names, n - 1);
        if front.contains(names[n - 1]) {
            front
        } else {
            front.push(names[n - 1])
        }
    }
}

/// The first levels of rows.
pub open spec fn top_names(rows: Seq<RowView>) -> Seq<Seq<char>> {
    rows.map_values(|r: RowView| top_name(r.id))
}

/// The second levels of rows.
pub open spec fn mid_names(rows: Seq<RowView>) -> Seq<Seq<char>> {
    rows.map_values(|r: RowView| mid_name(r.id))
}

/// Those of the first `n` rows with a first level.
pub open spec fn under_top(rows: Seq<RowView>, top: Seq<char>, n: int) -> Seq<RowView>
    decreases n,
{
    if n <= 0 {
        Seq::empty()
    } else if top_name(rows[n - 1].id) == top {
        under_top(rows, top, n - 1).push(rows[n - 1])
    } else {
        under_top(rows, top, n - 1)
    }
}

/// Those of the first `n` rows with a second level.
pub open spec fn under_mid(rows: Seq<RowView>, mid: Seq<char>, n: int) -> Seq<RowView>
    decreases n,
{
    if n <= 0 {
        Seq::empty()
    } else if mid_name(rows[n - 1].id) == mid {
        under_mid(rows, mid, n - 1).push(rows[n - 1])
    } else {
        under_mid(rows, mid, n - 1)
    }
}

/// The counts of rows together.
pub open spec fn sum(rows: Seq<RowView>) -> nat
    decreases rows.len(),
{
    if rows.len() == 0 {
        0
    } else {
        sum(rows.drop_last()) + rows.last().count as nat
    }
}

/// Whether a value is shown.
pub open spec fn leaf_shows(l: LeafRow, r: RowView, chosen: Seq<u8>) -> bool {
    &&& l.value@ == r.value
    &&& l.label@ == leaf_level(r.value)
    &&& l.count == r.count
    &&& l.id == r.id
    &&& l.selected == chosen.contains(r.id)
}

/// Whether a branch of the second level shows rows.
pub open spec fn mid_shows(m: MidNode, label: Seq<char>, rows: Seq<RowView>, chosen: Seq<u8>) -> bool {
    &&& m.label@ == label
    &&& m.total == (if label.len() > 0 {
        sum(rows)
    } else {
        0
    })
    &&& m.leaves@.len() == rows.len()
    &&& forall|k: int| 0 <= k < rows.len() ==> leaf_shows(#[trigger] m.leaves@[k], rows[k], chosen)
}

/// The rows of a branch of the second level.
pub open spec fn mid_rows(rows: Seq<RowView>, mid: Seq<char>) -> Seq<RowView> {
    under_mid(rows, mid, rows.len() as int)
}

/// The second levels below a first one.
pub open spec fn mids_below(rows: Seq<RowView>) -> Seq<Seq<char>> {
    first_seen(mid_names(rows), rows.len() as int)
}

/// Whether a branch of the first level shows rows.
pub open spec fn top_shows(t: TopNode, label: Seq<char>, rows: Seq<RowView>, chosen: Seq<u8>) -> bool {
    let mids = mids_below(rows);
    &&& t.label@ == label
    &&& t.total == sum(rows)
    &&& t.mids@.len() == mids.len()
    &&& forall|k: int|
        0 <= k < mids.len() ==> mid_shows(
            #[trigger] t.mids@[k],
            mids[k],
            mid_rows(rows, mids[k]),
            chosen,
        )
}

/// The rows of a branch of the first level.
pub open spec fn top_rows(rows: Seq<RowView>, top: Seq<char>) -> Seq<RowView> {
    under_top(rows, top, rows.len() as int)
}

/// Whether a tree shows counted values.
pub open spec fn is_tree(tree: ApplicationTree, values: Seq<FacetValueCount>, chosen: Seq<u8>) -> bool {
    let rows = rows_of(values, values.len() as int);
    let tops = first_seen(top_names(rows), rows.len() as int);
    &&& tree.rows == rows.len()
    &&& tree.overflows == (rows.len() > 6)
    &&& tree.tops@.len() == tops.len()
    &&& forall|k: int|
        0 <= k < tops.len() ==> top_shows(
            #[trigger] tree.tops@[k],
            tops[k],
            top_rows(rows, tops[k]),
            chosen,
        )
}

/// A name is seen at least once if it is there.
pub proof fn every_name_is_seen(names: Seq<Seq<char>>, n: int, i: int)
    requires
        0 <= i < n <= names.len(),
    ensures
        first_seen(names, n).contains(names[i]),
        first_seen(names, n).no_duplicates(),
    decreases n,
{
    let front = first_seen(names, n - 1);
    let all = first_seen(names, n);
    if n > 1 {
        every_name_is_seen(
            names,
            n - 1,
            if i < n - 1 {
                i
            } else {
                0
            },
        );
    }
    if i < n - 1 {
        let k = choose|k: int| 0 <= k < front.len() && front[k] == names[i];
        assert(all[k] == names[i]);
    } else if !front.contains(names[i]) {
        assert(all[front.len() as int] == names[i]);
    }
}

/// The counts of some of the rows are no more than those of all.
proof fn part_of_sum(rows: Seq<RowView>, top: Seq<char>, n: int)
    requires
        0 <= n <= rows.len(),
    ensures
        sum(under_top(rows, top, n)) <= sum(rows.take(n)),
        sum(under_mid(rows, top, n)) <= sum(rows.take(n)),
    decreases n,
{
    if n > 0 {
        part_of_sum(rows, top, n - 1);
        assert(rows.take(n).drop_last() =~= rows.take(n - 1));
        let a = under_top(rows, top, n - 1);
        let b = under_mid(rows, top, n - 1);
        assert(a.push(rows[n - 1]).drop_last() =~= a);
        assert(b.push(rows[n - 1]).drop_last() =~= b);
    }
}

proof fn sum_rises(rows: Seq<RowView>, n: int)
    requires
        0 <= n <= rows.len(),
    ensures
        sum(rows.take(n)) <= sum(rows),
    decreases rows.len() - n,
{
    if n < rows.len() {
        sum_rises(rows, n + 1);
        assert(rows.take(n + 1).drop_last() =~= rows.take(n));
    } else {
        assert(rows.take(n) =~= rows);
    }
}

// ---------------------------------------------------------------------
// Building
// ---------------------------------------------------------------------

/// A counted application with its levels.
struct Row {
    value: String,
    count: u32,
    id: u8,
    top: String,
    mid: String,
}

spec fn row_view(r: Row) -> RowView {
    RowView { value: r.value@, count: r.count, id: r.id }
}

spec fn row_views(v: Seq<Row>) -> Seq<RowView> {
    v.map_values(|r: Row| row_view(r))
}

/// Whether the levels of rows are those of their ids.
spec fn levelled(v: Seq<Row>) -> bool {
    forall|k: int|
        0 <= k < v.len() ==> (#[trigger] v[k]).top@ == top_name(v[k].id) && v[k].mid@ == mid_name(
            v[k].id,
        )
}

/// The counted values that are applications.
fn collect_rows(values: &Vec<FacetValueCount>) -> (r: Vec<Row>)
    ensures
        row_views(r@) == rows_of(values@, values@.len() as int),
        levelled(r@),
{
    let mut r: Vec<Row> = Vec::new();
    let mut i: usize = 0;
    proof {
        assert(row_views(r@) =~= Seq::empty());
    }
    while i < values.len()
        invariant
            i <= values@.len(),
            row_views(r@) == rows_of(values@, i as int),
            levelled(r@),
        decreases values@.len() - i,
    {
        match id_of(Axis::Application, values[i].value.as_str()) {
            Some(id) => {
                let top: String = match application_top(id) {
                    Some(s) => s,
                    None => owned("Other"),
                };
                let mid: String = match application_mid(id) {
                    Some(s) => s,
                    None => {
                        let e: String = String::new();
                        proof {
                            assert(e@ =~= Seq::empty());
                        }
                        e
                    },
                };
                let ghost before = row_views(r@);
                let row: Row = Row {
                    value: values[i].value.clone(),
                    count: values[i].count,
                    id,
                    top,
                    mid,
                };
                let ghost v = row_view(row);
                r.push(row);
                proof {
                    assert(row_views(r@) =~= before.push(v));
                }
            },
            None => {},
        }
        i += 1;
    }
    r
}

/// Adds a name that has not been seen.
fn see_name(seen: &mut Vec<String>, name: &str)
    ensures
        texts(final(seen)@) == (if texts(old(seen)@).contains(name@) {
            texts(old(seen)@)
        } else {
            texts(old(seen)@).push(name@)
        }),
{
    let ghost before = texts(seen@);
    if !crate::text::list_has(seen, name) {
        seen.push(owned(name));
        proof {
            assert(texts(seen@) =~= before.push(name@));
        }
    }
}

/// The branch of a second level.
fn build_mid(rows: &Vec<Row>, part: &Vec<usize>, mid: &String, chosen: &Filter) -> (m: MidNode)
    requires
        forall|k: int| 0 <= k < part@.len() ==> (#[trigger] part@[k]) < rows@.len(),
        levelled(rows@),
        sum(rows_at(rows@, part@)) <= u32::MAX,
    ensures
        mid_shows(m, mid@, mid_rows(rows_at(rows@, part@), mid@), chosen@.applications),
{
    let ghost here = rows_at(rows@, part@);
    let ghost ids = chosen@.applications;
    let mut leaves: Vec<LeafRow> = Vec::new();
    let mut total: u32 = 0;
    let mut i: usize = 0;
    let named: bool = !mid.as_str().is_empty();
    proof {
        assert(under_mid(here, mid@, 0) =~= Seq::empty());
    }
    while i < part.len()
        invariant
            i <= part@.len(),
            forall|k: int| 0 <= k < part@.len() ==> (#[trigger] part@[k]) < rows@.len(),
            levelled(rows@),
            here == rows_at(rows@, part@),
            ids == chosen@.applications,
            sum(here) <= u32::MAX,
            named == (mid@.len() > 0),
            total == (if mid@.len() > 0 {
                sum(under_mid(here, mid@, i as int))
            } else {
                0
            }),
            leaves@.len() == under_mid(here, mid@, i as int).len(),
            forall|k: int|
                0 <= k < leaves@.len() ==> leaf_shows(
                    #[trigger] leaves@[k],
                    under_mid(here, mid@, i as int)[k],
                    ids,
                ),
        decreases part@.len() - i,
    {
        let at: usize = part[i];
        proof {
            assert(part@[i as int] < rows@.len());
            assert(here[i as int] == row_view(rows@[at as int]));
            assert(rows@[at as int].mid@ == mid_name(rows@[at as int].id));
        }
        if same_text(rows[at].mid.as_str(), mid.as_str()) {
            proof {
                let front = under_mid(here, mid@, i as int);
                assert(front.push(here[i as int]).drop_last() =~= front);
                part_of_sum(here, mid@, i + 1);
                sum_rises(here, i + 1);
            }
            if named {
                total = total + rows[at].count;
            }
            leaves.push(
                LeafRow {
                    value: rows[at].value.clone(),
                    label: leaf_of(rows[at].value.as_str()),
                    count: rows[at].count,
                    id: rows[at].id,
                    selected: chosen.applications.contains(rows[at].id),
                },
            );
        }
        i += 1;
    }
    MidNode { label: mid.clone(), total, leaves }
}

/// The rows at some positions.
spec fn rows_at(v: Seq<Row>, at: Seq<usize>) -> Seq<RowView> {
    Seq::new(at.len(), |k: int| row_view(v[at[k] as int]))
}

/// The branch of a first level.
fn build_top(rows: &Vec<Row>, top: &String, chosen: &Filter) -> (t: TopNode)
    requires
        levelled(rows@),
        sum(row_views(rows@)) <= u32::MAX,
    ensures
        top_shows(t, top@, top_rows(row_views(rows@), top@), chosen@.applications),
{
    let ghost all = row_views(rows@);
    let ghost ids = chosen@.applications;
    let mut part: Vec<usize> = Vec::new();
    let mut names: Vec<String> = Vec::new();
    let mut total: u32 = 0;
    let mut i: usize = 0;
    proof {
        assert(rows_at(rows@, part@) =~= under_top(all, top@, 0));
        assert(texts(names@) =~= first_seen(mid_names(under_top(all, top@, 0)), 0));
        assert(under_top(all, top@, 0) =~= Seq::empty());
    }
    while i < rows.len()
        invariant
            i <= rows@.len(),
            all == row_views(rows@),
            levelled(rows@),
            sum(all) <= u32::MAX,
            rows_at(rows@, part@) == under_top(all, top@, i as int),
            forall|k: int| 0 <= k < part@.len() ==> (#[trigger] part@[k]) < rows@.len(),
            part@.len() == under_top(all, top@, i as int).len(),
            texts(names@) == mids_below(under_top(all, top@, i as int)),
            total == sum(under_top(all, top@, i as int)),
        decreases rows@.len() - i,
    {
        proof {
            assert(all[i as int] == row_view(rows@[i as int]));
            assert(rows@[i as int].top@ == top_name(rows@[i as int].id));
        }
        if same_text(rows[i].top.as_str(), top.as_str()) {
            let ghost front = under_top(all, top@, i as int);
            let ghost before = part@;
            proof {
                assert(front.push(all[i as int]).drop_last() =~= front);
                part_of_sum(all, top@, i + 1);
                sum_rises(all, i + 1);
                let next = front.push(all[i as int]);
                assert(mid_names(next).len() == front.len() + 1);
                seen_of_prefix(mid_names(next), mid_names(front), front.len() as int);
                assert(mid_names(next)[front.len() as int] == mid_name(all[i as int].id));
            }
            part.push(i);
            see_name(&mut names, rows[i].mid.as_str());
            total = total + rows[i].count;
            proof {
                assert(rows_at(rows@, part@) =~= front.push(all[i as int]));
            }
        }
        i += 1;
    }
    let ghost here = top_rows(all, top@);
    let ghost mids = mids_below(here);
    let mut nodes: Vec<MidNode> = Vec::new();
    let mut j: usize = 0;
    while j < names.len()
        invariant
            j <= names@.len(),
            levelled(rows@),
            here == rows_at(rows@, part@),
            forall|k: int| 0 <= k < part@.len() ==> (#[trigger] part@[k]) < rows@.len(),
            sum(here) <= u32::MAX,
            ids == chosen@.applications,
            mids == texts(names@),
            nodes@.len() == j,
            forall|k: int|
                0 <= k < j ==> mid_shows(
                    #[trigger] nodes@[k],
                    mids[k],
                    mid_rows(here, mids[k]),
                    ids,
                ),
        decreases names@.len() - j,
    {
        proof {
            assert(mids[j as int] == names@[j as int]@);
        }
        nodes.push(build_mid(rows, &part, &names[j], chosen));
        j += 1;
    }
    TopNode { label: top.clone(), total, mids: nodes }
}

proof fn seen_of_prefix(a: Seq<Seq<char>>, b: Seq<Seq<char>>, n: int)
    requires
        0 <= n <= a.len(),
        n <= b.len(),
        forall|k: int| 0 <= k < n ==> a[k] == b[k],
    ensures
        first_seen(a, n) == first_seen(b, n),
    decreases n,
{
    if n > 0 {
        seen_of_prefix(a, b, n - 1);
    }
}

/// The tree of some counted values.
pub fn application_tree(values: &Vec<FacetValueCount>, chosen: &Filter) -> (r: ApplicationTree)
    requires
        sum(rows_of(values@, values@.len() as int)) <= u32::MAX,
    ensures
        is_tree(r, values@, chosen@.applications),
{
    let rows: Vec<Row> = collect_rows(values);
    let ghost all = row_views(rows@);
    let ghost ids = chosen@.applications;
    let mut names: Vec<String> = Vec::new();
    let mut i: usize = 0;
    proof {
        assert(texts(names@) =~= Seq::empty());
    }
    while i < rows.len()
        invariant
            i <= rows@.len(),
            all == row_views(rows@),
            levelled(rows@),
            texts(names@) == first_seen(top_names(all), i as int),
        decreases rows@.len() - i,
    {
        proof {
            assert(all[i as int] == row_view(rows@[i as int]));
            assert(rows@[i as int].top@ == top_name(rows@[i as int].id));
            assert(top_names(all)[i as int] == rows@[i as int].top@);
        }
        see_name(&mut names, rows[i].top.as_str());
        i += 1;
    }
    let ghost tops = first_seen(top_names(all), all.len() as int);
    let mut nodes: Vec<TopNode> = Vec::new();
    let mut j: usize = 0;
    while j < names.len()
        invariant
            j <= names@.len(),
            levelled(rows@),
            all == row_views(rows@),
            sum(all) <= u32::MAX,
            ids == chosen@.applications,
            tops == texts(names@),
            nodes@.len() == j,
            forall|k: int|
                0 <= k < j ==> top_shows(
                    #[trigger] nodes@[k],
                    tops[k],
                    top_rows(all, tops[k]),
                    ids,
                ),
        decreases names@.len() - j,
    {
        proof {
            assert(tops[j as int] == names@[j as int]@);
        }
        nodes.push(build_top(&rows, &names[j], chosen));
        j += 1;
    }
    let n: usize = rows.len();
    let overflows: bool = n > 6;
    ApplicationTree { tops: nodes, rows: n, overflows }
}

/// Every counted application stands in the tree, below the branches of
/// its first two levels, under its last level, with its count, and marked
/// where it is chosen. The count is part of the count of its branch.
#[verifier::spinoff_prover]
pub proof fn applications_stand_in_the_tree(
    tree: ApplicationTree,
    values: Seq<FacetValueCount>,
    chosen: Seq<u8>,
    i: int,
)
    requires
        is_tree(tree, values, chosen),
        0 <= i < values.len(),
        value_id(Axis::Application, values[i].value@) is Some,
    ensures
        ({
            let id = value_id(Axis::Application, values[i].value@)->0;
            exists|a: int, b: int, c: int|
                #![trigger tree.tops@[a].mids@[b].leaves@[c]]
                0 <= a < tree.tops@.len() && 0 <= b < tree.tops@[a].mids@.len() && 0 <= c
                    < tree.tops@[a].mids@[b].leaves@.len() && {
                    let top = tree.tops@[a];
                    let mid = top.mids@[b];
                    let leaf = mid.leaves@[c];
                    &&& top.label@ == top_name(id)
                    &&& mid.label@ == mid_name(id)
                    &&& leaf.value@ == values[i].value@
                    &&& leaf.label@ == leaf_level(values[i].value@)
                    &&& leaf.count == values[i].count
                    &&& leaf.id == id
                    &&& leaf.selected <==> chosen.contains(id)
                    &&& top.total >= leaf.count
                    &&& mid.label@.len() > 0 ==> mid.total >= leaf.count
                }
        }),
{
    let id = value_id(Axis::Application, values[i].value@)->0;
    let rows = rows_of(values, values.len() as int);
    row_of_value(values, values.len() as int, i);
    let r = RowView { value: values[i].value@, count: values[i].count, id };
    let k = choose|k: int| 0 <= k < rows.len() && rows[k] == r;
    let tops = first_seen(top_names(rows), rows.len() as int);
    assert(top_names(rows)[k] == top_name(id));
    every_name_is_seen(top_names(rows), rows.len() as int, k);
    let a = choose|a: int| 0 <= a < tops.len() && tops[a] == top_name(id);
    let below = top_rows(rows, top_name(id));
    row_under_top(rows, rows.len() as int, k);
    let m = choose|m: int| 0 <= m < below.len() && below[m] == r;
    assert(top_shows(tree.tops@[a], tops[a], below, chosen));
    let mids = mids_below(below);
    assert(mid_names(below)[m] == mid_name(id));
    every_name_is_seen(mid_names(below), below.len() as int, m);
    let b = choose|b: int| 0 <= b < mids.len() && mids[b] == mid_name(id);
    let last = mid_rows(below, mid_name(id));
    row_under_mid(below, below.len() as int, m);
    let c = choose|c: int| 0 <= c < last.len() && last[c] == r;
    assert(mid_shows(tree.tops@[a].mids@[b], mids[b], last, chosen));
    assert(leaf_shows(tree.tops@[a].mids@[b].leaves@[c], last[c], chosen));
    count_is_part(below, m);
    count_is_part(last, c);
}

proof fn row_of_value(values: Seq<FacetValueCount>, n: int, i: int)
    requires
        0 <= i < n <= values.len(),
        value_id(Axis::Application, values[i].value@) is Some,
    ensures
        rows_of(values, n).contains(
            RowView {
                value: values[i].value@,
                count: values[i].count,
                id: value_id(Axis::Application, values[i].value@)->0,
            },
        ),
    decreases n,
{
    let all = rows_of(values, n);
    let front = rows_of(values, n - 1);
    let r = RowView {
        value: values[i].value@,
        count: values[i].count,
        id: value_id(Axis::Application, values[i].value@)->0,
    };
    if i == n - 1 {
        assert(all[front.len() as int] == r);
    } else {
        row_of_value(values, n - 1, i);
        let k = choose|k: int| 0 <= k < front.len() && front[k] == r;
        assert(all[k] == r);
    }
}

proof fn row_under_top(rows: Seq<RowView>, n: int, k: int)
    requires
        0 <= k < n <= rows.len(),
    ensures
        under_top(rows, top_name(rows[k].id), n).contains(rows[k]),
    decreases n,
{
    let top = top_name(rows[k].id);
    let all = under_top(rows, top, n);
    let front = under_top(rows, top, n - 1);
    if k == n - 1 {
        assert(all[front.len() as int] == rows[k]);
    } else {
        row_under_top(rows, n - 1, k);
        let j = choose|j: int| 0 <= j < front.len() && front[j] == rows[k];
        assert(all[j] == rows[k]);
    }
}

proof fn row_under_mid(rows: Seq<RowView>, n: int, k: int)
    requires
        0 <= k < n <= rows.len(),
    ensures
        under_mid(rows, mid_name(rows[k].id), n).contains(rows[k]),
    decreases n,
{
    let mid = mid_name(rows[k].id);
    let all = under_mid(rows, mid, n);
    let front = under_mid(rows, mid, n - 1);
    if k == n - 1 {
        assert(all[front.len() as int] == rows[k]);
    } else {
        row_under_mid(rows, n - 1, k);
        let j = choose|j: int| 0 <= j < front.len() && front[j] == rows[k];
        assert(all[j] == rows[k]);
    }
}

proof fn count_is_part(rows: Seq<RowView>, k: int)
    requires
        0 <= k < rows.len(),
    ensures
        sum(rows) >= rows[k].count,
    decreases rows.len(),
{
    if k < rows.len() - 1 {
        assert(rows.drop_last()[k] == rows[k]);
        count_is_part(rows.drop_last(), k);
    }
}

/// The count of a branch is that of its leaves together, and a tree
/// overflows with more than six values.
pub proof fn branches_count_their_leaves(
    tree: ApplicationTree,
    values: Seq<FacetValueCount>,
    chosen: Seq<u8>,
    a: int,
    b: int,
)
    requires
        is_tree(tree, values, chosen),
        0 <= a < tree.tops@.len(),
        0 <= b < tree.tops@[a].mids@.len(),
        tree.tops@[a].mids@[b].label@.len() > 0,
    ensures
        tree.tops@[a].mids@[b].total == leaf_sum(tree.tops@[a].mids@[b].leaves@),
        tree.overflows <==> tree.rows > 6,
{
    let rows = rows_of(values, values.len() as int);
    let tops = first_seen(top_names(rows), rows.len() as int);
    let below = top_rows(rows, tops[a]);
    let mids = mids_below(below);
    assert(top_shows(tree.tops@[a], tops[a], below, chosen));
    let mid = tree.tops@[a].mids@[b];
    let last = mid_rows(below, mids[b]);
    assert(mid_shows(mid, mids[b], last, chosen));
    leaves_sum_up(mid.leaves@, last, chosen);
}

/// The counts of leaves together.
pub open spec fn leaf_sum(leaves: Seq<LeafRow>) -> nat
    decreases leaves.len(),
{
    if leaves.len() == 0 {
        0
    } else {
        leaf_sum(leaves.drop_last()) + leaves.last().count as nat
    }
}

proof fn leaves_sum_up(leaves: Seq<LeafRow>, rows: Seq<RowView>, chosen: Seq<u8>)
    requires
        leaves.len() == rows.len(),
        forall|k: int| 0 <= k < rows.len() ==> leaf_shows(#[trigger] leaves[k], rows[k], chosen),
    ensures
        leaf_sum(leaves) == sum(rows),
    decreases rows.len(),
{
    if rows.len() > 0 {
        assert(leaf_shows(leaves[rows.len() - 1], rows[rows.len() - 1], chosen));
        assert forall|k: int| 0 <= k < rows.drop_last().len() implies leaf_shows(
            #[trigger] leaves.drop_last()[k],
            rows.drop_last()[k],
            chosen,
        ) by {
            assert(leaves.drop_last()[k] == leaves[k]);
        }
        leaves_sum_up(leaves.drop_last(), rows.drop_last(), chosen);
    }
}

} // verus!
