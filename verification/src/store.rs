//! The overlay store: for each indicator, the day of its most recent mark.

use crate::calendar::{within_window, Day};
use crate::catalog::Catalog;
use crate::error::StoreError;
use crate::names::{
    ascending, compare_names, lemma_name_order_strict_total, name_before, names_of, NameOrder,
};
use vstd::prelude::*;

verus! {

/// A persisted row: an indicator and the day it was last marked as updated.
#[derive(Clone, Debug, PartialEq, Eq)]
pub struct OverlayRecord {
    pub indicator: String,
    pub marked_at: Day,
}

/// A row as a pair of plain values: the indicator's name and the day number.
pub type Row = (Seq<char>, int);

/// The rows held by a list of records, in the list's order.
pub open spec fn rows_of(records: Seq<OverlayRecord>) -> Seq<Row> {
    Seq::new(records.len(), |i: int| (records[i].indicator@, records[i].marked_at@))
}

/// The names of `rows`, in order.
pub open spec fn row_names(rows: Seq<Row>) -> Seq<Seq<char>> {
    Seq::new(rows.len(), |i: int| rows[i].0)
}

/// Whether some row of `rows` is for `name`.
pub open spec fn has_row(rows: Seq<Row>, name: Seq<char>) -> bool {
    exists|i: int| 0 <= i < rows.len() && rows[i].0 == name
}

/// The position of a row for `name` in `rows`.
pub open spec fn row_index(rows: Seq<Row>, name: Seq<char>) -> int {
    choose|i: int| 0 <= i < rows.len() && rows[i].0 == name
}

/// The marks that `rows` record: each indicator with a row, and its day.
pub open spec fn marks_of(rows: Seq<Row>) -> Map<Seq<char>, int> {
    Map::new(|name: Seq<char>| has_row(rows, name), |name: Seq<char>| rows[row_index(rows, name)].1)
}

/// The marks that are left when `rows` are written one after another into
/// an empty store for the indicators of `catalog`: a later row for an
/// indicator replaces an earlier one, and a row for a name outside the
/// catalog is passed over.
pub open spec fn restored(catalog: Seq<Seq<char>>, rows: Seq<Row>) -> Map<Seq<char>, int>
    decreases rows.len(),
{
    if rows.len() == 0 {
        Map::empty()
    } else {
        let earlier = restored(catalog, rows.drop_last());
        if catalog.contains(rows.last().0) {
            earlier.insert(rows.last().0, rows.last().1)
        } else {
            earlier
        }
    }
}

/// The indicators of `marks` whose overlay shows on day `today`.
pub open spec fn showing(marks: Map<Seq<char>, int>, today: int) -> Set<Seq<char>> {
    Set::new(|name: Seq<char>| marks.dom().contains(name) && within_window(marks[name], today))
}

/// In rows with ascending names, each row is the one that `marks_of` finds
/// for its name.
proof fn lemma_row_found(rows: Seq<Row>, i: int)
    requires
        ascending(row_names(rows)),
        0 <= i < rows.len(),
    ensures
        has_row(rows, rows[i].0),
        row_index(rows, rows[i].0) == i,
        marks_of(rows).dom().contains(rows[i].0),
        marks_of(rows)[rows[i].0] == rows[i].1,
{
    let names = row_names(rows);
    let j = row_index(rows, rows[i].0);
    assert(0 <= j < rows.len() && rows[j].0 == rows[i].0);
    if j != i {
        lemma_name_order_strict_total(names[i], names[j], names[i]);
        if j < i {
            assert(name_before(names[j], names[i]));
        } else {
            assert(name_before(names[i], names[j]));
        }
    }
}

/// Where `name` belongs at position `p` of ascending rows and the row there,
/// if any, is for a later name, no row is for `name`.
proof fn lemma_row_absent(rows: Seq<Row>, name: Seq<char>, p: int)
    requires
        ascending(row_names(rows)),
        0 <= p <= rows.len(),
        forall|i: int| 0 <= i < p ==> name_before(#[trigger] rows[i].0, name),
        p < rows.len() ==> name_before(name, rows[p].0),
    ensures
        !has_row(rows, name),
        forall|i: int| p <= i < rows.len() ==> name_before(name, #[trigger] rows[i].0),
{
    let names = row_names(rows);
    assert forall|i: int| p <= i < rows.len() implies name_before(name, #[trigger] rows[i].0) by {
        if i > p {
            assert(name_before(names[p], names[i]));
            lemma_name_order_strict_total(name, rows[p].0, rows[i].0);
        }
    }
    if has_row(rows, name) {
        let i = row_index(rows, name);
        lemma_name_order_strict_total(name, name, name);
    }
}

/// Putting a new row at its place in ascending rows keeps them ascending and
/// adds its mark.
proof fn lemma_rows_insert(rows: Seq<Row>, p: int, row: Row)
    requires
        ascending(row_names(rows)),
        0 <= p <= rows.len(),
        forall|i: int| 0 <= i < p ==> name_before(#[trigger] rows[i].0, row.0),
        forall|i: int| p <= i < rows.len() ==> name_before(row.0, #[trigger] rows[i].0),
    ensures
        ascending(row_names(rows.insert(p, row))),
        marks_of(rows.insert(p, row)) == marks_of(rows).insert(row.0, row.1),
{
    let after = rows.insert(p, row);
    let names = row_names(rows);
    let names_after = row_names(after);
    assert forall|i: int, j: int| 0 <= i < j < names_after.len() implies name_before(
        names_after[i],
        names_after[j],
    ) by {
        let i0 = if i < p { i } else { i - 1 };
        let j0 = if j < p { j } else { j - 1 };
        if i != p && j != p {
            assert(name_before(names[i0], names[j0]));
        }
    }
    assert forall|name: Seq<char>|
        marks_of(after).dom().contains(name) <==> marks_of(rows).insert(
            row.0,
            row.1,
        ).dom().contains(name) by {
        if has_row(rows, name) {
            let i = row_index(rows, name);
            let i1 = if i < p { i } else { i + 1 };
            assert(after[i1].0 == name);
        }
        if name == row.0 {
            assert(after[p].0 == name);
        }
        if has_row(after, name) {
            let i = row_index(after, name);
            if i != p {
                let i0 = if i < p { i } else { i - 1 };
                assert(rows[i0].0 == name);
            }
        }
    }
    assert forall|name: Seq<char>| marks_of(after).dom().contains(name) implies marks_of(
        after,
    )[name] == marks_of(rows).insert(row.0, row.1)[name] by {
        let i = row_index(after, name);
        lemma_row_found(after, i);
        if i != p {
            let i0 = if i < p { i } else { i - 1 };
            assert(rows[i0] == after[i]);
            lemma_row_found(rows, i0);
            lemma_name_order_strict_total(rows[i0].0, row.0, rows[i0].0);
        }
    }
    assert(marks_of(after) =~= marks_of(rows).insert(row.0, row.1));
}

/// Giving the row at `p` a new day keeps the names and changes that mark.
proof fn lemma_rows_update(rows: Seq<Row>, p: int, day: int)
    requires
        ascending(row_names(rows)),
        0 <= p < rows.len(),
    ensures
        row_names(rows.update(p, (rows[p].0, day))) == row_names(rows),
        marks_of(rows.update(p, (rows[p].0, day))) == marks_of(rows).insert(rows[p].0, day),
{
    let after = rows.update(p, (rows[p].0, day));
    assert(row_names(after) =~= row_names(rows));
    assert forall|name: Seq<char>|
        marks_of(after).dom().contains(name) <==> marks_of(rows).insert(
            rows[p].0,
            day,
        ).dom().contains(name) by {
        if has_row(rows, name) {
            let i = row_index(rows, name);
            assert(after[i].0 == name);
        }
        if name == rows[p].0 {
            assert(after[p].0 == name);
        }
        if has_row(after, name) {
            let i = row_index(after, name);
            assert(rows[i].0 == name);
        }
    }
    assert forall|name: Seq<char>| marks_of(after).dom().contains(name) implies marks_of(
        after,
    )[name] == marks_of(rows).insert(rows[p].0, day)[name] by {
        let i = row_index(after, name);
        assert(after[i].0 == name && rows[i].0 == name);
        lemma_row_found(after, i);
        lemma_row_found(rows, i);
        lemma_row_found(rows, p);
    }
    assert(marks_of(after) =~= marks_of(rows).insert(rows[p].0, day));
}

/// Taking the row at `p` out of ascending rows keeps them ascending and
/// drops its mark.
proof fn lemma_rows_remove(rows: Seq<Row>, p: int)
    requires
        ascending(row_names(rows)),
        0 <= p < rows.len(),
    ensures
        ascending(row_names(rows.remove(p))),
        marks_of(rows.remove(p)) == marks_of(rows).remove(rows[p].0),
{
    let after = rows.remove(p);
    let names = row_names(rows);
    let names_after = row_names(after);
    assert forall|i: int, j: int| 0 <= i < j < names_after.len() implies name_before(
        names_after[i],
        names_after[j],
    ) by {
        let i1 = if i < p { i } else { i + 1 };
        let j1 = if j < p { j } else { j + 1 };
        assert(name_before(names[i1], names[j1]));
    }
    assert forall|name: Seq<char>|
        marks_of(after).dom().contains(name) <==> marks_of(rows).remove(rows[p].0).dom().contains(
            name,
        ) by {
        if has_row(rows, name) && name != rows[p].0 {
            let i = row_index(rows, name);
            let i0 = if i < p { i } else { i - 1 };
            assert(after[i0].0 == name);
        }
        if has_row(after, name) {
            let i = row_index(after, name);
            let i1 = if i < p { i } else { i + 1 };
            assert(rows[i1].0 == name);
            lemma_row_found(rows, i1);
            lemma_row_found(rows, p);
        }
    }
    assert forall|name: Seq<char>| marks_of(after).dom().contains(name) implies marks_of(
        after,
    )[name] == marks_of(rows).remove(rows[p].0)[name] by {
        let i = row_index(after, name);
        lemma_row_found(after, i);
        let i1 = if i < p { i } else { i + 1 };
        assert(rows[i1] == after[i]);
        lemma_row_found(rows, i1);
    }
    assert(marks_of(after) =~= marks_of(rows).remove(rows[p].0));
}

/// Rows with ascending names record as many marks as there are rows.
proof fn lemma_marks_count(rows: Seq<Row>)
    requires
        ascending(row_names(rows)),
    ensures
        marks_of(rows).dom().finite(),
        marks_of(rows).dom().len() == rows.len(),
    decreases rows.len(),
{
    if rows.len() == 0 {
        assert(marks_of(rows).dom() =~= Set::<Seq<char>>::empty());
    } else {
        let front = rows.drop_last();
        let last = rows.last();
        let n = front.len() as int;
        assert forall|i: int, j: int| 0 <= i < j < front.len() implies name_before(
            row_names(front)[i],
            row_names(front)[j],
        ) by {
            assert(name_before(row_names(rows)[i], row_names(rows)[j]));
        }
        assert forall|i: int| 0 <= i < n implies name_before(#[trigger] front[i].0, last.0) by {
            assert(name_before(row_names(rows)[i], row_names(rows)[n]));
        }
        lemma_marks_count(front);
        lemma_row_absent(front, last.0, n);
        lemma_rows_insert(front, n, last);
        assert(front.insert(n, last) =~= rows);
        assert(marks_of(rows).dom() =~= marks_of(front).dom().insert(last.0));
    }
}

/// The overlay store. It holds at most one record for each indicator, all of
/// them for indicators of its catalog, in ascending order of name.
#[derive(Debug)]
pub struct OverlayStore {
    catalog: Catalog,
    records: Vec<OverlayRecord>,
}

impl View for OverlayStore {
    type V = Map<Seq<char>, int>;

    /// The marks of the store: each indicator that has a record, with the
    /// number of the day it was last marked.
    closed spec fn view(&self) -> Map<Seq<char>, int> {
        marks_of(rows_of(self.records@))
    }
}

/// Finds where a record for `name` is or would be: the number of records
/// with an earlier name, and whether the record at that place is for `name`.
fn find_record(records: &Vec<OverlayRecord>, name: &str) -> (r: (usize, bool))
    ensures
        r.0 <= records.len(),
        forall|i: int| 0 <= i < r.0 ==> name_before(#[trigger] rows_of(records@)[i].0, name@),
        r.1 ==> r.0 < records.len() && rows_of(records@)[r.0 as int].0 == name@,
        !r.1 && r.0 < records.len() ==> name_before(name@, rows_of(records@)[r.0 as int].0),
{
    let mut i: usize = 0;
    while i < records.len()
        invariant
            i <= records.len(),
            forall|j: int| 0 <= j < i ==> name_before(#[trigger] rows_of(records@)[j].0, name@),
        decreases records.len() - i,
    {
        match compare_names(records[i].indicator.as_str(), name) {
            NameOrder::Before => {},
            NameOrder::Same => {
                return (i, true);
            },
            NameOrder::After => {
                proof {
                    lemma_name_order_strict_total(name@, records[i as int].indicator@, name@);
                }
                return (i, false);
            },
        }
        i += 1;
    }
    (i, false)
}

impl OverlayStore {
    #[verifier::type_invariant]
    spec fn well_formed(self) -> bool {
        &&& ascending(row_names(rows_of(self.records@)))
        &&& forall|i: int|
            0 <= i < self.records.len() ==> self.catalog.has(#[trigger] self.records[i].indicator@)
    }

    /// The names of the store's catalog.
    pub closed spec fn catalog_names(&self) -> Seq<Seq<char>> {
        self.catalog@
    }

    /// Whether `name` is an indicator of the store's catalog.
    pub open spec fn accepts(&self, name: Seq<char>) -> bool {
        self.catalog_names().contains(name)
    }

    /// The rows of the store, in the order in which they are kept.
    pub closed spec fn rows(&self) -> Seq<Row> {
        rows_of(self.records@)
    }

    /// An empty store for the indicators of `catalog`.
    pub fn new(catalog: Catalog) -> (store: OverlayStore)
        ensures
            store@ == Map::<Seq<char>, int>::empty(),
            store.rows().len() == 0,
            store.catalog_names() == catalog@,
    {
        let store = OverlayStore { catalog, records: Vec::new() };
        assert(store@ =~= Map::<Seq<char>, int>::empty());
        store
    }

    /// Number of records in the store: one for each indicator that has a
    /// mark.
    pub fn len(&self) -> (n: usize)
        ensures
            n == self.rows().len(),
            self@.dom().finite(),
            n == self@.dom().len(),
    {
        proof {
            use_type_invariant(self);
            lemma_marks_count(rows_of(self.records@));
        }
        self.records.len()
    }

    /// The store's catalog.
    pub fn catalog(&self) -> (catalog: &Catalog)
        ensures
            catalog@ == self.catalog_names(),
    {
        &self.catalog
    }

    /// The store's records, in ascending order of name: what is to be
    /// persisted.
    pub fn records(&self) -> (records: &Vec<OverlayRecord>)
        ensures
            rows_of(records@) == self.rows(),
            ascending(row_names(self.rows())),
            marks_of(self.rows()) == self@,
            forall|i: int| 0 <= i < self.rows().len() ==> self.accepts(#[trigger] self.rows()[i].0),
    {
        proof {
            use_type_invariant(self);
            assert forall|i: int| 0 <= i < self.rows().len() implies self.accepts(
                #[trigger] self.rows()[i].0,
            ) by {
                assert(self.catalog.has(self.records[i].indicator@));
            }
        }
        &self.records
    }

    /// The day on which `indicator` was last marked, if it has a record.
    pub fn marked_at(&self, indicator: &str) -> (day: Option<Day>)
        ensures
            day is Some <==> self@.dom().contains(indicator@),
            day matches Some(d) ==> d@ == self@[indicator@],
    {
        proof {
            use_type_invariant(self);
        }
        let (p, found) = find_record(&self.records, indicator);
        proof {
            let rows = rows_of(self.records@);
            if found {
                lemma_row_found(rows, p as int);
            } else {
                lemma_row_absent(rows, indicator@, p as int);
            }
        }
        if found {
            Some(self.records[p].marked_at)
        } else {
            None
        }
    }
}

/// Marks `ind` as updated on day `now`: writes its record, or renews the day
/// of the one it has. A name outside the catalog is refused and the store
/// stays as it was.
pub fn add_indicator(store: &mut OverlayStore, ind: &str, now: Day) -> (r: Result<(), StoreError>)
    ensures
        final(store).catalog_names() == old(store).catalog_names(),
        old(store).accepts(ind@) ==> r is Ok && final(store)@ == old(store)@.insert(ind@, now@),
        old(store).accepts(ind@) ==> final(store).rows().len() == old(store).rows().len() + (if old(
            store,
        )@.dom().contains(ind@) {
            0int
        } else {
            1int
        }),
        !old(store).accepts(ind@) ==> r == Err::<(), StoreError>(StoreError::InvalidIndicator)
            && final(store)@ == old(store)@ && final(store).rows() == old(store).rows(),
{
    proof {
        use_type_invariant(&*store);
    }
    if !store.catalog.contains(ind) {
        return Err(StoreError::InvalidIndicator);
    }
    let (p, found) = find_record(&store.records, ind);
    let record = OverlayRecord { indicator: ind.to_owned(), marked_at: now };
    let ghost rows = rows_of(store.records@);
    // The records leave the store while they change and come back in order.
    let mut records: Vec<OverlayRecord> = Vec::new();
    core::mem::swap(&mut store.records, &mut records);
    if found {
        records.set(p, record);
        proof {
            lemma_row_found(rows, p as int);
            lemma_rows_update(rows, p as int, now@);
            assert(rows_of(records@) =~= rows.update(p as int, (rows[p as int].0, now@)));
        }
    } else {
        records.insert(p, record);
        proof {
            lemma_row_absent(rows, ind@, p as int);
            lemma_rows_insert(rows, p as int, (ind@, now@));
            assert(rows_of(records@) =~= rows.insert(p as int, (ind@, now@)));
        }
    }
    core::mem::swap(&mut store.records, &mut records);
    Ok(())
}

/// Removes the record of `ind`. Where `ind` has none, the store stays as it
/// was and the answer is `NotFound`.
pub fn remove_indicator(store: &mut OverlayStore, ind: &str) -> (r: Result<(), StoreError>)
    ensures
        final(store).catalog_names() == old(store).catalog_names(),
        old(store)@.dom().contains(ind@) ==> r is Ok && final(store)@ == old(store)@.remove(ind@),
        old(store)@.dom().contains(ind@) ==> final(store).rows().len() == old(store).rows().len() - 1,
        !old(store)@.dom().contains(ind@) ==> r == Err::<(), StoreError>(StoreError::NotFound)
            && final(store)@ == old(store)@ && final(store).rows() == old(store).rows(),
{
    proof {
        use_type_invariant(&*store);
    }
    let (p, found) = find_record(&store.records, ind);
    let ghost rows = rows_of(store.records@);
    if found {
        // The records leave the store while they change and come back in order.
        let mut records: Vec<OverlayRecord> = Vec::new();
        core::mem::swap(&mut store.records, &mut records);
        records.remove(p);
        proof {
            lemma_row_found(rows, p as int);
            lemma_rows_remove(rows, p as int);
            assert(rows_of(records@) =~= rows.remove(p as int));
        }
        core::mem::swap(&mut store.records, &mut records);
        Ok(())
    } else {
        proof {
            lemma_row_absent(rows, ind@, p as int);
        }
        Err(StoreError::NotFound)
    }
}

/// Whether one of the first `n` rows is for `name` and shows on day `today`.
spec fn shows_among(rows: Seq<Row>, n: int, today: int, name: Seq<char>) -> bool {
    exists|j: int| 0 <= j < n && j < rows.len() && rows[j].0 == name && within_window(rows[j].1, today)
}

/// Lists the indicators whose overlay shows on day `now`: those marked no
/// more than `WINDOW_DAYS` days before, in ascending order of name, each
/// once. The store is not changed.
pub fn get_indicators(store: &OverlayStore, now: Day) -> (names: Vec<String>)
    ensures
        ascending(names_of(names@)),
        names_of(names@).to_set() == showing(store@, now@),
{
    proof {
        use_type_invariant(store);
    }
    let ghost rows = rows_of(store.records@);
    let mut names: Vec<String> = Vec::new();
    let mut i: usize = 0;
    while i < store.records.len()
        invariant
            i <= store.records.len(),
            rows == rows_of(store.records@),
            ascending(row_names(rows)),
            ascending(names_of(names@)),
            forall|k: int|
                0 <= k < names.len() ==> shows_among(rows, i as int, now@, #[trigger] names[k]@),
            forall|j: int|
                0 <= j < i && within_window(rows[j].1, now@) ==> names_of(names@).contains(
                    #[trigger] rows[j].0,
                ),
        decreases store.records.len() - i,
    {
        let record = &store.records[i];
        let ghost before = names_of(names@);
        if record.marked_at.shows_on(now) {
            names.push(record.indicator.clone());
            proof {
                let after = names_of(names@);
                assert(after =~= before.push(rows[i as int].0));
                assert forall|a: int, b: int| 0 <= a < b < after.len() implies name_before(
                    after[a],
                    after[b],
                ) by {
                    if b == after.len() - 1 {
                        assert(shows_among(rows, i as int, now@, names[a]@));
                        let j = choose|j: int|
                            0 <= j < i && j < rows.len() && rows[j].0 == names[a]@ && within_window(
                                rows[j].1,
                                now@,
                            );
                        assert(name_before(row_names(rows)[j], row_names(rows)[i as int]));
                    } else {
                        assert(name_before(before[a], before[b]));
                    }
                }
                assert(after[after.len() - 1] == rows[i as int].0);
            }
        }
        proof {
            let after = names_of(names@);
            assert forall|j: int| 0 <= j < i + 1 && within_window(rows[j].1, now@) implies after.contains(
                #[trigger] rows[j].0,
            ) by {
                if j < i {
                    let k = choose|k: int| 0 <= k < before.len() && before[k] == rows[j].0;
                    assert(after[k] == rows[j].0);
                }
            }
            assert forall|k: int| 0 <= k < names.len() implies shows_among(
                rows,
                i + 1,
                now@,
                #[trigger] names[k]@,
            ) by {
                if k < before.len() {
                    assert(shows_among(rows, i as int, now@, names[k]@));
                } else {
                    assert(rows[i as int].0 == names[k]@);
                }
            }
        }
        i += 1;
    }
    proof {
        let listed = names_of(names@);
        assert forall|name: Seq<char>| listed.contains(name) <==> showing(store@, now@).contains(
            name,
        ) by {
            if listed.contains(name) {
                let k = choose|k: int| 0 <= k < listed.len() && listed[k] == name;
                assert(shows_among(rows, i as int, now@, names[k]@));
                let j = choose|j: int|
                    0 <= j < i && j < rows.len() && rows[j].0 == name && within_window(
                        rows[j].1,
                        now@,
                    );
                lemma_row_found(rows, j);
            }
            if showing(store@, now@).contains(name) {
                let j = row_index(rows, name);
                lemma_row_found(rows, j);
            }
        }
        assert(listed.to_set() =~= showing(store@, now@));
    }
    names
}

/// An indicator shows on the day it is added, and on every day on which
/// that day is within the window.
pub proof fn law_added_shows(marks: Map<Seq<char>, int>, ind: Seq<char>, now: int)
    ensures
        showing(marks.insert(ind, now), now).contains(ind),
        forall|today: int|
            within_window(now, today) ==> #[trigger] showing(marks.insert(ind, now), today).contains(
                ind,
            ),
{
}

/// A removed indicator shows on no day.
pub proof fn law_removed_hidden(marks: Map<Seq<char>, int>, ind: Seq<char>, today: int)
    ensures
        !showing(marks.remove(ind), today).contains(ind),
{
}

/// The window's edge is inclusive: a mark made exactly `WINDOW_DAYS` days
/// before `today` shows, an older one does not, a younger one does.
pub proof fn law_window_edge(marks: Map<Seq<char>, int>, ind: Seq<char>, today: int)
    requires
        marks.dom().contains(ind),
    ensures
        marks[ind] < today - crate::calendar::WINDOW_DAYS ==> !showing(marks, today).contains(ind),
        marks[ind] == today - crate::calendar::WINDOW_DAYS ==> showing(marks, today).contains(ind),
        marks[ind] > today - crate::calendar::WINDOW_DAYS ==> showing(marks, today).contains(ind),
{
}

/// Adding an indicator twice leaves what adding it the second time alone
/// would: one mark for it, on the second day.
pub proof fn law_add_twice(marks: Map<Seq<char>, int>, ind: Seq<char>, first: int, second: int)
    ensures
        marks.insert(ind, first).insert(ind, second) == marks.insert(ind, second),
        marks.insert(ind, first).insert(ind, second)[ind] == second,
{
    assert(marks.insert(ind, first).insert(ind, second) =~= marks.insert(ind, second));
}

/// Rows in ascending order of name hold one row for an indicator at most.
pub proof fn law_one_row_each(rows: Seq<Row>, i: int, j: int)
    requires
        ascending(row_names(rows)),
        0 <= i < rows.len(),
        0 <= j < rows.len(),
        rows[i].0 == rows[j].0,
    ensures
        i == j,
{
    lemma_row_found(rows, i);
    lemma_row_found(rows, j);
}

/// Builds the store for the indicators of `catalog` that holds the persisted
/// `records`. Where two records are for one indicator the later one stays;
/// a record for a name outside the catalog is passed over.
pub fn restore(catalog: Catalog, records: &Vec<OverlayRecord>) -> (store: OverlayStore)
    ensures
        store.catalog_names() == catalog@,
        store@ == restored(catalog@, rows_of(records@)),
{
    let ghost names = catalog@;
    let ghost rows = rows_of(records@);
    let mut store = OverlayStore::new(catalog);
    let mut i: usize = 0;
    while i < records.len()
        invariant
            i <= records.len(),
            rows == rows_of(records@),
            store.catalog_names() == names,
            store@ == restored(names, rows.take(i as int)),
        decreases records.len() - i,
    {
        let record = &records[i];
        let _ = add_indicator(&mut store, record.indicator.as_str(), record.marked_at);
        proof {
            let next = rows.take(i + 1);
            assert(next.drop_last() =~= rows.take(i as int));
            assert(next.last() == rows[i as int]);
        }
        i += 1;
    }
    proof {
        assert(rows.take(records.len() as int) =~= rows);
    }
    store
}

} // verus!
