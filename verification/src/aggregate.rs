//! A hash table of groups.
//!
//! The groups stand in pages of rows. The table has a power of two of cells; a cell is empty or
//! names the row of a group by its page and its offset in the page, together with the salt, the
//! high bits of the group's hash. A group is looked for from the cell of its hash onwards until
//! an empty cell is met.

use vstd::arithmetic::power2::lemma2_to64;
use vstd::arithmetic::power2::lemma_pow2_pos;
use vstd::arithmetic::power2::lemma_pow2_unfold;
use vstd::arithmetic::power2::pow2;
use vstd::prelude::*;

use crate::column::rows_in;
use crate::types::all_seen;
use crate::types::scalar_view;
use crate::types::scalar_views;
use crate::types::seen;
use crate::types::Column;
use crate::types::ColumnView;
use crate::types::DataType;
use crate::types::Scalar;
use crate::types::ScalarView;

verus! {

/// A cell: `page_nr` is 0 where it is empty, otherwise one more than the number of the page.
#[derive(Clone, Copy, Debug, PartialEq, Eq, Structural)]
pub struct Entry {
    pub salt: u16,
    pub page_offset: u16,
    pub page_nr: u32,
}

/// A group: its hash and the values that its rows have in common, as they are seen.
#[derive(Debug)]
pub struct GroupRow {
    pub hash: u64,
    pub key: Vec<Scalar>,
}

pub struct GroupView {
    pub hash: u64,
    pub key: Seq<ScalarView>,
}

impl View for GroupRow {
    type V = GroupView;

    open spec fn view(&self) -> GroupView {
        GroupView { hash: self.hash, key: all_seen(scalar_views(self.key@)) }
    }
}

/// The groups, in pages of `row_per_page` rows.
#[derive(Debug)]
pub struct Payload {
    pub rows: Vec<GroupRow>,
    pub row_per_page: usize,
}

#[derive(Debug)]
pub struct AggregateHashTable {
    payload: Payload,
    entries: Vec<Entry>,
    capacity: usize,
}

/// What a probe works on: the hash of each row, and for each row the group that it is of.
#[derive(Debug)]
pub struct ProbeState {
    pub group_hashes: Vec<u64>,
    pub addresses: Vec<usize>,
}

pub open spec fn group_views(rows: Seq<GroupRow>) -> Seq<GroupView> {
    rows.map_values(|r: GroupRow| r@)
}

/// The values of row `i` in the group columns; all missing values are one.
pub open spec fn row_key(columns: Seq<ColumnView>, i: int) -> Seq<ScalarView> {
    columns.map_values(|c: ColumnView| seen(c.rows[i]))
}

pub open spec fn column_views(columns: Seq<Column>) -> Seq<ColumnView> {
    columns.map_values(|c: Column| c@)
}

pub open spec fn salt_of(hash: u64) -> u16 {
    (hash >> 48) as u16
}

pub open spec fn occupied(e: Entry) -> bool {
    e.page_nr != 0
}

/// The row that a cell names.
pub open spec fn entry_row(e: Entry, row_per_page: int) -> int {
    (e.page_nr - 1) * row_per_page + e.page_offset
}

/// The cell that is looked at in step `k` of a search.
pub open spec fn cell(hash: u64, k: int, capacity: int) -> int {
    (hash as int + k) % capacity
}

/// How many cells are not empty.
pub open spec fn occupied_count(entries: Seq<Entry>) -> nat
    decreases entries.len(),
{
    if entries.len() == 0 {
        0
    } else {
        occupied_count(entries.drop_last()) + if occupied(entries.last()) {
            1nat
        } else {
            0
        }
    }
}

pub open spec fn power_of_two(n: nat) -> bool
    decreases n,
{
    n == 1 || (n > 1 && n % 2 == 0 && power_of_two(n / 2))
}

/// What a table holds.
pub struct TableView {
    pub groups: Seq<GroupView>,
    pub entries: Seq<Entry>,
    pub row_per_page: int,
}

/// A cell names a group of its salt.
pub open spec fn entry_ok(t: TableView, e: Entry) -> bool {
    occupied(e) ==> {
        &&& e.page_offset < t.row_per_page
        &&& 0 <= entry_row(e, t.row_per_page) < t.groups.len()
        &&& e.salt == salt_of(t.groups[entry_row(e, t.row_per_page)].hash)
    }
}

/// Every cell that is not empty names a group, there are as many of them as groups, and the
/// cells can be counted.
pub open spec fn table_ok(t: TableView) -> bool {
    &&& power_of_two(t.entries.len())
    &&& 1 <= t.row_per_page <= u16::MAX
    &&& occupied_count(t.entries) == t.groups.len()
    &&& forall|s: int| 0 <= s < t.entries.len() ==> entry_ok(t, #[trigger] t.entries[s])
}

/// Step `k` of the search for a group finds it, and no empty cell is met before.
pub open spec fn found_at(t: TableView, r: int, k: int) -> bool {
    let n = t.entries.len() as int;
    let h = t.groups[r].hash;
    &&& 0 <= k < n
    &&& occupied(t.entries[cell(h, k, n)])
    &&& entry_row(t.entries[cell(h, k, n)], t.row_per_page) == r
    &&& forall|j: int| 0 <= j < k ==> occupied(#[trigger] t.entries[cell(h, j, n)])
}

pub open spec fn is_found(t: TableView, r: int) -> bool {
    exists|k: int| found_at(t, r, k)
}

/// The search for every group finds it.
pub open spec fn all_found(t: TableView) -> bool {
    forall|r: int| 0 <= r < t.groups.len() ==> #[trigger] is_found(t, r)
}

/// No two groups have the same values.
pub open spec fn groups_distinct(groups: Seq<GroupView>) -> bool {
    forall|a: int, b: int|
        #![trigger groups[a], groups[b]]
        0 <= a < b < groups.len() ==> groups[a].key != groups[b].key
}

/// Equal values have equal hashes, in the table and among the rows to be added.
pub open spec fn hashes_agree(groups: Seq<GroupView>, hashes: Seq<u64>, columns: Seq<ColumnView>, n: int) -> bool {
    &&& forall|r: int, i: int|
        #![trigger groups[r], hashes[i]]
        0 <= r < groups.len() && 0 <= i < n && groups[r].key == row_key(columns, i) ==> groups[r].hash == hashes[i]
    &&& forall|i: int, j: int|
        #![trigger hashes[i], hashes[j]]
        0 <= i < n && 0 <= j < n && row_key(columns, i) == row_key(columns, j) ==> hashes[i] == hashes[j]
}

proof fn lemma_count_update(entries: Seq<Entry>, i: int, e: Entry)
    requires
        0 <= i < entries.len(),
    ensures
        occupied_count(entries.update(i, e)) == occupied_count(entries) - (if occupied(entries[i]) {
            1int
        } else {
            0
        }) + (if occupied(e) {
            1int
        } else {
            0
        }),
    decreases entries.len(),
{
    if i == entries.len() - 1 {
        assert(entries.update(i, e).drop_last() =~= entries.drop_last());
    } else {
        assert(entries.update(i, e).drop_last() =~= entries.drop_last().update(i, e));
        lemma_count_update(entries.drop_last(), i, e);
    }
}

/// Where all of the first `n` cells are taken, at least `n` are.
proof fn lemma_count_full(entries: Seq<Entry>, n: int)
    requires
        0 <= n <= entries.len(),
        forall|i: int| 0 <= i < n ==> occupied(#[trigger] entries[i]),
    ensures
        occupied_count(entries) >= n,
    decreases entries.len(),
{
    if entries.len() > 0 {
        if n == entries.len() {
            assert(occupied(entries[n - 1]));
            lemma_count_full(entries.drop_last(), n - 1);
        } else {
            lemma_count_full(entries.drop_last(), n);
        }
    }
}

proof fn lemma_count_bound(entries: Seq<Entry>)
    ensures
        occupied_count(entries) <= entries.len(),
    decreases entries.len(),
{
    if entries.len() > 0 {
        lemma_count_bound(entries.drop_last());
    }
}

proof fn lemma_cell_range(hash: u64, k: int, n: int)
    requires
        n > 0,
        k >= 0,
    ensures
        0 <= cell(hash, k, n) < n,
{
    vstd::arithmetic::div_mod::lemma_mod_bound(hash as int + k, n);
}

/// Where a search from a cell round the whole table meets no empty cell, there is none.
proof fn lemma_search_covers(entries: Seq<Entry>, hash: u64)
    requires
        entries.len() > 0,
        forall|k: int| 0 <= k < entries.len() ==> occupied(#[trigger] entries[cell(hash, k, entries.len() as int)]),
    ensures
        occupied_count(entries) == entries.len(),
{
    let n = entries.len() as int;
    assert forall|s: int| 0 <= s < n implies occupied(#[trigger] entries[s]) by {
        let start = (hash as int) % n;
        vstd::arithmetic::div_mod::lemma_mod_bound(hash as int, n);
        let k = if s >= start {
            s - start
        } else {
            s - start + n
        };
        assert(cell(hash, k, n) == (k + start) % n) by {
            vstd::arithmetic::div_mod::lemma_add_mod_noop(hash as int, k, n);
            vstd::arithmetic::div_mod::lemma_add_mod_noop(start, k, n);
            vstd::arithmetic::div_mod::lemma_mod_twice(hash as int, n);
        }
        if s >= start {
            vstd::arithmetic::div_mod::lemma_small_mod(s as nat, n as nat);
        } else {
            vstd::arithmetic::div_mod::lemma_mod_add_multiples_vanish(s, n);
            vstd::arithmetic::div_mod::lemma_small_mod(s as nat, n as nat);
        }
        assert(cell(hash, k, n) == s);
    }
    lemma_count_full(entries, n);
    lemma_count_bound(entries);
}

/// The page and the offset of a row name it.
proof fn lemma_row_split(row: int, row_per_page: int)
    requires
        row >= 0,
        row_per_page > 0,
    ensures
        (row / row_per_page) * row_per_page + row % row_per_page == row,
        0 <= row % row_per_page < row_per_page,
        0 <= row / row_per_page <= row,
{
    vstd::arithmetic::div_mod::lemma_fundamental_div_mod(row, row_per_page);
    vstd::arithmetic::div_mod::lemma_mod_bound(row, row_per_page);
    vstd::arithmetic::div_mod::lemma_div_pos_is_pos(row, row_per_page);
    vstd::arithmetic::div_mod::lemma_div_is_ordered_by_denominator(row, 1, row_per_page);
    assert(row_per_page * (row / row_per_page) == (row / row_per_page) * row_per_page) by (nonlinear_arith);
}

impl AggregateHashTable {
    pub closed spec fn table(&self) -> TableView {
        TableView {
            groups: group_views(self.payload.rows@),
            entries: self.entries@,
            row_per_page: self.payload.row_per_page as int,
        }
    }

    pub closed spec fn wf(&self) -> bool {
        self.capacity == self.entries@.len() && table_ok(self.table()) && all_found(self.table())
    }

    pub open spec fn groups(&self) -> Seq<GroupView> {
        self.table().groups
    }

    /// A table without groups, whose pages hold the given number of rows.
    pub fn new(row_per_page: usize) -> (r: AggregateHashTable)
        requires
            1 <= row_per_page <= u16::MAX,
        ensures
            r.wf(),
            r.groups().len() == 0,
            r.table().entries.len() == 4096,
            r.table().row_per_page == row_per_page,
            all_found(r.table()),
    {
        let capacity: usize = Self::initial_capacity();
        let r = AggregateHashTable {
            payload: Payload { rows: Vec::new(), row_per_page },
            entries: Self::new_entries(capacity),
            capacity,
        };
        proof {
            reveal_with_fuel(power_of_two, 14);
        }
        r
    }

    fn new_entries(capacity: usize) -> (r: Vec<Entry>)
        ensures
            r@ == empty_cells(capacity as nat),
            forall|i: int| 0 <= i < capacity ==> !occupied(#[trigger] r@[i]),
            occupied_count(r@) == 0,
    {
        let mut r: Vec<Entry> = Vec::new();
        let mut i: usize = 0;
        while i < capacity
            invariant
                i <= capacity,
                r@ == empty_cells(i as nat),
                occupied_count(r@) == 0,
            decreases capacity - i,
        {
            let ghost before = r@;
            r.push(Entry { salt: 0, page_offset: 0, page_nr: 0 });
            assert(r@.drop_last() =~= before);
            assert(r@ =~= empty_cells((i + 1) as nat));
            i += 1;
        }
        r
    }

    /// How many groups there are.
    pub fn len(&self) -> (r: usize)
        ensures
            r == self.groups().len(),
    {
        self.payload.rows.len()
    }

    pub fn initial_capacity() -> (r: usize)
        ensures
            r == 4096,
    {
        4096
    }

    /// How many groups the table takes before it grows: two thirds of its cells.
    fn resize_threshold(&self) -> (r: usize)
        requires
            self.wf(),
        ensures
            r == self.table().entries.len() * 2 / 3,
    {
        self.capacity / 3 * 2 + self.capacity % 3 * 2 / 3
    }

    /// The number of cells for a number of groups: the least power of two that is at least one
    /// and a half times that number.
    pub fn get_capacity_for_count(count: usize) -> (r: usize)
        requires
            count <= 0x10_0000_0000_0000,
            count <= usize::MAX / 4,
        ensures
            power_of_two(r as nat),
            r >= at_least_initial(count as int) * 3 / 2,
            forall|p: nat| #[trigger] power_of_two(p) && p >= at_least_initial(count as int) * 3 / 2 ==> r <= p,
    {
        let initial: usize = Self::initial_capacity();
        let n: usize = if count < initial {
            initial
        } else {
            count
        };
        let wanted: usize = n + n / 2;
        let mut p: usize = 1;
        while p < wanted
            invariant
                power_of_two(p as nat),
                p == 1 || p / 2 < wanted,
                wanted <= usize::MAX / 2,
                forall|q: nat| #[trigger] power_of_two(q) && q < p ==> q < wanted,
            decreases usize::MAX - p,
        {
            let ghost before = p;
            p = p * 2;
            proof {
                assert forall|q: nat| #[trigger] power_of_two(q) && q < p implies q < wanted by {
                    if q >= before {
                        lemma_no_power_between(before as nat, q);
                    }
                }
            }
        }
        p
    }
}

pub open spec fn at_least_initial(count: int) -> int {
    if count < 4096 {
        4096
    } else {
        count
    }
}

/// Between a power of two and its double there is none.
proof fn lemma_no_power_between(p: nat, q: nat)
    requires
        power_of_two(p),
        power_of_two(q),
        p <= q < 2 * p,
    ensures
        p == q,
    decreases p,
{
    if p > 1 {
        if q > 1 {
            lemma_no_power_between(p / 2, q / 2);
        }
    }
}

/// The pages for a number of rows can be counted in a cell.
pub open spec fn pages_fit(rows: int, row_per_page: int) -> bool {
    rows / row_per_page < u32::MAX
}

pub open spec fn empty_cells(n: nat) -> Seq<Entry> {
    Seq::new(n, |i: int| Entry { salt: 0, page_offset: 0, page_nr: 0 })
}

/// The cell that names a row.
pub open spec fn entry_of(row: int, row_per_page: int, hash: u64) -> Entry {
    Entry {
        salt: salt_of(hash),
        page_offset: (row % row_per_page) as u16,
        page_nr: (row / row_per_page + 1) as u32,
    }
}

/// Step `k` of the search meets the first empty cell.
pub open spec fn is_first_empty(entries: Seq<Entry>, hash: u64, k: int) -> bool {
    &&& 0 <= k < entries.len()
    &&& !occupied(entries[cell(hash, k, entries.len() as int)])
    &&& forall|j: int| 0 <= j < k ==> occupied(#[trigger] entries[cell(hash, j, entries.len() as int)])
}

/// `n` cells once the first `rows` groups are put into them, each into the first empty cell of
/// its search.
pub open spec fn filled_cells(groups: Seq<GroupView>, rows: nat, n: nat, row_per_page: int) -> Seq<Entry>
    decreases rows,
{
    if rows == 0 {
        empty_cells(n)
    } else {
        let before = filled_cells(groups, (rows - 1) as nat, n, row_per_page);
        let hash = groups[rows - 1].hash;
        let k = choose|k: int| is_first_empty(before, hash, k);
        before.update(cell(hash, k, n as int), entry_of(rows - 1, row_per_page, hash))
    }
}

/// A table with its groups moved to another number of cells.
pub open spec fn resized(t: TableView, n: nat) -> TableView {
    if n == t.entries.len() {
        t
    } else {
        TableView { entries: filled_cells(t.groups, t.groups.len(), n, t.row_per_page), ..t }
    }
}

/// A number of cells doubled until it is above the number of groups.
pub open spec fn enough_cells(cells: nat, groups: nat) -> nat
    decreases (if cells > groups {
        0int
    } else {
        groups - cells + 1
    }),
{
    if cells == 0 || cells > groups {
        cells
    } else {
        enough_cells(cells * 2, groups)
    }
}

/// A table that has grown where the rows to be added ask for it.
pub open spec fn reserved(t: TableView, row_count: int) -> TableView {
    if has_to_grow(t, row_count) {
        resized(t, enough_cells(t.entries.len() * 2, (t.groups.len() + row_count) as nat))
    } else {
        t
    }
}

proof fn lemma_mod_next(x: int, n: int)
    requires
        n > 0,
        x >= 0,
    ensures
        0 <= x % n < n,
        (x + 1) % n == (if x % n + 1 >= n {
            0
        } else {
            x % n + 1
        }),
{
    let q = x / n;
    let r = x % n;
    vstd::arithmetic::div_mod::lemma_fundamental_div_mod(x, n);
    vstd::arithmetic::div_mod::lemma_mod_bound(x, n);
    if r + 1 < n {
        assert(x + 1 == q * n + (r + 1)) by (nonlinear_arith)
            requires
                x == n * q + r,
        ;
        vstd::arithmetic::div_mod::lemma_fundamental_div_mod_converse(x + 1, n, q, r + 1);
    } else {
        assert(x + 1 == (q + 1) * n + 0) by (nonlinear_arith)
            requires
                x == n * q + r,
                r + 1 == n,
        ;
        vstd::arithmetic::div_mod::lemma_fundamental_div_mod_converse(x + 1, n, q + 1, 0);
    }
}

/// There is one first empty cell.
proof fn lemma_first_empty_once(entries: Seq<Entry>, hash: u64, a: int, b: int)
    requires
        is_first_empty(entries, hash, a),
        is_first_empty(entries, hash, b),
    ensures
        a == b,
{
    let n = entries.len() as int;
    if a < b {
        assert(occupied(entries[cell(hash, a, n)]));
    } else if b < a {
        assert(occupied(entries[cell(hash, b, n)]));
    }
}

/// Whether a table has to grow before rows are added.
pub open spec fn has_to_grow(t: TableView, row_count: int) -> bool {
    row_count + t.groups.len() > t.entries.len() || row_count + t.groups.len() > t.entries.len() * 2 / 3
}

proof fn lemma_pages_monotonic(a: int, b: int, row_per_page: int)
    requires
        0 <= a <= b,
        row_per_page > 0,
        pages_fit(b, row_per_page),
    ensures
        pages_fit(a, row_per_page),
        0 <= a / row_per_page,
{
    vstd::arithmetic::div_mod::lemma_div_is_ordered(a, b, row_per_page);
    vstd::arithmetic::div_mod::lemma_div_pos_is_pos(a, row_per_page);
}

/// The cell for a row.
fn make_entry(row: usize, row_per_page: usize, hash: u64) -> (e: Entry)
    requires
        1 <= row_per_page <= u16::MAX,
        pages_fit(row as int, row_per_page as int),
    ensures
        occupied(e),
        e.page_offset < row_per_page,
        entry_row(e, row_per_page as int) == row,
        e == entry_of(row as int, row_per_page as int, hash),
{
    proof {
        lemma_row_split(row as int, row_per_page as int);
    }
    Entry {
        salt: (hash >> 48) as u16,
        page_offset: (row % row_per_page) as u16,
        page_nr: (row / row_per_page) as u32 + 1,
    }
}

/// Puts the name of a group into an empty cell.
proof fn lemma_fill_cell(t: TableView, g: GroupView, s: int, e: Entry)
    requires
        table_ok(t),
        0 <= s < t.entries.len(),
        !occupied(t.entries[s]),
        occupied(e),
        e.page_offset < t.row_per_page,
        entry_row(e, t.row_per_page) == t.groups.len(),
        e.salt == salt_of(g.hash),
    ensures
        table_ok(TableView { groups: t.groups.push(g), entries: t.entries.update(s, e), row_per_page: t.row_per_page }),
{
    lemma_count_update(t.entries, s, e);
    let n = TableView { groups: t.groups.push(g), entries: t.entries.update(s, e), row_per_page: t.row_per_page };
    assert forall|i: int| 0 <= i < n.entries.len() implies entry_ok(n, #[trigger] n.entries[i]) by {
        if i != s {
            assert(entry_ok(t, t.entries[i]));
        }
    }
}

/// A group that has been put into the first empty cell of its search is found, and so is every
/// group that was found before.
proof fn lemma_fill_keeps_found(t: TableView, g: GroupView, k: int, e: Entry)
    requires
        table_ok(t),
        t.entries.len() > 0,
        0 <= k < t.entries.len(),
        forall|j: int| 0 <= j < k ==> occupied(#[trigger] t.entries[cell(g.hash, j, t.entries.len() as int)]),
        !occupied(t.entries[cell(g.hash, k, t.entries.len() as int)]),
        occupied(e),
        entry_row(e, t.row_per_page) == t.groups.len(),
        all_found(t),
    ensures
        all_found(
            TableView {
                groups: t.groups.push(g),
                entries: t.entries.update(cell(g.hash, k, t.entries.len() as int), e),
                row_per_page: t.row_per_page,
            },
        ),
{
    let n = t.entries.len() as int;
    let s = cell(g.hash, k, n);
    lemma_cell_range(g.hash, k, n);
    let u = TableView { groups: t.groups.push(g), entries: t.entries.update(s, e), row_per_page: t.row_per_page };
    assert forall|r: int| 0 <= r < u.groups.len() implies #[trigger] is_found(u, r) by {
        if r == t.groups.len() {
            assert forall|j: int| 0 <= j < k implies occupied(#[trigger] u.entries[cell(g.hash, j, n)]) by {
                lemma_cell_range(g.hash, j, n);
                assert(occupied(t.entries[cell(g.hash, j, n)]));
            }
            assert(found_at(u, r, k));
        } else {
            assert(is_found(t, r));
            let w = choose|w: int| found_at(t, r, w);
            let h = t.groups[r].hash;
            lemma_cell_range(h, w, n);
            assert forall|j: int| 0 <= j < w implies occupied(#[trigger] u.entries[cell(h, j, n)]) by {
                lemma_cell_range(h, j, n);
                assert(occupied(t.entries[cell(h, j, n)]));
            }
            assert(found_at(u, r, w));
        }
    }
}

/// A search that has met only other groups and then an empty cell shows that there is no group
/// of the values.
proof fn lemma_absent(t: TableView, hash: u64, key: Seq<ScalarView>, k: int)
    requires
        t.entries.len() > 0,
        0 <= k < t.entries.len(),
        all_found(t),
        forall|r: int| 0 <= r < t.groups.len() && (#[trigger] t.groups[r]).key == key ==> t.groups[r].hash == hash,
        forall|j: int|
            0 <= j < k ==> t.groups[entry_row(
                #[trigger] t.entries[cell(hash, j, t.entries.len() as int)],
                t.row_per_page,
            )].key != key,
        !occupied(t.entries[cell(hash, k, t.entries.len() as int)]),
    ensures
        forall|r: int| 0 <= r < t.groups.len() ==> (#[trigger] t.groups[r]).key != key,
{
    let n = t.entries.len() as int;
    assert forall|r: int| 0 <= r < t.groups.len() implies (#[trigger] t.groups[r]).key != key by {
        if t.groups[r].key == key {
            assert(is_found(t, r));
            let w = choose|w: int| found_at(t, r, w);
            if w < k {
                assert(entry_row(t.entries[cell(hash, w, n)], t.row_per_page) == r);
            } else if w > k {
                assert(occupied(t.entries[cell(hash, k, n)]));
            }
        }
    }
}

/// Rows `i` of the given columns that become groups.
spec fn new_groups(hashes: Seq<u64>, columns: Seq<ColumnView>, rows: Seq<usize>) -> Seq<GroupView> {
    rows.map_values(|i: usize| GroupView { hash: hashes[i as int], key: row_key(columns, i as int) })
}

/// The first `k` cells of the search for a row are taken.
spec fn passed(t: TableView, hash: u64, k: int) -> bool {
    forall|j: int| 0 <= j < k ==> occupied(#[trigger] t.entries[cell(hash, j, t.entries.len() as int)])
}

/// The first `k` cells of the search name groups of other values.
spec fn others_met(t: TableView, hash: u64, key: Seq<ScalarView>, k: int) -> bool {
    forall|j: int|
        0 <= j < k ==> t.groups[entry_row(
            #[trigger] t.entries[cell(hash, j, t.entries.len() as int)],
            t.row_per_page,
        )].key != key
}

/// Filling an empty cell leaves what a search has passed as it was.
proof fn lemma_fill_keeps_passed(t: TableView, g: GroupView, s: int, e: Entry, hash: u64, key: Seq<ScalarView>, k: int)
    requires
        table_ok(t),
        t.entries.len() > 0,
        0 <= s < t.entries.len(),
        !occupied(t.entries[s]),
        passed(t, hash, k),
        k >= 0,
    ensures
        passed(
            TableView { groups: t.groups.push(g), entries: t.entries.update(s, e), row_per_page: t.row_per_page },
            hash,
            k,
        ),
        others_met(t, hash, key, k) ==> others_met(
            TableView { groups: t.groups.push(g), entries: t.entries.update(s, e), row_per_page: t.row_per_page },
            hash,
            key,
            k,
        ),
{
    let n = t.entries.len() as int;
    let u = TableView { groups: t.groups.push(g), entries: t.entries.update(s, e), row_per_page: t.row_per_page };
    assert forall|j: int| 0 <= j < k implies occupied(#[trigger] u.entries[cell(hash, j, n)]) && u.entries[cell(
        hash,
        j,
        n,
    )] == t.entries[cell(hash, j, n)] by {
        lemma_cell_range(hash, j, n);
        assert(occupied(t.entries[cell(hash, j, n)]));
    }
    if others_met(t, hash, key, k) {
        assert forall|j: int| 0 <= j < k implies u.groups[entry_row(
            #[trigger] u.entries[cell(hash, j, n)],
            u.row_per_page,
        )].key != key by {
            lemma_cell_range(hash, j, n);
            assert(entry_ok(t, t.entries[cell(hash, j, n)]));
            assert(occupied(u.entries[cell(hash, j, n)]));
        }
    }
}

impl AggregateHashTable {
    /// Moves the groups into a table of the given number of cells, each into the first empty cell
    /// of its search. Every group is found there.
    pub fn resize(&mut self, new_capacity: usize)
        requires
            old(self).wf(),
            power_of_two(new_capacity as nat),
            new_capacity >= old(self).groups().len(),
            pages_fit(old(self).groups().len() as int, old(self).table().row_per_page),
        ensures
            final(self).wf(),
            final(self).groups() == old(self).groups(),
            final(self).table() == resized(old(self).table(), new_capacity as nat),
            final(self).table().entries.len() == new_capacity,
            all_found(final(self).table()),
    {
        if new_capacity == self.capacity {
            return;
        }
        let ghost groups = self.groups();
        let ghost rpp = self.payload.row_per_page as int;
        let ghost n = new_capacity as int;
        let row_per_page: usize = self.payload.row_per_page;
        let rows: usize = self.payload.rows.len();
        let mut entries = Self::new_entries(new_capacity);
        let ghost mut vt = TableView { groups: groups.take(0), entries: entries@, row_per_page: rpp };
        let mut row: usize = 0;
        while row < rows
            invariant
                row <= rows,
                rows == self.payload.rows@.len(),
                rows <= new_capacity,
                n == new_capacity,
                n >= 1,
                groups == group_views(self.payload.rows@),
                row_per_page == self.payload.row_per_page,
                rpp == row_per_page,
                1 <= row_per_page <= u16::MAX,
                pages_fit(rows as int, rpp),
                entries@.len() == new_capacity,
                entries@ == filled_cells(groups, row as nat, new_capacity as nat, rpp),
                vt == (TableView { groups: groups.take(row as int), entries: entries@, row_per_page: rpp }),
                table_ok(vt),
                all_found(vt),
            decreases rows - row,
        {
            let hash: u64 = self.payload.rows[row].hash;
            proof {
                assert(groups[row as int].hash == hash);
                lemma_cell_range(hash, 0, n);
                lemma_pages_monotonic(row as int, rows as int, rpp);
            }
            let mut hash_slot: usize = (hash % (new_capacity as u64)) as usize;
            let ghost mut k: int = 0;
            while entries[hash_slot].page_nr != 0
                invariant
                    entries@.len() == new_capacity,
                    n == new_capacity,
                    0 <= k < n,
                    hash_slot == cell(hash, k, n),
                    hash_slot < new_capacity,
                    occupied_count(entries@) < n,
                    forall|j: int| 0 <= j < k ==> occupied(#[trigger] entries@[cell(hash, j, n)]),
                decreases n - k,
            {
                proof {
                    lemma_mod_next(hash as int + k, n);
                    if k + 1 == n {
                        lemma_search_covers(entries@, hash);
                    }
                    k = k + 1;
                }
                hash_slot += 1;
                if hash_slot >= new_capacity {
                    hash_slot = 0;
                }
            }
            let e = make_entry(row, row_per_page, hash);
            proof {
                let g = groups[row as int];
                assert(is_first_empty(entries@, hash, k));
                let chosen = choose|c: int| is_first_empty(entries@, hash, c);
                lemma_first_empty_once(entries@, hash, k, chosen);
                lemma_fill_cell(vt, g, hash_slot as int, e);
                lemma_fill_keeps_found(vt, g, k, e);
                assert(groups.take(row + 1) =~= groups.take(row as int).push(g));
                vt = TableView {
                    groups: groups.take(row + 1),
                    entries: entries@.update(hash_slot as int, e),
                    row_per_page: rpp,
                };
            }
            entries.set(hash_slot, e);
            row += 1;
        }
        self.entries = entries;
        self.capacity = new_capacity;
        proof {
            assert(groups.take(rows as int) =~= groups);
            assert(self.table() == vt);
        }
    }

    /// Grows the table where the rows to be added ask for it.
    fn reserve(&mut self, row_count: usize)
        requires
            old(self).wf(),
            old(self).table().entries.len() * 2 <= usize::MAX,
            (old(self).groups().len() + row_count) * 2 <= usize::MAX,
            pages_fit(old(self).groups().len() as int, old(self).table().row_per_page),
        ensures
            final(self).wf(),
            final(self).groups() == old(self).groups(),
            final(self).table().row_per_page == old(self).table().row_per_page,
            final(self).groups().len() + row_count < final(self).table().entries.len(),
            final(self).table().entries.len() <= old(self).table().entries.len() * 2 || final(self).table().entries.len() <= (old(self).groups().len() + row_count) * 2,
            final(self).table() == reserved(old(self).table(), row_count as int),
    {
        proof {
            lemma_count_bound(self.entries@);
        }
        if row_count + self.len() > self.capacity || row_count + self.len() > self.resize_threshold() {
            let len: usize = self.len();
            let mut new_capacity: usize = self.capacity * 2;
            proof {
                assert((2 * self.capacity) as nat / 2 == self.capacity as nat);
            }
            while new_capacity - len <= row_count
                invariant
                    power_of_two(new_capacity as nat),
                    new_capacity >= self.capacity * 2,
                    new_capacity >= len,
                    self.capacity >= 1,
                    (len + row_count) * 2 <= usize::MAX,
                    new_capacity <= self.capacity * 2 || new_capacity <= (len + row_count) * 2,
                    enough_cells(new_capacity as nat, (len + row_count) as nat) == enough_cells(
                        (self.capacity * 2) as nat,
                        (len + row_count) as nat,
                    ),
                decreases usize::MAX - new_capacity,
            {
                let ghost before = new_capacity;
                new_capacity = new_capacity * 2;
                proof {
                    assert((2 * before) as nat / 2 == before as nat);
                }
            }
            self.resize(new_capacity);
        }
    }

    /// The values of row `i` in the group columns.
    fn group_key(group_columns: &Vec<Column>, i: usize) -> (key: Vec<Scalar>)
        requires
            forall|c: int| 0 <= c < group_columns@.len() ==> i < (#[trigger] group_columns@[c])@.rows.len(),
        ensures
            all_seen(scalar_views(key@)) == row_key(column_views(group_columns@), i as int),
    {
        let mut key: Vec<Scalar> = Vec::new();
        let ghost columns = column_views(group_columns@);
        let mut c: usize = 0;
        while c < group_columns.len()
            invariant
                c <= group_columns.len(),
                columns == column_views(group_columns@),
                key.len() == c,
                forall|j: int| 0 <= j < group_columns@.len() ==> i < (#[trigger] group_columns@[j])@.rows.len(),
                forall|j: int| 0 <= j < c ==> scalar_view(#[trigger] key@[j]) == columns[j].rows[i as int],
            decreases group_columns.len() - c,
        {
            assert(i < group_columns@[c as int]@.rows.len());
            key.push(group_columns[c].rows[i].clone());
            c += 1;
        }
        assert(all_seen(scalar_views(key@)) =~= row_key(columns, i as int));
        key
    }

    /// Whether the values of row `i` in the group columns are those of a group.
    fn row_match(key: &Vec<Scalar>, group_columns: &Vec<Column>, i: usize) -> (r: bool)
        requires
            forall|c: int| 0 <= c < group_columns@.len() ==> i < (#[trigger] group_columns@[c])@.rows.len(),
        ensures
            r == (all_seen(scalar_views(key@)) == row_key(column_views(group_columns@), i as int)),
    {
        let ghost columns = column_views(group_columns@);
        let ghost views = all_seen(scalar_views(key@));
        if key.len() != group_columns.len() {
            assert(views.len() != row_key(columns, i as int).len());
            return false;
        }
        let mut c: usize = 0;
        while c < group_columns.len()
            invariant
                c <= group_columns.len(),
                columns == column_views(group_columns@),
                views == all_seen(scalar_views(key@)),
                key.len() == group_columns.len(),
                forall|j: int| 0 <= j < group_columns@.len() ==> i < (#[trigger] group_columns@[j])@.rows.len(),
                forall|j: int| 0 <= j < c ==> #[trigger] views[j] == seen(columns[j].rows[i as int]),
            decreases group_columns.len() - c,
        {
            assert(i < group_columns@[c as int]@.rows.len());
            assert(views[c as int] == seen(scalar_view(key@[c as int])));
            assert(columns[c as int].rows[i as int] == scalar_view(group_columns@[c as int].rows@[i as int]));
            if !key[c].seen().same(&group_columns[c].rows[i].seen()) {
                assert(views[c as int] != row_key(columns, i as int)[c as int]);
                return false;
            }
            c += 1;
        }
        assert(views =~= row_key(columns, i as int));
        true
    }

    /// Finds the group of each row, and makes those that are not there yet. Returns how many
    /// were made; `state.addresses` names the group of each row.
    pub fn probe_and_create(&mut self, state: &mut ProbeState, group_columns: &Vec<Column>, row_count: usize) -> (
    new_group_count: usize)
        requires
            old(self).wf(),
            row_count <= old(state).group_hashes@.len(),
            forall|c: int| 0 <= c < group_columns@.len() ==> row_count <= (#[trigger] group_columns@[c])@.rows.len(),
            old(self).table().entries.len() * 2 <= usize::MAX,
            (old(self).groups().len() + row_count) * 2 <= usize::MAX,
            pages_fit(old(self).groups().len() + row_count, old(self).table().row_per_page),
        ensures
            final(self).wf(),
            final(self).table().row_per_page == old(self).table().row_per_page,
            final(state).group_hashes@ == old(state).group_hashes@,
            final(state).addresses@.len() == row_count,
            final(self).groups().len() == old(self).groups().len() + new_group_count,
            final(self).groups().take(old(self).groups().len() as int) == old(self).groups(),
            new_group_count <= row_count,
            final(self).table().entries.len() == old(self).table().entries.len() || has_to_grow(
                old(self).table(),
                row_count as int,
            ) && (final(self).table().entries.len() <= old(self).table().entries.len() * 2 || final(self).table().entries.len() <= (old(self).groups().len() + row_count) * 2),
            forall|i: int|
                0 <= i < row_count ==> {
                    &&& (#[trigger] final(state).addresses@[i]) < final(self).groups().len()
                    &&& final(self).groups()[final(state).addresses@[i] as int].key == row_key(
                        column_views(group_columns@),
                        i,
                    )
                },
            forall|r: int|
                old(self).groups().len() <= r < final(self).groups().len() ==> is_new_group(
                    #[trigger] final(self).groups()[r],
                    old(state).group_hashes@,
                    column_views(group_columns@),
                    row_count as int,
                ),
            final(self).table().entries.len() == reserved(old(self).table(), row_count as int).entries.len(),
            groups_distinct(old(self).groups()) && hashes_agree(
                old(self).groups(),
                old(state).group_hashes@,
                column_views(group_columns@),
                row_count as int,
            ) ==> groups_distinct(final(self).groups()),
            all_found(final(self).table()),
    {
        proof {
            lemma_pages_monotonic(
                self.groups().len() as int,
                self.groups().len() + row_count,
                self.table().row_per_page,
            );
        }
        self.reserve(row_count);
        let ghost good = groups_distinct(self.groups()) && hashes_agree(
            self.groups(),
            state.group_hashes@,
            column_views(group_columns@),
            row_count as int,
        );
        self.probe_rounds(state, group_columns, row_count, Ghost(good))
    }

    fn probe_rounds(
        &mut self,
        state: &mut ProbeState,
        group_columns: &Vec<Column>,
        row_count: usize,
        Ghost(good): Ghost<bool>,
    ) -> (new_group_count: usize)
        requires
            old(self).wf(),
            row_count <= old(state).group_hashes@.len(),
            forall|c: int| 0 <= c < group_columns@.len() ==> row_count <= (#[trigger] group_columns@[c])@.rows.len(),
            old(self).groups().len() + row_count < old(self).table().entries.len(),
            old(self).table().entries.len() <= usize::MAX,
            pages_fit(old(self).groups().len() + row_count, old(self).table().row_per_page),
            good ==> groups_distinct(old(self).groups()) && hashes_agree(
                old(self).groups(),
                old(state).group_hashes@,
                column_views(group_columns@),
                row_count as int,
            ),
        ensures
            final(self).wf(),
            final(self).table().row_per_page == old(self).table().row_per_page,
            final(state).group_hashes@ == old(state).group_hashes@,
            final(state).addresses@.len() == row_count,
            final(self).groups().len() == old(self).groups().len() + new_group_count,
            final(self).groups().take(old(self).groups().len() as int) == old(self).groups(),
            new_group_count <= row_count,
            forall|i: int|
                0 <= i < row_count ==> {
                    &&& (#[trigger] final(state).addresses@[i]) < final(self).groups().len()
                    &&& final(self).groups()[final(state).addresses@[i] as int].key == row_key(
                        column_views(group_columns@),
                        i,
                    )
                },
            forall|r: int|
                old(self).groups().len() <= r < final(self).groups().len() ==> is_new_group(
                    #[trigger] final(self).groups()[r],
                    old(state).group_hashes@,
                    column_views(group_columns@),
                    row_count as int,
                ),
            final(self).table().entries.len() == old(self).table().entries.len(),
            good ==> groups_distinct(final(self).groups()),
    {
        let ghost columns = column_views(group_columns@);
        let ghost hashes = state.group_hashes@;
        let ghost g0 = self.groups();
        let ghost n = self.entries@.len() as int;
        let ghost rpp = self.payload.row_per_page as int;
        let capacity: usize = self.capacity;
        let row_per_page: usize = self.payload.row_per_page;
        let mut addresses: Vec<usize> = Vec::new();
        let mut pending: Vec<usize> = Vec::new();
        let mut i: usize = 0;
        while i < row_count
            invariant
                i <= row_count,
                addresses.len() == i,
                pending.len() == i,
                forall|j: int| 0 <= j < i ==> #[trigger] pending@[j] == j,
            decreases row_count - i,
        {
            addresses.push(0);
            pending.push(i);
            i += 1;
        }
        let mut new_group_count: usize = 0;
        let mut iter_times: usize = 0;
        proof {
            assert(g0.take(g0.len() as int) =~= g0);
            assert forall|x: int| 0 <= x < row_count implies waits(pending@, x) by {
                assert(pending@[x] == x);
            }
        }
        while pending.len() > 0
            invariant
                self.wf(),
                capacity == n,
                self.entries@.len() == n,
                n > 0,
                rpp == self.payload.row_per_page,
                row_per_page == rpp,
                columns == column_views(group_columns@),
                hashes == state.group_hashes@,
                hashes == old(state).group_hashes@,
                row_count <= hashes.len(),
                forall|c: int| 0 <= c < group_columns@.len() ==> row_count <= (#[trigger] group_columns@[c])@.rows.len(),
                g0.len() + row_count < n,
                pages_fit(g0.len() + row_count, rpp),
                iter_times <= n,
                addresses.len() == row_count,
                self.groups().len() == g0.len() + new_group_count,
                new_group_count + pending@.len() <= row_count,
                self.groups().take(g0.len() as int) == g0,
                forall|j: int|
                    #![trigger pending@[j]]
                    0 <= j < pending@.len() ==> pending@[j] < row_count && passed(
                        self.table(),
                        hashes[pending@[j] as int],
                        iter_times as int,
                    ),
                forall|x: int| 0 <= x < row_count ==> waits(pending@, x) || is_resolved(self.groups(), addresses@, columns, x),
                forall|r: int|
                    g0.len() <= r < self.groups().len() ==> is_new_group(
                        #[trigger] self.groups()[r],
                        hashes,
                        columns,
                        row_count as int,
                    ),
                good ==> groups_distinct(self.groups()) && hashes_agree(
                    self.groups(),
                    hashes,
                    columns,
                    row_count as int,
                ),
                good ==> forall|j: int|
                    #![trigger pending@[j]]
                    0 <= j < pending@.len() ==> others_met(
                        self.table(),
                        hashes[pending@[j] as int],
                        row_key(columns, pending@[j] as int),
                        iter_times as int,
                    ),
            decreases n - iter_times,
        {
            proof {
                // A search round the whole table would have met no empty cell.
                if iter_times == n {
                    assert(passed(self.table(), hashes[pending@[0] as int], n));
                    lemma_search_covers(self.entries@, hashes[pending@[0] as int]);
                }
            }
            let ghost groups1 = self.groups();
            let ghost addresses1 = addresses@;
            let ghost pending1 = pending@;
            proof {
                lemma_pages_monotonic((groups1.len() + pending1.len()) as int, g0.len() + row_count, rpp);
            }
            let (matched, missed) = self.probe_round(
                &state.group_hashes,
                group_columns,
                row_count,
                &pending,
                iter_times,
                &mut addresses,
                Ghost(good),
            );
            new_group_count += matched;
            pending = missed;
            proof {
                assert forall|x: int| 0 <= x < row_count implies waits(pending@, x) || is_resolved(
                    self.groups(),
                    addresses@,
                    columns,
                    x,
                ) by {
                    assert(waits(pending1, x) || is_resolved(groups1, addresses1, columns, x));
                }
                assert forall|r: int| g0.len() <= r < self.groups().len() implies is_new_group(
                    #[trigger] self.groups()[r],
                    hashes,
                    columns,
                    row_count as int,
                ) by {
                    if r < groups1.len() {
                        assert(self.groups().take(groups1.len() as int)[r] == groups1[r]);
                    }
                }
                assert(self.groups().take(g0.len() as int) =~= g0) by {
                    assert forall|r: int| 0 <= r < g0.len() implies self.groups()[r] == g0[r] by {
                        assert(self.groups().take(groups1.len() as int)[r] == groups1[r]);
                        assert(groups1.take(g0.len() as int)[r] == g0[r]);
                    }
                }
            }
            iter_times += 1;
        }
        proof {
            assert forall|x: int| 0 <= x < row_count implies is_resolved(self.groups(), addresses@, columns, x) by {
                assert(!waits(pending@, x));
            }
        }
        state.addresses = addresses;
        proof {
            assert forall|x: int| 0 <= x < row_count implies (#[trigger] state.addresses@[x]) < self.groups().len()
                && self.groups()[state.addresses@[x] as int].key == row_key(columns, x) by {
                assert(is_resolved(self.groups(), state.addresses@, columns, x));
            }
        }
        new_group_count
    }
}

/// A group that stands for one of the rows that were added.
pub open spec fn is_new_group(g: GroupView, hashes: Seq<u64>, columns: Seq<ColumnView>, row_count: int) -> bool {
    exists|i: int| 0 <= i < row_count && g == (GroupView { hash: #[trigger] hashes[i], key: row_key(columns, i) })
}

/// Row `x` still waits for its group.
spec fn waits(pending: Seq<usize>, x: int) -> bool {
    exists|j: int| 0 <= j < pending.len() && #[trigger] pending[j] == x
}

/// Row `x` has its group.
spec fn is_resolved(groups: Seq<GroupView>, addresses: Seq<usize>, columns: Seq<ColumnView>, x: int) -> bool {
    addresses[x] < groups.len() && groups[addresses[x] as int].key == row_key(columns, x)
}
impl AggregateHashTable {
    /// One step of the search for every row that waits: a row whose cell is empty becomes a
    /// group there, a row whose cell names a group of its values has found it, and the others
    /// wait on. Returns how many groups were made, and which rows wait on.
    fn probe_round(
        &mut self,
        group_hashes: &Vec<u64>,
        group_columns: &Vec<Column>,
        row_count: usize,
        pending: &Vec<usize>,
        iter_times: usize,
        addresses: &mut Vec<usize>,
        Ghost(good): Ghost<bool>,
    ) -> (r: (usize, Vec<usize>))
        requires
            old(self).wf(),
            iter_times < old(self).table().entries.len(),
            row_count <= group_hashes@.len(),
            forall|c: int| 0 <= c < group_columns@.len() ==> row_count <= (#[trigger] group_columns@[c])@.rows.len(),
            old(self).groups().len() + pending@.len() < old(self).table().entries.len(),
            pages_fit((old(self).groups().len() + pending@.len()) as int, old(self).table().row_per_page),
            old(addresses)@.len() == row_count,
            forall|j: int|
                #![trigger pending@[j]]
                0 <= j < pending@.len() ==> pending@[j] < row_count && passed(
                    old(self).table(),
                    group_hashes@[pending@[j] as int],
                    iter_times as int,
                ),
            good ==> groups_distinct(old(self).groups()) && hashes_agree(
                old(self).groups(),
                group_hashes@,
                column_views(group_columns@),
                row_count as int,
            ),
            good ==> forall|j: int|
                #![trigger pending@[j]]
                0 <= j < pending@.len() ==> others_met(
                    old(self).table(),
                    group_hashes@[pending@[j] as int],
                    row_key(column_views(group_columns@), pending@[j] as int),
                    iter_times as int,
                ),
        ensures
            final(self).wf(),
            final(self).capacity == old(self).capacity,
            final(self).payload.row_per_page == old(self).payload.row_per_page,
            final(self).table().entries.len() == old(self).table().entries.len(),
            final(self).table().row_per_page == old(self).table().row_per_page,
            final(addresses)@.len() == row_count,
            final(self).groups().len() == old(self).groups().len() + r.0,
            r.0 + r.1@.len() <= pending@.len(),
            final(self).groups().take(old(self).groups().len() as int) == old(self).groups(),
            forall|j: int|
                #![trigger r.1@[j]]
                0 <= j < r.1@.len() ==> r.1@[j] < row_count && passed(
                    final(self).table(),
                    group_hashes@[r.1@[j] as int],
                    iter_times + 1,
                ),
            forall|x: int|
                0 <= x < row_count && waits(pending@, x) ==> waits(r.1@, x) || is_resolved(
                    final(self).groups(),
                    final(addresses)@,
                    column_views(group_columns@),
                    x,
                ),
            forall|x: int|
                0 <= x < row_count && is_resolved(
                    old(self).groups(),
                    old(addresses)@,
                    column_views(group_columns@),
                    x,
                ) ==> is_resolved(final(self).groups(), final(addresses)@, column_views(group_columns@), x),
            forall|g: int|
                old(self).groups().len() <= g < final(self).groups().len() ==> is_new_group(
                    #[trigger] final(self).groups()[g],
                    group_hashes@,
                    column_views(group_columns@),
                    row_count as int,
                ),
            good ==> groups_distinct(final(self).groups()) && hashes_agree(
                final(self).groups(),
                group_hashes@,
                column_views(group_columns@),
                row_count as int,
            ),
            good ==> forall|j: int|
                #![trigger r.1@[j]]
                0 <= j < r.1@.len() ==> others_met(
                    final(self).table(),
                    group_hashes@[r.1@[j] as int],
                    row_key(column_views(group_columns@), r.1@[j] as int),
                    iter_times + 1,
                ),
    {
        let ghost columns = column_views(group_columns@);
        let ghost hashes = group_hashes@;
        let ghost groups0 = self.groups();
        let ghost n = self.entries@.len() as int;
        let ghost rpp = self.payload.row_per_page as int;
        let ghost t = iter_times as int;
        let capacity: usize = self.capacity;
        let row_per_page: usize = self.payload.row_per_page;
        let base: usize = self.payload.rows.len();
        let mut empty_vector: Vec<usize> = Vec::new();
        let mut compare_vector: Vec<(usize, usize)> = Vec::new();
        let mut no_match_vector: Vec<usize> = Vec::new();
        let ghost mut vt = self.table();
        proof {
            assert(groups0 + new_groups(hashes, columns, empty_vector@) =~= groups0);
        }
        let mut i: usize = 0;
        while i < pending.len()
            invariant
                i <= pending.len(),
                capacity == n,
                n > 0,
                t == iter_times,
                0 <= t < n,
                base == groups0.len(),
                row_per_page == rpp,
                1 <= rpp <= u16::MAX,
                hashes == group_hashes@,
                row_count <= hashes.len(),
                columns == column_views(group_columns@),
                self.payload == old(self).payload,
                self.capacity == old(self).capacity,
                groups0 == group_views(self.payload.rows@),
                groups0.len() + pending@.len() < n,
                pages_fit((groups0.len() + pending@.len()) as int, rpp),
                table_ok(vt),
                vt.groups == groups0 + new_groups(hashes, columns, empty_vector@),
                vt.entries == self.entries@,
                vt.row_per_page == rpp,
                vt.entries.len() == n,
                empty_vector@.len() + compare_vector@.len() + no_match_vector@.len() == i,
                forall|j: int| #![trigger empty_vector@[j]] 0 <= j < empty_vector@.len() ==> empty_vector@[j] < row_count,
                forall|j: int|
                    #![trigger pending@[j]]
                    0 <= j < pending@.len() ==> pending@[j] < row_count && passed(vt, hashes[pending@[j] as int], t),
                all_found(vt),
                good ==> groups_distinct(vt.groups) && hashes_agree(
                    vt.groups,
                    hashes,
                    columns,
                    row_count as int,
                ),
                good ==> forall|j: int|
                    #![trigger pending@[j]]
                    0 <= j < pending@.len() ==> others_met(
                        vt,
                        hashes[pending@[j] as int],
                        row_key(columns, pending@[j] as int),
                        t,
                    ),
                forall|j: int|
                    #![trigger compare_vector@[j]]
                    0 <= j < compare_vector@.len() ==> {
                        &&& compare_vector@[j].0 < row_count
                        &&& compare_vector@[j].1 < vt.groups.len()
                        &&& occupied(vt.entries[cell(hashes[compare_vector@[j].0 as int], t, n)])
                        &&& entry_row(vt.entries[cell(hashes[compare_vector@[j].0 as int], t, n)], rpp)
                            == compare_vector@[j].1
                        &&& passed(vt, hashes[compare_vector@[j].0 as int], t)
                        &&& good ==> others_met(
                            vt,
                            hashes[compare_vector@[j].0 as int],
                            row_key(columns, compare_vector@[j].0 as int),
                            t,
                        )
                    },
                forall|j: int|
                    #![trigger no_match_vector@[j]]
                    0 <= j < no_match_vector@.len() ==> {
                        &&& no_match_vector@[j] < row_count
                        &&& passed(vt, hashes[no_match_vector@[j] as int], t + 1)
                        &&& good ==> others_met(
                            vt,
                            hashes[no_match_vector@[j] as int],
                            row_key(columns, no_match_vector@[j] as int),
                            t + 1,
                        )
                    },
                forall|j: int|
                    #![trigger pending@[j]]
                    0 <= j < i ==> is_sorted_out(pending@[j], empty_vector@, compare_vector@, no_match_vector@),
            decreases pending.len() - i,
        {
            let index: usize = pending[i];
            let hash: u64 = group_hashes[index];
            let ghost key = row_key(columns, index as int);
            let ghost s = cell(hash, t, n);
            proof {
                assert(pending@[i as int] == index);
                lemma_cell_range(hash, t, n);
                vstd::arithmetic::div_mod::lemma_mod_bound(hash as int, n);
                vstd::arithmetic::div_mod::lemma_add_mod_noop(hash as int, t, n);
                vstd::arithmetic::div_mod::lemma_add_mod_noop(hash as int % n, t, n);
                vstd::arithmetic::div_mod::lemma_mod_twice(hash as int, n);
            }
            let start: usize = (hash % (capacity as u64)) as usize;
            let ht_offset: usize = if iter_times < capacity - start {
                start + iter_times
            } else {
                iter_times - (capacity - start)
            };
            proof {
                lemma_offset(hash as int, t, n, start as int, ht_offset as int);
                assert(ht_offset == s);
            }
            let salt: u16 = (hash >> 48) as u16;
            let entry = self.entries[ht_offset];
            let ghost empty0 = empty_vector@;
            let ghost compare0 = compare_vector@;
            let ghost no_match0 = no_match_vector@;
            let ghost vt0 = vt;
            if entry.page_nr == 0 {
                // The cell is empty and can be taken.
                let row: usize = base + empty_vector.len();
                proof {
                    lemma_pages_monotonic(row as int, (groups0.len() + pending@.len()) as int, rpp);
                }
                let e = make_entry(row, row_per_page, hash);
                let ghost g = GroupView { hash, key };
                proof {
                    lemma_fill_cell(vt, g, s, e);
                    assert(passed(vt, hash, t));
                    lemma_fill_keeps_found(vt, g, t, e);
                    let u = TableView { groups: vt.groups.push(g), entries: vt.entries.update(s, e), row_per_page: rpp };
                    assert forall|j: int| #![trigger pending@[j]] 0 <= j < pending@.len() implies pending@[j] < row_count && passed(
                        u,
                        hashes[pending@[j] as int],
                        t,
                    ) && (good ==> others_met(u, hashes[pending@[j] as int], row_key(columns, pending@[j] as int), t)) by {
                        lemma_fill_keeps_passed(
                            vt,
                            g,
                            s,
                            e,
                            hashes[pending@[j] as int],
                            row_key(columns, pending@[j] as int),
                            t,
                        );
                    }
                    assert forall|j: int| #![trigger compare_vector@[j]] 0 <= j < compare_vector@.len() implies {
                        &&& occupied(u.entries[cell(hashes[compare_vector@[j].0 as int], t, n)])
                        &&& entry_row(u.entries[cell(hashes[compare_vector@[j].0 as int], t, n)], rpp)
                            == compare_vector@[j].1
                        &&& passed(u, hashes[compare_vector@[j].0 as int], t)
                        &&& good ==> others_met(
                            u,
                            hashes[compare_vector@[j].0 as int],
                            row_key(columns, compare_vector@[j].0 as int),
                            t,
                        )
                    } by {
                        lemma_cell_range(hashes[compare_vector@[j].0 as int], t, n);
                        lemma_fill_keeps_passed(
                            vt,
                            g,
                            s,
                            e,
                            hashes[compare_vector@[j].0 as int],
                            row_key(columns, compare_vector@[j].0 as int),
                            t,
                        );
                    }
                    assert forall|j: int| #![trigger no_match_vector@[j]] 0 <= j < no_match_vector@.len() implies {
                        &&& passed(u, hashes[no_match_vector@[j] as int], t + 1)
                        &&& good ==> others_met(
                            u,
                            hashes[no_match_vector@[j] as int],
                            row_key(columns, no_match_vector@[j] as int),
                            t + 1,
                        )
                    } by {
                        lemma_fill_keeps_passed(
                            vt,
                            g,
                            s,
                            e,
                            hashes[no_match_vector@[j] as int],
                            row_key(columns, no_match_vector@[j] as int),
                            t + 1,
                        );
                    }
                    if good {
                        assert(others_met(vt, hash, key, t));
                        assert forall|r: int| 0 <= r < vt.groups.len() && (#[trigger] vt.groups[r]).key == key implies vt.groups[r].hash
                            == hash by {
                            assert(hashes[index as int] == hash);
                        }
                        lemma_absent(vt, hash, key, t);
                        assert(groups_distinct(u.groups));
                        assert(hashes_agree(u.groups, hashes, columns, row_count as int)) by {
                            assert forall|r: int, x: int|
                                #![trigger u.groups[r], hashes[x]]
                                0 <= r < u.groups.len() && 0 <= x < row_count && u.groups[r].key == row_key(columns, x) implies u.groups[r].hash
                                == hashes[x] by {
                                if r < vt.groups.len() {
                                    assert(u.groups[r] == vt.groups[r]);
                                } else {
                                    assert(hashes[index as int] == hash);
                                }
                            }
                        }
                    }
                    vt = u;
                }
                self.entries.set(ht_offset, e);
                empty_vector.push(index);
                proof {
                    assert(new_groups(hashes, columns, empty_vector@) =~= new_groups(hashes, columns, empty0).push(g));
                    assert(vt.groups =~= groups0 + new_groups(hashes, columns, empty_vector@));
                    assert(empty_vector@[empty0.len() as int] == index);
                }
            } else if entry.salt == salt {
                proof {
                    assert(entry_ok(vt, vt.entries[s]));
                    assert(self.payload.rows@.len() == base);
                    lemma_row_in_usize(entry, rpp, vt.groups.len() as int, n);
                }
                let row: usize = (entry.page_nr - 1) as usize * row_per_page + entry.page_offset as usize;
                compare_vector.push((index, row));
                proof {
                    assert(compare_vector@[compare0.len() as int] == (index, row));
                }
            } else {
                proof {
                    assert(entry_ok(vt, vt.entries[s]));
                    assert(passed(vt, hash, t + 1));
                    if good {
                        let r = entry_row(vt.entries[s], rpp);
                        assert(vt.groups[r].key != key) by {
                            if vt.groups[r].key == key {
                                assert(vt.groups[r].hash == hashes[index as int]);
                            }
                        }
                        assert(others_met(vt, hash, key, t + 1));
                    }
                }
                no_match_vector.push(index);
                proof {
                    assert(no_match_vector@[no_match0.len() as int] == index);
                }
            }
            proof {
                assert forall|j: int| #![trigger pending@[j]] 0 <= j < i + 1 implies is_sorted_out(
                    pending@[j],
                    empty_vector@,
                    compare_vector@,
                    no_match_vector@,
                ) by {
                    if j < i {
                        lemma_sorted_out_grows(
                            pending@[j],
                            empty0,
                            compare0,
                            no_match0,
                            empty_vector@,
                            compare_vector@,
                            no_match_vector@,
                        );
                    }
                }
            }
            i += 1;
        }
        // The new groups are appended.
        let new_entry_count: usize = empty_vector.len();
        let ghost resolved0 = addresses@;
        let mut q: usize = 0;
        proof {
            assert(vt.groups.take(base as int) =~= groups0);
        }
        while q < new_entry_count
            invariant
                q <= new_entry_count,
                new_entry_count == empty_vector@.len(),
                base == groups0.len(),
                columns == column_views(group_columns@),
                hashes == group_hashes@,
                row_count <= hashes.len(),
                forall|c: int| 0 <= c < group_columns@.len() ==> row_count <= (#[trigger] group_columns@[c])@.rows.len(),
                forall|j: int| #![trigger empty_vector@[j]] 0 <= j < empty_vector@.len() ==> empty_vector@[j] < row_count,
                vt.groups == groups0 + new_groups(hashes, columns, empty_vector@),
                vt.entries == self.entries@,
                vt.entries.len() == n,
                vt.groups.len() < n,
                n == capacity,
                self.capacity == old(self).capacity,
                self.payload.row_per_page == old(self).payload.row_per_page,
                group_views(self.payload.rows@) == vt.groups.take(base + q),
                addresses@.len() == row_count,
                forall|x: int|
                    0 <= x < row_count && is_resolved(groups0, resolved0, columns, x) ==> is_resolved(
                        vt.groups,
                        addresses@,
                        columns,
                        x,
                    ),
                forall|j: int|
                    #![trigger empty_vector@[j]]
                    0 <= j < q ==> is_resolved(vt.groups, addresses@, columns, empty_vector@[j] as int),
            decreases new_entry_count - q,
        {
            let index: usize = empty_vector[q];
            let ghost before = self.payload.rows@;
            let ghost addresses0 = addresses@;
            proof {
                assert(index < row_count);
                assert forall|c: int| 0 <= c < group_columns@.len() implies index < (#[trigger] group_columns@[c])@.rows.len() by {}
            }
            let key = Self::group_key(group_columns, index);
            self.payload.rows.push(GroupRow { hash: group_hashes[index], key });
            addresses.set(index, base + q);
            proof {
                let g = vt.groups[base + q];
                assert(g == (GroupView { hash: hashes[index as int], key: row_key(columns, index as int) }));
                assert(group_views(self.payload.rows@) =~= group_views(before).push(g));
                assert(vt.groups.take(base + q + 1) =~= vt.groups.take(base + q).push(g));
                assert forall|x: int| 0 <= x < row_count && is_resolved(vt.groups, addresses0, columns, x) implies is_resolved(
                    vt.groups,
                    addresses@,
                    columns,
                    x,
                ) by {}
                assert(is_resolved(vt.groups, addresses@, columns, index as int));
            }
            q += 1;
        }
        proof {
            assert(vt.groups.take(base + q) =~= vt.groups);
            assert(self.table() == vt);
        }
        // The rows whose cells have their salt are compared.
        let ghost waiting0 = no_match_vector@;
        let mut m: usize = 0;
        while m < compare_vector.len()
            invariant
                m <= compare_vector@.len(),
                self.table() == vt,
                self.capacity == old(self).capacity,
                self.payload.row_per_page == old(self).payload.row_per_page,
                n == vt.entries.len(),
                0 <= t < n,
                rpp == vt.row_per_page,
                base == groups0.len(),
                forall|j: int| #![trigger empty_vector@[j]] 0 <= j < empty_vector@.len() ==> empty_vector@[j] < row_count,
                columns == column_views(group_columns@),
                hashes == group_hashes@,
                row_count <= hashes.len(),
                forall|c: int| 0 <= c < group_columns@.len() ==> row_count <= (#[trigger] group_columns@[c])@.rows.len(),
                addresses@.len() == row_count,
                new_entry_count + compare_vector@.len() + waiting0.len() == pending@.len(),
                waiting0.len() <= no_match_vector@.len() <= waiting0.len() + m,
                no_match_vector@.take(waiting0.len() as int) == waiting0,
                forall|j: int|
                    #![trigger compare_vector@[j]]
                    0 <= j < compare_vector@.len() ==> {
                        &&& compare_vector@[j].0 < row_count
                        &&& compare_vector@[j].1 < vt.groups.len()
                        &&& occupied(vt.entries[cell(hashes[compare_vector@[j].0 as int], t, n)])
                        &&& entry_row(vt.entries[cell(hashes[compare_vector@[j].0 as int], t, n)], rpp)
                            == compare_vector@[j].1
                        &&& passed(vt, hashes[compare_vector@[j].0 as int], t)
                        &&& good ==> others_met(
                            vt,
                            hashes[compare_vector@[j].0 as int],
                            row_key(columns, compare_vector@[j].0 as int),
                            t,
                        )
                    },
                forall|j: int|
                    #![trigger no_match_vector@[j]]
                    0 <= j < no_match_vector@.len() ==> {
                        &&& no_match_vector@[j] < row_count
                        &&& passed(vt, hashes[no_match_vector@[j] as int], t + 1)
                        &&& good ==> others_met(
                            vt,
                            hashes[no_match_vector@[j] as int],
                            row_key(columns, no_match_vector@[j] as int),
                            t + 1,
                        )
                    },
                forall|x: int|
                    0 <= x < row_count && is_resolved(groups0, resolved0, columns, x) ==> is_resolved(
                        vt.groups,
                        addresses@,
                        columns,
                        x,
                    ),
                forall|j: int|
                    #![trigger empty_vector@[j]]
                    0 <= j < empty_vector@.len() ==> is_resolved(vt.groups, addresses@, columns, empty_vector@[j] as int),
                forall|j: int|
                    #![trigger compare_vector@[j]]
                    0 <= j < m ==> is_resolved(vt.groups, addresses@, columns, compare_vector@[j].0 as int) || waits(
                        no_match_vector@,
                        compare_vector@[j].0 as int,
                    ),
            decreases compare_vector.len() - m,
        {
            let (index, row) = compare_vector[m];
            let ghost addresses0 = addresses@;
            let ghost no_match0 = no_match_vector@;
            proof {
                assert(compare_vector@[m as int] == (index, row));
                assert(vt.groups[row as int] == self.payload.rows@[row as int]@);
                assert forall|c: int| 0 <= c < group_columns@.len() implies index < (#[trigger] group_columns@[c])@.rows.len() by {}
            }
            if Self::row_match(&self.payload.rows[row].key, group_columns, index) {
                addresses.set(index, row);
                proof {
                    assert(is_resolved(vt.groups, addresses@, columns, index as int));
                    assert forall|x: int| 0 <= x < row_count && is_resolved(vt.groups, addresses0, columns, x) implies is_resolved(
                        vt.groups,
                        addresses@,
                        columns,
                        x,
                    ) by {}
                }
            } else {
                no_match_vector.push(index);
                proof {
                    assert(passed(vt, hashes[index as int], t + 1));
                    assert(no_match_vector@[no_match0.len() as int] == index);
                    assert(waits(no_match_vector@, index as int));
                    assert(no_match_vector@.take(waiting0.len() as int) =~= waiting0);
                    assert forall|x: int| waits(no_match0, x) implies waits(no_match_vector@, x) by {
                        let j = choose|j: int| 0 <= j < no_match0.len() && #[trigger] no_match0[j] == x;
                        assert(no_match_vector@[j] == x);
                    }
                }
            }
            m += 1;
        }
        proof {
            assert(self.groups().take(groups0.len() as int) =~= groups0);
            assert forall|x: int| 0 <= x < row_count && waits(pending@, x) implies waits(no_match_vector@, x) || is_resolved(
                self.groups(),
                addresses@,
                columns,
                x,
            ) by {
                let j = choose|j: int| 0 <= j < pending@.len() && #[trigger] pending@[j] == x;
                assert(is_sorted_out(pending@[j], empty_vector@, compare_vector@, waiting0));
                if exists|a: int| 0 <= a < empty_vector@.len() && #[trigger] empty_vector@[a] == x {
                } else if exists|a: int| 0 <= a < compare_vector@.len() && (#[trigger] compare_vector@[a]).0 == x {
                } else {
                    let a = choose|a: int| 0 <= a < waiting0.len() && #[trigger] waiting0[a] == x;
                    assert(no_match_vector@.take(waiting0.len() as int)[a] == x);
                    assert(no_match_vector@[a] == x);
                }
            }
            assert forall|g: int| groups0.len() <= g < self.groups().len() implies is_new_group(
                #[trigger] self.groups()[g],
                hashes,
                columns,
                row_count as int,
            ) by {
                let x = empty_vector@[g - groups0.len()];
                assert(self.groups()[g] == (GroupView { hash: hashes[x as int], key: row_key(columns, x as int) }));
            }
        }
        (new_entry_count, no_match_vector)
    }
}

/// A row stands in one of the three lists of a round.
spec fn is_sorted_out(x: usize, empty: Seq<usize>, compare: Seq<(usize, usize)>, no_match: Seq<usize>) -> bool {
    ||| exists|a: int| 0 <= a < empty.len() && #[trigger] empty[a] == x
    ||| exists|a: int| 0 <= a < compare.len() && (#[trigger] compare[a]).0 == x
    ||| exists|a: int| 0 <= a < no_match.len() && #[trigger] no_match[a] == x
}

proof fn lemma_sorted_out_grows(
    x: usize,
    e0: Seq<usize>,
    c0: Seq<(usize, usize)>,
    m0: Seq<usize>,
    e: Seq<usize>,
    c: Seq<(usize, usize)>,
    m: Seq<usize>,
)
    requires
        is_sorted_out(x, e0, c0, m0),
        e0.len() <= e.len() && e.take(e0.len() as int) =~= e0,
        c0.len() <= c.len() && c.take(c0.len() as int) =~= c0,
        m0.len() <= m.len() && m.take(m0.len() as int) =~= m0,
    ensures
        is_sorted_out(x, e, c, m),
{
    if exists|a: int| 0 <= a < e0.len() && #[trigger] e0[a] == x {
        let a = choose|a: int| 0 <= a < e0.len() && #[trigger] e0[a] == x;
        assert(e.take(e0.len() as int)[a] == e[a]);
    } else if exists|a: int| 0 <= a < c0.len() && (#[trigger] c0[a]).0 == x {
        let a = choose|a: int| 0 <= a < c0.len() && (#[trigger] c0[a]).0 == x;
        assert(c.take(c0.len() as int)[a] == c[a]);
    } else {
        let a = choose|a: int| 0 <= a < m0.len() && #[trigger] m0[a] == x;
        assert(m.take(m0.len() as int)[a] == m[a]);
    }
}

/// The cell of a step, counted from the cell of the hash.
proof fn lemma_offset(hash: int, t: int, n: int, start: int, offset: int)
    requires
        n > 0,
        0 <= t < n,
        hash >= 0,
        start == hash % n,
        offset == if t < n - start {
            start + t
        } else {
            t - (n - start)
        },
    ensures
        offset == (hash + t) % n,
{
    vstd::arithmetic::div_mod::lemma_mod_bound(hash, n);
    vstd::arithmetic::div_mod::lemma_fundamental_div_mod(hash, n);
    let q = hash / n;
    if t < n - start {
        assert(hash + t == q * n + offset) by (nonlinear_arith)
            requires
                hash == n * q + start,
                offset == start + t,
        ;
        vstd::arithmetic::div_mod::lemma_fundamental_div_mod_converse(hash + t, n, q, offset);
    } else {
        assert(hash + t == (q + 1) * n + offset) by (nonlinear_arith)
            requires
                hash == n * q + start,
                offset == t - (n - start),
        ;
        vstd::arithmetic::div_mod::lemma_fundamental_div_mod_converse(hash + t, n, q + 1, offset);
    }
}

proof fn lemma_row_in_usize(e: Entry, row_per_page: int, groups: int, n: int)
    requires
        occupied(e),
        row_per_page >= 1,
        0 <= entry_row(e, row_per_page) < groups,
        groups <= n <= usize::MAX,
    ensures
        0 <= (e.page_nr - 1) * row_per_page <= usize::MAX,
        0 <= entry_row(e, row_per_page) <= usize::MAX,
{
    assert(0 <= (e.page_nr - 1) * row_per_page) by (nonlinear_arith)
        requires
            e.page_nr >= 1,
            row_per_page >= 1,
    ;
}
/// A table that rows are added to has no more cells than it had, or no more than three times as
/// many as there are groups and rows.
pub open spec fn cells_bounded(before: TableView, after: TableView, row_count: int) -> bool {
    after.entries.len() <= before.entries.len() || after.entries.len() <= (before.groups.len() + row_count) * 3
}

/// Each of the first `n` rows has its group: one of its values.
pub open spec fn rows_have_groups(
    groups: Seq<GroupView>,
    addresses: Seq<usize>,
    columns: Seq<ColumnView>,
    n: int,
) -> bool {
    forall|i: int|
        0 <= i < n ==> (#[trigger] addresses[i]) < groups.len() && groups[addresses[i] as int].key == row_key(columns, i)
}

/// The groups are those that were there and new ones that stand for rows that were added.
pub open spec fn groups_grow(
    before: Seq<GroupView>,
    after: Seq<GroupView>,
    hashes: Seq<u64>,
    columns: Seq<ColumnView>,
    n: int,
) -> bool {
    &&& before.len() <= after.len() <= before.len() + n
    &&& after.take(before.len() as int) == before
    &&& forall|r: int| before.len() <= r < after.len() ==> is_new_group(#[trigger] after[r], hashes, columns, n)
}

/// Columns cut to a range of rows have the values of those rows.
proof fn lemma_row_key_slice(columns: Seq<ColumnView>, cut: Seq<ColumnView>, start: int, end: int, i: int)
    requires
        cut.len() == columns.len(),
        0 <= start <= start + i < end,
        i >= 0,
        forall|c: int| 0 <= c < columns.len() ==> (#[trigger] cut[c]).rows == rows_in(columns[c].rows, start, end),
        forall|c: int| 0 <= c < columns.len() ==> end <= (#[trigger] columns[c]).rows.len(),
    ensures
        row_key(cut, i) == row_key(columns, start + i),
{
    assert(row_key(cut, i) =~= row_key(columns, start + i)) by {
        assert forall|c: int| 0 <= c < columns.len() implies row_key(cut, i)[c] == row_key(columns, start + i)[c] by {
            assert(cut[c].rows == rows_in(columns[c].rows, start, end));
            assert(end <= columns[c].rows.len());
        }
    }
}

impl AggregateHashTable {
    /// Adds rows to their groups, in batches. Returns how many groups were made;
    /// `state.addresses` names the group of each row. `hashes` holds the hash of each row.
    pub fn add_groups(
        &mut self,
        state: &mut ProbeState,
        group_columns: &Vec<Column>,
        hashes: &Vec<u64>,
        row_count: usize,
    ) -> (new_group_count: usize)
        requires
            old(self).wf(),
            row_count <= hashes@.len(),
            forall|c: int| 0 <= c < group_columns@.len() ==> row_count <= (#[trigger] group_columns@[c])@.rows.len(),
            old(self).table().entries.len() * 2 <= usize::MAX,
            (old(self).groups().len() + row_count) * 6 <= usize::MAX,
            pages_fit(old(self).groups().len() + row_count, old(self).table().row_per_page),
        ensures
            final(self).wf(),
            final(self).table().row_per_page == old(self).table().row_per_page,
            cells_bounded(
                old(self).table(),
                final(self).table(),
                row_count as int,
            ),
            new_group_count == final(self).groups().len() - old(self).groups().len(),
            groups_grow(
                old(self).groups(),
                final(self).groups(),
                hashes@,
                column_views(group_columns@),
                row_count as int,
            ),
            final(state).addresses@.len() == row_count,
            rows_have_groups(
                final(self).groups(),
                final(state).addresses@,
                column_views(group_columns@),
                row_count as int,
            ),
            all_found(final(self).table()),
            groups_distinct(old(self).groups()) && hashes_agree(
                old(self).groups(),
                hashes@,
                column_views(group_columns@),
                row_count as int,
            ) ==> groups_distinct(final(self).groups()),
    {
        let ghost columns = column_views(group_columns@);
        let ghost groups0 = self.groups();
        let ghost t0 = self.table();
        let ghost good = groups_distinct(groups0) && hashes_agree(
            groups0,
            hashes@,
            columns,
            row_count as int,
        );
        let mut addresses: Vec<usize> = Vec::new();
        let mut new_group_count: usize = 0;
        let mut start: usize = 0;
        proof {
            assert(groups0.take(groups0.len() as int) =~= groups0);
            lemma_count_bound(self.entries@);
        }
        while start < row_count
            invariant
                start <= row_count,
                self.wf(),
                row_count <= hashes@.len(),
                columns == column_views(group_columns@),
                forall|c: int| 0 <= c < group_columns@.len() ==> row_count <= (#[trigger] group_columns@[c])@.rows.len(),
                t0.entries.len() * 2 <= usize::MAX,
                (groups0.len() + row_count) * 6 <= usize::MAX,
                self.table().entries.len() <= t0.entries.len() || self.table().entries.len() <= (groups0.len()
                    + row_count) * 3,
                pages_fit(groups0.len() + row_count, t0.row_per_page),
                self.table().row_per_page == t0.row_per_page,
                t0.row_per_page >= 1,
                groups0 == t0.groups,
                new_group_count == self.groups().len() - groups0.len(),
                new_group_count <= start,
                groups_grow(groups0, self.groups(), hashes@, columns, start as int),
                addresses@.len() == start,
                rows_have_groups(self.groups(), addresses@, columns, start as int),
                good ==> {
                    &&& groups_distinct(self.groups())
                    &&& hashes_agree(self.groups(), hashes@, columns, row_count as int)
                },
            decreases row_count - start,
        {
            let end: usize = if row_count - start < BATCH_ADD_SIZE {
                row_count
            } else {
                start + BATCH_ADD_SIZE
            };
            let step: usize = end - start;
            let ghost groups1 = self.groups();
            let ghost t1 = self.table();
            let mut step_columns: Vec<Column> = Vec::new();
            let mut c: usize = 0;
            while c < group_columns.len()
                invariant
                    c <= group_columns.len(),
                    start < end <= row_count,
                    columns == column_views(group_columns@),
                    forall|j: int| 0 <= j < group_columns@.len() ==> row_count <= (#[trigger] group_columns@[j])@.rows.len(),
                    step_columns.len() == c,
                    forall|j: int|
                        0 <= j < c ==> (#[trigger] step_columns@[j])@.rows == rows_in(
                            columns[j].rows,
                            start as int,
                            end as int,
                        ),
                decreases group_columns.len() - c,
            {
                assert(row_count <= group_columns@[c as int]@.rows.len());
                step_columns.push(group_columns[c].slice(start, end));
                c += 1;
            }
            let mut step_hashes: Vec<u64> = Vec::new();
            let mut h: usize = start;
            while h < end
                invariant
                    start <= h <= end,
                    end <= hashes@.len(),
                    step_hashes@ == hashes@.subrange(start as int, h as int),
                decreases end - h,
            {
                step_hashes.push(hashes[h]);
                assert(hashes@.subrange(start as int, h + 1) =~= hashes@.subrange(start as int, h as int).push(
                    hashes@[h as int],
                ));
                h += 1;
            }
            state.group_hashes = step_hashes;
            let ghost cut = column_views(step_columns@);
            proof {
                assert forall|j: int| 0 <= j < step_columns@.len() implies step <= (#[trigger] step_columns@[j])@.rows.len() by {
                    assert(row_count <= group_columns@[j]@.rows.len());
                }
                assert forall|i: int| 0 <= i < step implies #[trigger] row_key(cut, i) == row_key(columns, start + i) by {
                    assert forall|j: int| 0 <= j < columns.len() implies (#[trigger] cut[j]).rows == rows_in(
                        columns[j].rows,
                        start as int,
                        end as int,
                    ) by {
                        assert(step_columns@[j]@.rows == rows_in(columns[j].rows, start as int, end as int));
                    }
                    assert forall|j: int| 0 <= j < columns.len() implies end <= (#[trigger] columns[j]).rows.len() by {
                        assert(row_count <= group_columns@[j]@.rows.len());
                    }
                    lemma_row_key_slice(columns, cut, start as int, end as int, i);
                }
                lemma_pages_monotonic(groups1.len() + step, groups0.len() + row_count, t0.row_per_page);
                if good {
                    assert(hashes_agree(groups1, state.group_hashes@, cut, step as int)) by {
                        assert forall|r: int, i: int|
                            #![trigger groups1[r], state.group_hashes@[i]]
                            0 <= r < groups1.len() && 0 <= i < step && groups1[r].key == row_key(cut, i) implies groups1[r].hash
                            == state.group_hashes@[i] by {
                            assert(row_key(cut, i) == row_key(columns, start + i));
                            assert(state.group_hashes@[i] == hashes@[start + i]);
                        }
                        assert forall|i: int, j: int|
                            #![trigger state.group_hashes@[i], state.group_hashes@[j]]
                            0 <= i < step && 0 <= j < step && row_key(cut, i) == row_key(cut, j) implies state.group_hashes@[i]
                            == state.group_hashes@[j] by {
                            assert(row_key(cut, i) == row_key(columns, start + i));
                            assert(row_key(cut, j) == row_key(columns, start + j));
                            assert(state.group_hashes@[i] == hashes@[start + i]);
                            assert(state.group_hashes@[j] == hashes@[start + j]);
                        }
                    }
                }
            }
            let step_count: usize = self.probe_and_create(state, &step_columns, step);
            let ghost places = state.addresses@;
            let ghost addresses1 = addresses@;
            new_group_count += step_count;
            addresses.append(&mut state.addresses);
            proof {
                assert(addresses@ =~= addresses1 + places);
                let groups2 = self.groups();
                assert forall|i: int| 0 <= i < end implies (#[trigger] addresses@[i]) < groups2.len()
                    && groups2[addresses@[i] as int].key == row_key(columns, i) by {
                    if i < start {
                        assert(addresses@[i] == addresses1[i]);
                        assert(groups2.take(groups1.len() as int)[addresses1[i] as int] == groups1[addresses1[i] as int]);
                    } else {
                        assert(addresses@[i] == places[i - start]);
                        assert(row_key(cut, i - start) == row_key(columns, start + (i - start)));
                    }
                }
                assert(groups2.take(groups0.len() as int) =~= groups0) by {
                    assert forall|r: int| 0 <= r < groups0.len() implies groups2[r] == groups0[r] by {
                        assert(groups2.take(groups1.len() as int)[r] == groups1[r]);
                        assert(groups1.take(groups0.len() as int)[r] == groups0[r]);
                    }
                }
                assert forall|r: int| groups0.len() <= r < groups2.len() implies is_new_group(
                    #[trigger] groups2[r],
                    hashes@,
                    columns,
                    end as int,
                ) by {
                    if r < groups1.len() {
                        assert(groups2.take(groups1.len() as int)[r] == groups1[r]);
                        assert(is_new_group(groups1[r], hashes@, columns, start as int));
                        let i = choose|i: int|
                            0 <= i < start && groups1[r] == (GroupView { hash: #[trigger] hashes@[i], key: row_key(columns, i) });
                        assert(hashes@[i] == hashes@[i]);
                    } else {
                        let sh = hashes@.subrange(start as int, end as int);
                        assert(is_new_group(groups2[r], sh, cut, step as int));
                        let i = choose|i: int|
                            0 <= i < step && groups2[r] == (GroupView { hash: #[trigger] sh[i], key: row_key(cut, i) });
                        assert(row_key(cut, i) == row_key(columns, start + i));
                        assert(sh[i] == hashes@[start + i]);
                    }
                }
                if good {
                    assert(hashes_agree(groups2, hashes@, columns, row_count as int)) by {
                        assert forall|r: int, i: int|
                            #![trigger groups2[r], hashes@[i]]
                            0 <= r < groups2.len() && 0 <= i < row_count && groups2[r].key == row_key(columns, i) implies groups2[r].hash
                            == hashes@[i] by {
                            if r < groups0.len() {
                                assert(groups2.take(groups0.len() as int)[r] == groups0[r]);
                            } else {
                                assert(is_new_group(groups2[r], hashes@, columns, end as int));
                                let j = choose|j: int|
                                    0 <= j < end && groups2[r] == (GroupView {
                                        hash: #[trigger] hashes@[j],
                                        key: row_key(columns, j),
                                    });
                                assert(hashes@[j] == hashes@[i]);
                            }
                        }
                    }
                }
            }
            start = end;
        }
        state.addresses = addresses;
        new_group_count
    }

    /// Adds the groups of another table. Returns for each of them the group that it has become
    /// part of.
    pub fn combine(&mut self, other: AggregateHashTable, state: &mut ProbeState) -> (places: Vec<usize>)
        requires
            old(self).wf(),
            other.wf(),
            forall|r: int| 0 <= r < other.groups().len() ==> (#[trigger] other.groups()[r]).key.len()
                == other.groups()[0].key.len(),
            old(self).table().entries.len() * 2 <= usize::MAX,
            (old(self).groups().len() + other.groups().len()) * 2 <= usize::MAX,
            pages_fit((old(self).groups().len() + other.groups().len()) as int, old(self).table().row_per_page),
        ensures
            final(self).wf(),
            final(self).table().row_per_page == old(self).table().row_per_page,
            cells_bounded(
                old(self).table(),
                final(self).table(),
                other.groups().len() as int,
            ),
            old(self).groups().len() <= final(self).groups().len() <= old(self).groups().len() + other.groups().len(),
            final(self).groups().take(old(self).groups().len() as int) == old(self).groups(),
            places@.len() == other.groups().len(),
            forall|r: int|
                0 <= r < other.groups().len() ==> (#[trigger] places@[r]) < final(self).groups().len()
                    && final(self).groups()[places@[r] as int].key == other.groups()[r].key,
            forall|g: int|
                old(self).groups().len() <= g < final(self).groups().len() ==> other.groups().contains(
                    #[trigger] final(self).groups()[g],
                ),
            groups_distinct(old(self).groups()) && groups_distinct(other.groups()) && (forall|a: int, b: int|
                #![trigger old(self).groups()[a], other.groups()[b]]
                0 <= a < old(self).groups().len() && 0 <= b < other.groups().len() && old(self).groups()[a].key
                    == other.groups()[b].key ==> old(self).groups()[a].hash == other.groups()[b].hash)
                ==> groups_distinct(final(self).groups()),
            all_found(final(self).table()),
    {
        let ghost groups = other.groups();
        let ghost g0 = self.groups();
        let rows: usize = other.payload.rows.len();
        let mut hashes: Vec<u64> = Vec::new();
        let mut h: usize = 0;
        while h < rows
            invariant
                h <= rows,
                rows == other.payload.rows@.len(),
                groups == group_views(other.payload.rows@),
                hashes.len() == h,
                forall|j: int| 0 <= j < h ==> #[trigger] hashes@[j] == groups[j].hash,
            decreases rows - h,
        {
            hashes.push(other.payload.rows[h].hash);
            h += 1;
        }
        let width: usize = if rows == 0 {
            0
        } else {
            other.payload.rows[0].key.len()
        };
        assert(rows > 0 ==> groups[0].key.len() == width);
        let mut columns: Vec<Column> = Vec::new();
        let mut c: usize = 0;
        while c < width
            invariant
                c <= width,
                rows == other.payload.rows@.len(),
                groups == group_views(other.payload.rows@),
                forall|r: int| 0 <= r < rows ==> (#[trigger] groups[r]).key.len() == width,
                columns.len() == c,
                forall|j: int|
                    #![trigger columns@[j]]
                    0 <= j < c ==> columns@[j]@.rows.len() == rows && forall|r: int|
                        0 <= r < rows ==> seen(#[trigger] columns@[j]@.rows[r]) == groups[r].key[j],
            decreases width - c,
        {
            let mut column_rows: Vec<Scalar> = Vec::new();
            let mut r: usize = 0;
            while r < rows
                invariant
                    r <= rows,
                    c < width,
                    rows == other.payload.rows@.len(),
                    groups == group_views(other.payload.rows@),
                    forall|k: int| 0 <= k < rows ==> (#[trigger] groups[k]).key.len() == width,
                    column_rows.len() == r,
                    forall|k: int| 0 <= k < r ==> seen(scalar_view(#[trigger] column_rows@[k])) == groups[k].key[c as int],
                decreases rows - r,
            {
                assert(groups[r as int] == other.payload.rows@[r as int]@);
                assert(groups[r as int].key.len() == width);
                column_rows.push(other.payload.rows[r].key[c].clone());
                r += 1;
            }
            columns.push(Column { data_type: DataType::Null, rows: column_rows });
            c += 1;
        }
        state.group_hashes = hashes;
        let ghost views = column_views(columns@);
        proof {
            assert forall|r: int| 0 <= r < rows implies #[trigger] row_key(views, r) == groups[r].key by {
                assert(groups[r].key.len() == width);
                assert forall|j: int| 0 <= j < width implies row_key(views, r)[j] == groups[r].key[j] by {
                    assert(seen(columns@[j]@.rows[r]) == groups[r].key[j]);
                }
                assert(row_key(views, r) =~= groups[r].key);
            }
            if groups_distinct(groups) && (forall|a: int, b: int|
                #![trigger g0[a], groups[b]]
                0 <= a < g0.len() && 0 <= b < groups.len() && g0[a].key == groups[b].key ==> g0[a].hash == groups[b].hash) {
                assert(hashes_agree(g0, state.group_hashes@, views, rows as int)) by {
                    assert forall|a: int, i: int|
                        #![trigger g0[a], state.group_hashes@[i]]
                        0 <= a < g0.len() && 0 <= i < rows && g0[a].key == row_key(views, i) implies g0[a].hash
                        == state.group_hashes@[i] by {
                        assert(row_key(views, i) == groups[i].key);
                    }
                    assert forall|i: int, j: int|
                        #![trigger state.group_hashes@[i], state.group_hashes@[j]]
                        0 <= i < rows && 0 <= j < rows && row_key(views, i) == row_key(views, j) implies state.group_hashes@[i]
                        == state.group_hashes@[j] by {
                        assert(row_key(views, i) == groups[i].key);
                        assert(row_key(views, j) == groups[j].key);
                    }
                }
            }
        }
        let ghost hv = state.group_hashes@;
        let _ = self.probe_and_create(state, &columns, rows);
        let mut places: Vec<usize> = Vec::new();
        places.append(&mut state.addresses);
        proof {
            assert forall|r: int| 0 <= r < groups.len() implies (#[trigger] places@[r]) < self.groups().len()
                && self.groups()[places@[r] as int].key == groups[r].key by {
                assert(row_key(views, r) == groups[r].key);
            }
            assert forall|g: int| g0.len() <= g < self.groups().len() implies groups.contains(
                #[trigger] self.groups()[g],
            ) by {
                assert(is_new_group(self.groups()[g], hv, views, rows as int));
                let i = choose|i: int|
                    0 <= i < rows && self.groups()[g] == (GroupView { hash: #[trigger] hv[i], key: row_key(views, i) });
                assert(row_key(views, i) == groups[i].key);
                assert(self.groups()[g] == groups[i]);
            }
        }
        places
    }
}

/// The values that groups stand for.
pub open spec fn group_keys(groups: Seq<GroupView>) -> Set<Seq<ScalarView>> {
    groups.map_values(|g: GroupView| g.key).to_set()
}

/// The values of the first `n` rows.
pub open spec fn row_keys(columns: Seq<ColumnView>, n: nat) -> Set<Seq<ScalarView>> {
    Seq::new(n, |i: int| row_key(columns, i)).to_set()
}

proof fn lemma_group_key(groups: Seq<GroupView>, r: int)
    requires
        0 <= r < groups.len(),
    ensures
        group_keys(groups).contains(groups[r].key),
{
    let keys = groups.map_values(|g: GroupView| g.key);
    assert(keys[r] == groups[r].key);
}

proof fn lemma_key_of_group(groups: Seq<GroupView>, key: Seq<ScalarView>) -> (r: int)
    requires
        group_keys(groups).contains(key),
    ensures
        0 <= r < groups.len(),
        groups[r].key == key,
{
    let keys = groups.map_values(|g: GroupView| g.key);
    let r = choose|r: int| 0 <= r < keys.len() && keys[r] == key;
    r
}

/// Where no two groups have the same values, the table has as many groups as there are different
/// values.
pub proof fn len_counts_the_keys(groups: Seq<GroupView>)
    requires
        groups_distinct(groups),
    ensures
        group_keys(groups).finite(),
        group_keys(groups).len() == groups.len(),
{
    let keys = groups.map_values(|g: GroupView| g.key);
    assert forall|a: int, b: int| 0 <= a < keys.len() && 0 <= b < keys.len() && a != b implies keys[a] != keys[b] by {
        if a < b {
            assert(groups[a].key != groups[b].key);
        } else {
            assert(groups[b].key != groups[a].key);
        }
    }
    keys.unique_seq_to_set();
    vstd::seq_lib::seq_to_set_is_finite(keys);
}

/// Rows that are added leave a table with the values that it had and theirs, each once: as many
/// groups are made as there are different values among the rows that the table did not have. So
/// rows whose values it has make none.
pub proof fn keys_are_added_once(
    before: Seq<GroupView>,
    after: Seq<GroupView>,
    hashes: Seq<u64>,
    columns: Seq<ColumnView>,
    addresses: Seq<usize>,
    n: nat,
)
    requires
        groups_grow(before, after, hashes, columns, n as int),
        rows_have_groups(after, addresses, columns, n as int),
    ensures
        group_keys(after) == group_keys(before).union(row_keys(columns, n)),
        groups_distinct(after) ==> after.len() - before.len() == row_keys(columns, n).difference(
            group_keys(before),
        ).len(),
        groups_distinct(after) && row_keys(columns, n).subset_of(group_keys(before)) ==> after == before,
{
    let rows = Seq::new(n, |i: int| row_key(columns, i));
    assert forall|key: Seq<ScalarView>| #[trigger] group_keys(after).contains(key) implies group_keys(before).contains(
        key,
    ) || row_keys(columns, n).contains(key) by {
        let r = lemma_key_of_group(after, key);
        if r < before.len() {
            assert(after.take(before.len() as int)[r] == before[r]);
            lemma_group_key(before, r);
        } else {
            assert(is_new_group(after[r], hashes, columns, n as int));
            let i = choose|i: int|
                0 <= i < n && after[r] == (GroupView { hash: #[trigger] hashes[i], key: row_key(columns, i) });
            assert(rows[i] == key);
        }
    }
    assert forall|key: Seq<ScalarView>| #[trigger] group_keys(before).contains(key) implies group_keys(after).contains(
        key,
    ) by {
        let r = lemma_key_of_group(before, key);
        assert(after.take(before.len() as int)[r] == before[r]);
        lemma_group_key(after, r);
    }
    assert forall|key: Seq<ScalarView>| #[trigger] row_keys(columns, n).contains(key) implies group_keys(after).contains(
        key,
    ) by {
        let i = choose|i: int| 0 <= i < rows.len() && rows[i] == key;
        assert(addresses[i] < after.len());
        lemma_group_key(after, addresses[i] as int);
    }
    assert(group_keys(after) =~= group_keys(before).union(row_keys(columns, n)));
    if groups_distinct(after) {
        let made = after.skip(before.len() as int);
        assert(groups_distinct(made)) by {
            assert forall|a: int, b: int|
                #![trigger made[a], made[b]]
                0 <= a < b < made.len() implies made[a].key != made[b].key by {
                assert(after[a + before.len()].key != after[b + before.len()].key);
            }
        }
        len_counts_the_keys(made);
        let fresh = row_keys(columns, n).difference(group_keys(before));
        assert forall|key: Seq<ScalarView>| group_keys(made).contains(key) implies #[trigger] fresh.contains(key) by {
            let m = lemma_key_of_group(made, key);
            let r = m + before.len();
            assert(after[r] == made[m]);
            assert(is_new_group(after[r], hashes, columns, n as int));
            let i = choose|i: int|
                0 <= i < n && after[r] == (GroupView { hash: #[trigger] hashes[i], key: row_key(columns, i) });
            assert(rows[i] == key);
            if group_keys(before).contains(key) {
                let o = lemma_key_of_group(before, key);
                assert(after.take(before.len() as int)[o] == before[o]);
                assert(after[o].key != after[r].key);
            }
        }
        assert forall|key: Seq<ScalarView>| #[trigger] fresh.contains(key) implies group_keys(made).contains(key) by {
            assert(group_keys(after).contains(key));
            let r = lemma_key_of_group(after, key);
            if r < before.len() {
                assert(after.take(before.len() as int)[r] == before[r]);
                lemma_group_key(before, r);
            }
            assert(made[r - before.len()] == after[r]);
            lemma_group_key(made, r - before.len());
        }
        assert(group_keys(made) =~= fresh);
        if row_keys(columns, n).subset_of(group_keys(before)) {
            assert(fresh =~= Set::<Seq<ScalarView>>::empty());
            assert(after.take(before.len() as int) =~= after);
        }
    }
}

/// Rows that are added again find the groups that they have made, and make none: the second time
/// each row is given the group that it was given the first time.
pub proof fn rows_added_again_make_no_group(
    before: Seq<GroupView>,
    middle: Seq<GroupView>,
    after: Seq<GroupView>,
    first: AddedRows,
    again: AddedRows,
)
    requires
        rows_added(before, first, middle),
        rows_added(middle, again, after),
        again.hashes == first.hashes,
        again.columns == first.columns,
        again.row_count == first.row_count,
        groups_distinct(before),
        hashes_agree(before, first.hashes, first.columns, first.row_count as int),
    ensures
        after == middle,
        forall|i: int|
            0 <= i < first.row_count ==> #[trigger] again.addresses[i] == first.addresses[i],
{
    let n = first.row_count;
    assert(groups_distinct(middle));
    assert(hashes_agree(middle, again.hashes, again.columns, n as int)) by {
        assert forall|r: int, i: int|
            #![trigger middle[r], again.hashes[i]]
            0 <= r < middle.len() && 0 <= i < n && middle[r].key == row_key(again.columns, i) implies middle[r].hash
            == again.hashes[i] by {
            if r < before.len() {
                assert(middle.take(before.len() as int)[r] == before[r]);
            } else {
                assert(is_new_group(middle[r], first.hashes, first.columns, n as int));
                let j = choose|j: int|
                    0 <= j < n && middle[r] == (GroupView {
                        hash: #[trigger] first.hashes[j],
                        key: row_key(first.columns, j),
                    });
                assert(first.hashes[j] == first.hashes[i]);
            }
        }
    }
    keys_are_added_once(before, middle, first.hashes, first.columns, first.addresses, n);
    keys_are_added_once(middle, after, again.hashes, again.columns, again.addresses, n);
    assert(row_keys(again.columns, n).subset_of(group_keys(middle)));
    assert forall|i: int| 0 <= i < n implies #[trigger] again.addresses[i] == first.addresses[i] by {
        let a = first.addresses[i] as int;
        let b = again.addresses[i] as int;
        assert(middle[a].key == middle[b].key);
        if a < b {
            assert(middle[a].key != middle[b].key);
        } else if b < a {
            assert(middle[b].key != middle[a].key);
        }
    }
}

/// Rows that are added to a table: their hashes, their values, and the group that each was given.
pub struct AddedRows {
    pub hashes: Seq<u64>,
    pub columns: Seq<ColumnView>,
    pub addresses: Seq<usize>,
    pub row_count: nat,
}

/// The groups after rows are added.
pub open spec fn rows_added(before: Seq<GroupView>, rows: AddedRows, after: Seq<GroupView>) -> bool {
    &&& groups_grow(before, after, rows.hashes, rows.columns, rows.row_count as int)
    &&& rows_have_groups(after, rows.addresses, rows.columns, rows.row_count as int)
    &&& groups_distinct(before) && hashes_agree(before, rows.hashes, rows.columns, rows.row_count as int)
        ==> groups_distinct(after)
}

/// The hashes of rows are those of their values.
pub open spec fn hashed_by(rows: AddedRows, hash_of: spec_fn(Seq<ScalarView>) -> u64) -> bool {
    forall|i: int| 0 <= i < rows.row_count ==> #[trigger] rows.hashes[i] == hash_of(row_key(rows.columns, i))
}

/// The values of all rows that are added in the first `n` calls.
pub open spec fn all_row_keys(calls: Seq<AddedRows>, n: nat) -> Set<Seq<ScalarView>>
    decreases n,
{
    if n == 0 {
        Set::empty()
    } else {
        all_row_keys(calls, (n - 1) as nat).union(row_keys(calls[n - 1].columns, calls[n - 1].row_count))
    }
}

/// Over any run of calls that add rows to a table that was empty, no two groups have the same
/// values, and there are as many groups as there were different values among all rows.
pub proof fn a_run_counts_the_distinct_keys(
    tables: Seq<Seq<GroupView>>,
    calls: Seq<AddedRows>,
    hash_of: spec_fn(Seq<ScalarView>) -> u64,
    n: nat,
)
    requires
        n <= calls.len(),
        tables.len() == calls.len() + 1,
        tables[0].len() == 0,
        forall|c: int| 0 <= c < calls.len() ==> rows_added(tables[c], #[trigger] calls[c], tables[c + 1]),
        forall|c: int| 0 <= c < calls.len() ==> hashed_by(#[trigger] calls[c], hash_of),
    ensures
        groups_distinct(tables[n as int]),
        group_keys(tables[n as int]) == all_row_keys(calls, n),
        tables[n as int].len() == all_row_keys(calls, n).len(),
        forall|r: int| 0 <= r < tables[n as int].len() ==> (#[trigger] tables[n as int][r]).hash == hash_of(
            tables[n as int][r].key,
        ),
    decreases n,
{
    if n == 0 {
        assert(group_keys(tables[0]) =~= Set::<Seq<ScalarView>>::empty());
    } else {
        let m = (n - 1) as nat;
        a_run_counts_the_distinct_keys(tables, calls, hash_of, m);
        let before = tables[m as int];
        let call = calls[m as int];
        let after = tables[n as int];
        assert(rows_added(before, call, after));
        assert(hashed_by(call, hash_of));
        assert(hashes_agree(before, call.hashes, call.columns, call.row_count as int));
        keys_are_added_once(before, after, call.hashes, call.columns, call.addresses, call.row_count);
        len_counts_the_keys(after);
        assert forall|r: int| 0 <= r < after.len() implies (#[trigger] after[r]).hash == hash_of(after[r].key) by {
            if r < before.len() {
                assert(after.take(before.len() as int)[r] == before[r]);
            } else {
                assert(is_new_group(after[r], call.hashes, call.columns, call.row_count as int));
                let i = choose|i: int|
                    0 <= i < call.row_count && after[r] == (GroupView {
                        hash: #[trigger] call.hashes[i],
                        key: row_key(call.columns, i),
                    });
                assert(call.hashes[i] == hash_of(row_key(call.columns, i)));
            }
        }
    }
}

/// How many rows are added in one batch.
pub const BATCH_ADD_SIZE: usize = 2048;

/// Rows are in one group exactly where they have the same values in all columns that they are
/// grouped by, and a group has those values.
pub proof fn rows_that_agree_share_a_group(
    groups: Seq<GroupView>,
    addresses: Seq<usize>,
    columns: Seq<ColumnView>,
    n: int,
    i: int,
    j: int,
)
    requires
        rows_have_groups(groups, addresses, columns, n),
        groups_distinct(groups),
        0 <= i < n,
        0 <= j < n,
    ensures
        addresses[i] < groups.len(),
        groups[addresses[i] as int].key.len() == columns.len(),
        forall|c: int|
            0 <= c < columns.len() ==> #[trigger] groups[addresses[i] as int].key[c] == seen(columns[c].rows[i]),
        addresses[i] == addresses[j] <==> (forall|c: int|
            0 <= c < columns.len() ==> seen((#[trigger] columns[c]).rows[i]) == seen(columns[c].rows[j])),
{
    let x = addresses[i] as int;
    let y = addresses[j] as int;
    assert(groups[x].key == row_key(columns, i) && groups[y].key == row_key(columns, j));
    if forall|c: int| 0 <= c < columns.len() ==> seen((#[trigger] columns[c]).rows[i]) == seen(columns[c].rows[j]) {
        assert(row_key(columns, i) =~= row_key(columns, j));
    }
    if x == y {
        assert forall|c: int| 0 <= c < columns.len() implies seen((#[trigger] columns[c]).rows[i]) == seen(
            columns[c].rows[j],
        ) by {
            assert(row_key(columns, i)[c] == row_key(columns, j)[c]);
        }
    }
}

/// A table keeps its cells while its groups and the rows that come take up at most two thirds of
/// them. Otherwise it gets at least twice as many, and more cells than there can be groups.
pub proof fn a_table_grows_before_it_is_full(t: TableView, row_count: int)
    requires
        row_count >= 0,
        t.entries.len() > 0,
    ensures
        ({
            let now = reserved(t, row_count);
            let filled = t.groups.len() + row_count;
            &&& now.groups == t.groups
            &&& now.row_per_page == t.row_per_page
            &&& 3 * filled <= 2 * t.entries.len() ==> now == t
            &&& 3 * filled > 2 * t.entries.len() ==> now.entries.len() >= 2 * t.entries.len() && now.entries.len() > filled
        }),
{
    let filled = (t.groups.len() + row_count) as nat;
    lemma_enough_cells(t.entries.len() * 2, filled);
    let n = enough_cells(t.entries.len() * 2, filled);
    lemma_as_many_cells(t.groups, t.groups.len(), n, t.row_per_page);
}

proof fn lemma_enough_cells(cells: nat, groups: nat)
    requires
        cells > 0,
    ensures
        enough_cells(cells, groups) >= cells,
        enough_cells(cells, groups) > groups,
    decreases (if cells > groups {
        0int
    } else {
        groups - cells + 1
    }),
{
    if cells <= groups {
        lemma_enough_cells(cells * 2, groups);
    }
}

proof fn lemma_as_many_cells(groups: Seq<GroupView>, rows: nat, n: nat, row_per_page: int)
    requires
        n > 0,
    ensures
        filled_cells(groups, rows, n, row_per_page).len() == n,
    decreases rows,
{
    if rows > 0 {
        lemma_as_many_cells(groups, (rows - 1) as nat, n, row_per_page);
        let before = filled_cells(groups, (rows - 1) as nat, n, row_per_page);
        let hash = groups[rows - 1].hash;
        let k = choose|k: int| is_first_empty(before, hash, k);
        vstd::arithmetic::div_mod::lemma_mod_bound(hash as int + k, n as int);
    }
}

/// A number of cells is a power of two: one doubled some number of times.
pub proof fn numbers_of_cells_are_doubled(e: nat)
    ensures
        power_of_two(1),
        power_of_two(pow2(e)),
    decreases e,
{
    if e > 0 {
        numbers_of_cells_are_doubled((e - 1) as nat);
        lemma_pow2_unfold(e);
        lemma_pow2_pos((e - 1) as nat);
        assert(pow2(e) / 2 == pow2((e - 1) as nat));
    } else {
        lemma2_to64();
    }
}

/// Every number of cells is one doubled some number of times.
pub proof fn only_doubled_numbers_are_numbers_of_cells(n: nat)
    requires
        power_of_two(n),
    ensures
        exists|e: nat| n == #[trigger] pow2(e),
    decreases n,
{
    if n == 1 {
        lemma2_to64();
        assert(n == pow2(0));
    } else {
        only_doubled_numbers_are_numbers_of_cells(n / 2);
        let e = choose|e: nat| n / 2 == #[trigger] pow2(e);
        lemma_pow2_unfold(e + 1);
        assert(n == pow2(e + 1));
    }
}

/// A cell says which row it names: the page, counted from one, and the place on the page.
pub proof fn a_cell_names_its_row(row: int, row_per_page: int, hash: u64)
    requires
        0 <= row,
        1 <= row_per_page <= u16::MAX,
        pages_fit(row, row_per_page),
    ensures
        ({
            let e = entry_of(row, row_per_page, hash);
            &&& occupied(e)
            &&& entry_row(e, row_per_page) == row
            &&& (e.page_nr - 1) * row_per_page + e.page_offset == row
            &&& e.page_offset < row_per_page
        }),
{
    vstd::arithmetic::div_mod::lemma_fundamental_div_mod(row, row_per_page);
    vstd::arithmetic::div_mod::lemma_mod_bound(row, row_per_page);
    vstd::arithmetic::div_mod::lemma_div_pos_is_pos(row, row_per_page);
    assert((row / row_per_page) * row_per_page == row_per_page * (row / row_per_page)) by (nonlinear_arith);
}

/// The salt of a hash is its highest sixteen bits.
pub proof fn the_salt_is_the_top_of_the_hash(hash: u64)
    ensures
        salt_of(hash) as int == hash as int / 0x1_0000_0000_0000,
{
    assert((hash >> 48) as u16 as u64 == hash / 0x1_0000_0000_0000u64) by (bit_vector);
}

}
