//! What is found in the directory of a table.

use vstd::prelude::*;

use crate::text::concat;
use crate::text::texts;

verus! {

/// What the names of files of each kind start with.
#[derive(Debug)]
pub struct DirPrefixes {
    pub snapshot: String,
    pub snapshot_statistics: String,
    pub segment: String,
    pub block: String,
    pub index: String,
    pub last_snapshot_hint: String,
}

/// What a file of a table is.
#[derive(Clone, Copy, Debug, PartialEq, Eq, Structural)]
pub enum FileKind {
    Snapshot,
    Segment,
    Block,
    Index,
    SnapshotStatistics,
    LastSnapshotHint,
    Other,
}

pub open spec fn starts(s: Seq<char>, prefix: Seq<char>) -> bool {
    prefix.len() <= s.len() && s.take(prefix.len() as int) == prefix
}

/// What a file is by its name: the first kind whose names start as it does.
pub open spec fn kind_of(name: Seq<char>, p: DirPrefixes) -> FileKind {
    if starts(name, p.snapshot@) {
        FileKind::Snapshot
    } else if starts(name, p.segment@) {
        FileKind::Segment
    } else if starts(name, p.block@) {
        FileKind::Block
    } else if starts(name, p.index@) {
        FileKind::Index
    } else if starts(name, p.snapshot_statistics@) {
        FileKind::SnapshotStatistics
    } else if starts(name, p.last_snapshot_hint@) {
        FileKind::LastSnapshotHint
    } else {
        FileKind::Other
    }
}

/// How many slashes there are among the first `n` characters.
pub open spec fn slashes(s: Seq<char>, n: nat) -> nat
    decreases n,
{
    if n == 0 {
        0
    } else {
        slashes(s, (n - 1) as nat) + if s[n - 1] == '/' {
            1nat
        } else {
            0
        }
    }
}

/// The characters of a path between its slashes number `k` and `k + 1`.
pub open spec fn part_of_path(s: Seq<char>, k: nat, n: nat) -> Seq<char>
    decreases n,
{
    if n == 0 {
        Seq::empty()
    } else if s[n - 1] != '/' && slashes(s, (n - 1) as nat) == k {
        part_of_path(s, k, (n - 1) as nat).push(s[n - 1])
    } else {
        part_of_path(s, k, (n - 1) as nat)
    }
}

/// The path of a file below the root.
pub open spec fn below(path: Seq<char>, root: Seq<char>) -> Seq<char> {
    path.skip(root.len() as int)
}

/// The name of a file of a table: what follows the root, the database and the table, up to the
/// next slash.
pub open spec fn file_name(path: Seq<char>, root: Seq<char>) -> Seq<char> {
    part_of_path(below(path, root), 3, below(path, root).len())
}

/// A file lies below the root, in the directory of a table.
pub open spec fn is_table_file(path: Seq<char>, root: Seq<char>) -> bool {
    starts(path, root) && slashes(below(path, root), below(path, root).len()) >= 3
}

/// How many of the first `n` files are of a kind.
pub open spec fn count_of(files: Seq<Seq<char>>, root: Seq<char>, p: DirPrefixes, kind: FileKind, n: nat) -> nat
    decreases n,
{
    if n == 0 {
        0
    } else {
        count_of(files, root, p, kind, (n - 1) as nat) + if kind_of(file_name(files[n - 1], root), p) == kind {
            1nat
        } else {
            0
        }
    }
}

/// The paths below the root of those of the first `n` files that are of a kind.
pub open spec fn paths_of(files: Seq<Seq<char>>, root: Seq<char>, p: DirPrefixes, kind: FileKind, n: nat) -> Seq<
    Seq<char>,
>
    decreases n,
{
    if n == 0 {
        Seq::empty()
    } else if kind_of(file_name(files[n - 1], root), p) == kind {
        paths_of(files, root, p, kind, (n - 1) as nat).push(below(files[n - 1], root))
    } else {
        paths_of(files, root, p, kind, (n - 1) as nat)
    }
}

fn starts_with(s: &str, prefix: &str) -> (r: bool)
    ensures
        r == starts(s@, prefix@),
{
    let n: usize = prefix.unicode_len();
    if s.unicode_len() < n {
        return false;
    }
    let mut i: usize = 0;
    while i < n
        invariant
            i <= n,
            n == prefix@.len(),
            n <= s@.len(),
            forall|j: int| 0 <= j < i ==> #[trigger] s@[j] == prefix@[j],
        decreases n - i,
    {
        if s.get_char(i) != prefix.get_char(i) {
            assert(s@.take(n as int)[i as int] != prefix@[i as int]);
            return false;
        }
        i += 1;
    }
    assert(s@.take(n as int) =~= prefix@);
    true
}

fn rest_of(s: &str, start: usize) -> (r: String)
    requires
        start <= s@.len(),
    ensures
        r@ == s@.skip(start as int),
{
    let n: usize = s.unicode_len();
    let text = s.substring_char(start, n);
    assert(s@.subrange(start as int, n as int) =~= s@.skip(start as int));
    text.to_owned()
}

fn push_part(s: &str, k: usize) -> (r: String)
    ensures
        r@ == part_of_path(s@, k as nat, s@.len()),
{
    let mut r = String::new();
    let n: usize = s.unicode_len();
    let mut seen: usize = 0;
    let mut i: usize = 0;
    assert(r@ =~= Seq::<char>::empty());
    while i < n
        invariant
            i <= n,
            n == s@.len(),
            seen == slashes(s@, i as nat),
            seen <= i,
            r@ == part_of_path(s@, k as nat, i as nat),
        decreases n - i,
    {
        let c = s.get_char(i);
        let ghost before = r@;
        if c == '/' {
            seen += 1;
        } else if seen == k {
            let piece = s.substring_char(i, i + 1);
            assert(piece@ =~= seq![c]);
            r.append(piece);
            assert(r@ =~= before.push(c));
        }
        i += 1;
    }
    r
}

/// What a file is by its name.
pub fn file_kind(name: &str, p: &DirPrefixes) -> (r: FileKind)
    ensures
        r == kind_of(name@, *p),
{
    if starts_with(name, p.snapshot.as_str()) {
        FileKind::Snapshot
    } else if starts_with(name, p.segment.as_str()) {
        FileKind::Segment
    } else if starts_with(name, p.block.as_str()) {
        FileKind::Block
    } else if starts_with(name, p.index.as_str()) {
        FileKind::Index
    } else if starts_with(name, p.snapshot_statistics.as_str()) {
        FileKind::SnapshotStatistics
    } else if starts_with(name, p.last_snapshot_hint.as_str()) {
        FileKind::LastSnapshotHint
    } else {
        FileKind::Other
    }
}

/// How many files of each kind there are.
#[derive(Clone, Copy, Debug, PartialEq, Eq, Structural)]
pub struct DirCounts {
    pub snapshots: u32,
    pub table_statistics: u32,
    pub segments: u32,
    pub blocks: u32,
    pub indexes: u32,
}

/// What is found in the directory of a table.
#[derive(Debug)]
pub struct DirContent {
    pub counts: DirCounts,
    /// The files of statistics, by their paths below the root.
    pub table_statistic_files: Vec<String>,
    /// The files that say where the last snapshot is, by their paths below the root.
    pub last_snapshot_hints: Vec<String>,
}

pub open spec fn counted(files: Seq<Seq<char>>, root: Seq<char>, p: DirPrefixes, n: nat) -> DirCounts {
    DirCounts {
        snapshots: count_of(files, root, p, FileKind::Snapshot, n) as u32,
        table_statistics: count_of(files, root, p, FileKind::SnapshotStatistics, n) as u32,
        segments: count_of(files, root, p, FileKind::Segment, n) as u32,
        blocks: count_of(files, root, p, FileKind::Block, n) as u32,
        indexes: count_of(files, root, p, FileKind::Index, n) as u32,
    }
}

proof fn lemma_count_bound(files: Seq<Seq<char>>, root: Seq<char>, p: DirPrefixes, kind: FileKind, n: nat)
    ensures
        count_of(files, root, p, kind, n) <= n,
    decreases n,
{
    if n > 0 {
        lemma_count_bound(files, root, p, kind, (n - 1) as nat);
    }
}

/// What is found among the files below a root.
pub fn scan_data_dir(root: &str, files: &Vec<String>, p: &DirPrefixes) -> (r: DirContent)
    requires
        files@.len() <= u32::MAX,
        forall|i: int| 0 <= i < files@.len() ==> is_table_file((#[trigger] files@[i])@, root@),
    ensures
        r.counts == counted(texts(files@), root@, *p, files@.len()),
        texts(r.table_statistic_files@) == paths_of(
            texts(files@),
            root@,
            *p,
            FileKind::SnapshotStatistics,
            files@.len(),
        ),
        texts(r.last_snapshot_hints@) == paths_of(texts(files@), root@, *p, FileKind::LastSnapshotHint, files@.len()),
{
    let ghost all = texts(files@);
    let mut counts = DirCounts { snapshots: 0, table_statistics: 0, segments: 0, blocks: 0, indexes: 0 };
    let mut statistic_files: Vec<String> = Vec::new();
    let mut hints: Vec<String> = Vec::new();
    let root_len: usize = root.unicode_len();
    let mut i: usize = 0;
    assert(texts(statistic_files@) =~= Seq::<Seq<char>>::empty());
    assert(texts(hints@) =~= Seq::<Seq<char>>::empty());
    while i < files.len()
        invariant
            i <= files@.len(),
            files@.len() <= u32::MAX,
            forall|j: int| 0 <= j < files@.len() ==> is_table_file((#[trigger] files@[j])@, root@),
            root_len == root@.len(),
            all == texts(files@),
            counts == counted(all, root@, *p, i as nat),
            texts(statistic_files@) == paths_of(all, root@, *p, FileKind::SnapshotStatistics, i as nat),
            texts(hints@) == paths_of(all, root@, *p, FileKind::LastSnapshotHint, i as nat),
        decreases files.len() - i,
    {
        proof {
            assert(is_table_file(files@[i as int]@, root@));
            assert(all[i as int] == files@[i as int]@);
            lemma_count_bound(all, root@, *p, FileKind::Snapshot, i as nat);
            lemma_count_bound(all, root@, *p, FileKind::SnapshotStatistics, i as nat);
            lemma_count_bound(all, root@, *p, FileKind::Segment, i as nat);
            lemma_count_bound(all, root@, *p, FileKind::Block, i as nat);
            lemma_count_bound(all, root@, *p, FileKind::Index, i as nat);
        }
        let entry_path = rest_of(files[i].as_str(), root_len);
        // trim the leading prefix, e.g. "/db_id/table_id/"
        let name = push_part(entry_path.as_str(), 3);
        let kind = file_kind(name.as_str(), p);
        let ghost statistics_before = texts(statistic_files@);
        let ghost hints_before = texts(hints@);
        match kind {
            FileKind::Snapshot => {
                counts.snapshots = counts.snapshots + 1;
            },
            FileKind::Segment => {
                counts.segments = counts.segments + 1;
            },
            FileKind::Block => {
                counts.blocks = counts.blocks + 1;
            },
            FileKind::Index => {
                counts.indexes = counts.indexes + 1;
            },
            FileKind::SnapshotStatistics => {
                counts.table_statistics = counts.table_statistics + 1;
                statistic_files.push(entry_path);
                assert(texts(statistic_files@) =~= statistics_before.push(entry_path@));
            },
            FileKind::LastSnapshotHint => {
                hints.push(entry_path);
                assert(texts(hints@) =~= hints_before.push(entry_path@));
            },
            FileKind::Other => {},
        }
        i += 1;
    }
    DirContent { counts, table_statistic_files: statistic_files, last_snapshot_hints: hints }
}

/// What is wrong with a count.
pub open spec fn count_message(case_name: Seq<char>, what: Seq<char>) -> Seq<char> {
    "case ["@ + case_name + "], check "@ + what
}

/// Which count is not as expected, the first in the order in which they are checked.
pub open spec fn wrong_count(found: DirCounts, expected: DirCounts) -> Option<Seq<char>> {
    if found.snapshots != expected.snapshots {
        Some("snapshot count"@)
    } else if found.table_statistics != expected.table_statistics {
        Some("snapshot statistics count"@)
    } else if found.segments != expected.segments {
        Some("segment count"@)
    } else if found.blocks != expected.blocks {
        Some("block count"@)
    } else if found.indexes != expected.indexes {
        Some("index count"@)
    } else {
        None
    }
}

/// What is wrong with what was found; nothing where there are as many files as expected.
pub fn check_data_dir(case_name: &str, found: &DirCounts, expected: &DirCounts) -> (r: Result<(), String>)
    ensures
        match wrong_count(*found, *expected) {
            None => r is Ok && *found == *expected,
            Some(what) => r matches Err(m) && m@ == count_message(case_name@, what),
        },
{
    let what = if found.snapshots != expected.snapshots {
        "snapshot count"
    } else if found.table_statistics != expected.table_statistics {
        "snapshot statistics count"
    } else if found.segments != expected.segments {
        "segment count"
    } else if found.blocks != expected.blocks {
        "block count"
    } else if found.indexes != expected.indexes {
        "index count"
    } else {
        return Ok(());
    };
    Err(concat("case [", case_name, "], check ", what))
}

/// A text stands in another at a place.
pub open spec fn occurs_at(s: Seq<char>, part: Seq<char>, i: int) -> bool {
    0 <= i && i + part.len() <= s.len() && s.subrange(i, i + part.len()) == part
}

/// Where a text stands in another first.
pub open spec fn is_first_place(s: Seq<char>, part: Seq<char>, i: int) -> bool {
    occurs_at(s, part, i) && forall|j: int| 0 <= j < i ==> !#[trigger] occurs_at(s, part, j)
}

fn place_of(s: &str, part: &str) -> (r: Option<usize>)
    ensures
        match r {
            Some(i) => is_first_place(s@, part@, i as int),
            None => forall|j: int| !#[trigger] occurs_at(s@, part@, j),
        },
{
    let n: usize = s.unicode_len();
    let m: usize = part.unicode_len();
    if m > n {
        return None;
    }
    let mut i: usize = 0;
    while i <= n - m
        invariant
            n == s@.len(),
            m == part@.len(),
            m <= n,
            i <= n - m + 1,
            forall|j: int| 0 <= j < i ==> !#[trigger] occurs_at(s@, part@, j),
        decreases n - m + 1 - i,
    {
        let rest = rest_of(s, i);
        if starts_with(rest.as_str(), part) {
            assert(s@.skip(i as int).take(m as int) =~= s@.subrange(i as int, i + m));
            return Some(i);
        }
        proof {
            if occurs_at(s@, part@, i as int) {
                assert(s@.skip(i as int).take(m as int) =~= s@.subrange(i as int, i + m));
            }
        }
        if i == usize::MAX {
            return None;
        }
        i += 1;
    }
    None
}

/// Whether a hint on the last snapshot ends with the location of the snapshot, which stands
/// nowhere before that in it.
pub fn check_last_snapshot(last_snapshot_loc: &str, snapshot_loc: &str) -> (r: bool)
    ensures
        r == is_first_place(
            last_snapshot_loc@,
            snapshot_loc@,
            last_snapshot_loc@.len() - snapshot_loc@.len(),
        ),
{
    match place_of(last_snapshot_loc, snapshot_loc) {
        Some(i) => {
            let n: usize = last_snapshot_loc.unicode_len();
            let m: usize = snapshot_loc.unicode_len();
            i == n - m
        },
        None => false,
    }
}

/// Whether the location of the statistics is among the files of statistics.
pub fn check_table_statistic_file(files: &Vec<String>, location: &str) -> (r: bool)
    ensures
        r == exists|i: int, j: int|
            0 <= i < files@.len() && #[trigger] occurs_at((#[trigger] files@[i])@, location@, j),
{
    let mut i: usize = 0;
    while i < files.len()
        invariant
            i <= files@.len(),
            forall|k: int, j: int| 0 <= k < i ==> !#[trigger] occurs_at((#[trigger] files@[k])@, location@, j),
        decreases files.len() - i,
    {
        match place_of(files[i].as_str(), location) {
            Some(at) => {
                assert(occurs_at(files@[i as int]@, location@, at as int));
                return true;
            },
            None => {},
        }
        i += 1;
    }
    false
}

/// Every file is of exactly one kind.
pub proof fn every_file_is_counted_once(files: Seq<Seq<char>>, root: Seq<char>, p: DirPrefixes, n: nat)
    ensures
        count_of(files, root, p, FileKind::Snapshot, n) + count_of(files, root, p, FileKind::SnapshotStatistics, n)
            + count_of(files, root, p, FileKind::Segment, n) + count_of(files, root, p, FileKind::Block, n) + count_of(
            files,
            root,
            p,
            FileKind::Index,
            n,
        ) + count_of(files, root, p, FileKind::LastSnapshotHint, n) + count_of(files, root, p, FileKind::Other, n) == n,
        paths_of(files, root, p, FileKind::SnapshotStatistics, n).len() == count_of(
            files,
            root,
            p,
            FileKind::SnapshotStatistics,
            n,
        ),
    decreases n,
{
    if n > 0 {
        every_file_is_counted_once(files, root, p, (n - 1) as nat);
    }
}

/// The slashes of a path are counted.
pub proof fn slashes_are_counted(s: Seq<char>, n: nat)
    requires
        n <= s.len(),
    ensures
        slashes(s, n) == s.take(n as int).filter(|c: char| c == '/').len(),
    decreases n,
{
    reveal(Seq::filter);
    if n > 0 {
        slashes_are_counted(s, (n - 1) as nat);
        assert(s.take(n as int).drop_last() =~= s.take(n - 1));
    }
}

/// The part of a path behind so many slashes, where no further slash follows, is all that is behind
/// them.
pub proof fn the_part_behind_the_slashes(head: Seq<char>, tail: Seq<char>, n: nat)
    requires
        head.len() > 0,
        head.last() == '/',
        n <= tail.len(),
        forall|i: int| 0 <= i < tail.len() ==> #[trigger] tail[i] != '/',
    ensures
        slashes(head + tail, (head.len() + n) as nat) == slashes(head, head.len()),
        part_of_path(head + tail, slashes(head, head.len()), (head.len() + n) as nat) == tail.take(n as int),
    decreases n,
{
    let s = head + tail;
    let k = slashes(head, head.len());
    if n > 0 {
        the_part_behind_the_slashes(head, tail, (n - 1) as nat);
        assert(s[head.len() + n - 1] == tail[n - 1]);
        assert(tail.take(n as int) =~= tail.take(n - 1).push(tail[n - 1]));
    } else {
        lemma_slashes_of_head(head, tail, head.len());
        lemma_nothing_yet(s, head.len(), k);
        assert(s[head.len() - 1] == '/');
        assert(tail.take(0) =~= Seq::<char>::empty());
    }
}

proof fn lemma_slashes_of_head(head: Seq<char>, tail: Seq<char>, n: nat)
    requires
        n <= head.len(),
    ensures
        slashes(head + tail, n) == slashes(head, n),
    decreases n,
{
    if n > 0 {
        lemma_slashes_of_head(head, tail, (n - 1) as nat);
    }
}

/// Before the last of so many slashes nothing is behind them.
proof fn lemma_nothing_yet(s: Seq<char>, n: nat, k: nat)
    requires
        0 < n <= s.len(),
        s[n - 1] == '/',
        slashes(s, n) == k,
    ensures
        part_of_path(s, k, n) == Seq::<char>::empty(),
{
    lemma_few_slashes(s, (n - 1) as nat, k);
}

proof fn lemma_few_slashes(s: Seq<char>, n: nat, k: nat)
    requires
        slashes(s, n) < k,
    ensures
        part_of_path(s, k, n) == Seq::<char>::empty(),
    decreases n,
{
    if n > 0 {
        lemma_few_slashes(s, (n - 1) as nat, k);
    }
}

/// A file is of the kind of the first prefix that its name starts with: that of snapshots before
/// that of segments, blocks, indexes, statistics of snapshots and the hint of the last snapshot.
pub proof fn files_are_known_by_their_prefix(name: Seq<char>, p: DirPrefixes)
    ensures
        ({
            let begins = |prefix: Seq<char>| exists|rest: Seq<char>| name == #[trigger] (prefix + rest);
            let kind = kind_of(name, p);
            &&& begins(p.snapshot@) ==> kind is Snapshot
            &&& !begins(p.snapshot@) && begins(p.segment@) ==> kind is Segment
            &&& !begins(p.snapshot@) && !begins(p.segment@) && begins(p.block@) ==> kind is Block
            &&& !begins(p.snapshot@) && !begins(p.segment@) && !begins(p.block@) && begins(p.index@) ==> kind is Index
            &&& kind is SnapshotStatistics ==> begins(p.snapshot_statistics@)
            &&& kind is LastSnapshotHint ==> begins(p.last_snapshot_hint@)
            &&& kind is Other ==> !begins(p.snapshot@) && !begins(p.segment@) && !begins(p.block@) && !begins(p.index@) && !begins(
                p.snapshot_statistics@,
            ) && !begins(p.last_snapshot_hint@)
        }),
{
    lemma_starts(name, p.snapshot@);
    lemma_starts(name, p.segment@);
    lemma_starts(name, p.block@);
    lemma_starts(name, p.index@);
    lemma_starts(name, p.snapshot_statistics@);
    lemma_starts(name, p.last_snapshot_hint@);
}

proof fn lemma_starts(name: Seq<char>, prefix: Seq<char>)
    ensures
        starts(name, prefix) <==> exists|rest: Seq<char>| name == #[trigger] (prefix + rest),
{
    if starts(name, prefix) {
        let rest = name.skip(prefix.len() as int);
        assert(name =~= prefix + rest);
    }
    if exists|rest: Seq<char>| name == #[trigger] (prefix + rest) {
        let rest = choose|rest: Seq<char>| name == #[trigger] (prefix + rest);
        assert(name.take(prefix.len() as int) =~= prefix);
    }
}

/// The files of a kind are counted.
pub proof fn files_of_a_kind_are_counted(files: Seq<Seq<char>>, root: Seq<char>, p: DirPrefixes, kind: FileKind, n: nat)
    requires
        n <= files.len(),
    ensures
        count_of(files, root, p, kind, n) == files.take(n as int).filter(
            |f: Seq<char>| kind_of(file_name(f, root), p) == kind,
        ).len(),
    decreases n,
{
    reveal(Seq::filter);
    if n > 0 {
        files_of_a_kind_are_counted(files, root, p, kind, (n - 1) as nat);
        assert(files.take(n as int).drop_last() =~= files.take(n - 1));
    }
}

/// What is wrong with the files of a directory is the first count that is not as expected.
pub proof fn the_first_wrong_count_is_named(found: DirCounts, expected: DirCounts)
    ensures
        wrong_count(found, expected) is None <==> found == expected,
        found.snapshots != expected.snapshots ==> wrong_count(found, expected) == Some("snapshot count"@),
        found == (DirCounts { table_statistics: found.table_statistics, ..expected }) && found != expected
            ==> wrong_count(found, expected) == Some("snapshot statistics count"@),
        found == (DirCounts { segments: found.segments, ..expected }) && found != expected ==> wrong_count(
            found,
            expected,
        ) == Some("segment count"@),
        found == (DirCounts { blocks: found.blocks, ..expected }) && found != expected ==> wrong_count(found, expected)
            == Some("block count"@),
        found == (DirCounts { indexes: found.indexes, ..expected }) && found != expected ==> wrong_count(found, expected)
            == Some("index count"@),
{
}

/// Each count of a table's files is that of its own kind.
pub proof fn each_kind_has_its_own_count(files: Seq<Seq<char>>, root: Seq<char>, p: DirPrefixes)
    requires
        files.len() <= u32::MAX,
    ensures
        ({
            let n = files.len();
            let c = counted(files, root, p, n);
            &&& c.snapshots == count_of(files, root, p, FileKind::Snapshot, n)
            &&& c.table_statistics == count_of(files, root, p, FileKind::SnapshotStatistics, n)
            &&& c.segments == count_of(files, root, p, FileKind::Segment, n)
            &&& c.blocks == count_of(files, root, p, FileKind::Block, n)
            &&& c.indexes == count_of(files, root, p, FileKind::Index, n)
        }),
{
    let n = files.len();
    lemma_counts_at_most(files, root, p, FileKind::Snapshot, n);
    lemma_counts_at_most(files, root, p, FileKind::SnapshotStatistics, n);
    lemma_counts_at_most(files, root, p, FileKind::Segment, n);
    lemma_counts_at_most(files, root, p, FileKind::Block, n);
    lemma_counts_at_most(files, root, p, FileKind::Index, n);
}

proof fn lemma_counts_at_most(files: Seq<Seq<char>>, root: Seq<char>, p: DirPrefixes, kind: FileKind, n: nat)
    ensures
        count_of(files, root, p, kind, n) <= n,
    decreases n,
{
    if n > 0 {
        lemma_counts_at_most(files, root, p, kind, (n - 1) as nat);
    }
}

/// A text stands in another behind whatever comes before it there, and first where it stands
/// nowhere before.
pub proof fn a_text_stands_behind_what_comes_before(head: Seq<char>, part: Seq<char>, tail: Seq<char>)
    ensures
        occurs_at(head + part + tail, part, head.len() as int),
        is_first_place(head + part + tail, part, head.len() as int) <==> forall|j: int|
            0 <= j < head.len() ==> (#[trigger] (head + part + tail).subrange(j, j + part.len())) != part,
{
    let s = head + part + tail;
    assert(s.subrange(head.len() as int, (head.len() + part.len()) as int) =~= part);
    if is_first_place(s, part, head.len() as int) {
        assert forall|j: int| 0 <= j < head.len() implies (#[trigger] s.subrange(j, j + part.len())) != part by {
            assert(!occurs_at(s, part, j));
        }
    }
}

/// Where a text stands in another, the other is made of what comes before, the text and what comes
/// behind.
pub proof fn a_text_that_stands_in_another_is_a_part_of_it(s: Seq<char>, part: Seq<char>, i: int)
    requires
        occurs_at(s, part, i),
    ensures
        0 <= i <= s.len() - part.len(),
        s == s.take(i) + part + s.skip(i + part.len()),
{
    assert(s =~= s.take(i) + s.subrange(i, i + part.len()) + s.skip(i + part.len()));
}

}
