//! Merge sort of blocks.

use core::sync::atomic::AtomicBool;
use std::sync::Arc;
use vstd::prelude::*;

use crate::block::block_views;
use crate::block::entry_rows_ok;
use crate::block::entry_views;
use crate::block::full_column;
use crate::block::rows_ok;
use crate::block::BlockEntry;
use crate::block::BlockView;
use crate::block::DataBlock;
use crate::block::EntryView;
use crate::block::Value;
use crate::block::ValueView;
use crate::build_spill::all_rows;
use crate::error::ErrorCode;
use crate::loser_tree::adjust;
use crate::loser_tree::cursor_player;
use crate::loser_tree::key_before;
use crate::loser_tree::leaf_keys;
use crate::loser_tree::leaves_ok;
use crate::loser_tree::lemma_all_first;
use crate::loser_tree::lemma_champion;
use crate::loser_tree::lemma_nobody_beats_champion;
use crate::loser_tree::lemma_winner_is_player;
use crate::loser_tree::players_ok;
use crate::loser_tree::tree_ok;
use crate::loser_tree::winner;
use crate::loser_tree::Cursor;
use crate::loser_tree::Player;
use crate::loser_tree::MAX_LOSER_TREE_MARK;
use crate::loser_tree::MIN_LOSER_TREE_MARK;
use crate::order::value_at_most;
use crate::order::Order;
use crate::rows::simple_keys_follow_the_values;
use crate::rows::string_keys_follow_the_bytes;
use crate::rows::RowConverter;
use crate::rows::Rows;
use crate::rows::SimpleRowConverter;
use crate::rows::SimpleRows;
use crate::rows::SimpleStringRowConverter;
use crate::rows::SimpleStringRows;
use crate::rows::SortColumnDescription;
use crate::schema::DataSchema;
use crate::schema::FieldView;
use crate::types::has_type;
use crate::types::Column;
use crate::types::ColumnView;
use crate::types::DataType;
use crate::types::NumberDataType;
use crate::types::ScalarView;
use crate::types::TypeView;

verus! {

/// Input `m` has the row that comes next: it has rows left, and its next row comes before the
/// next row of every other input.
pub open spec fn is_next<R: Rows>(keys: Seq<Seq<R::Key>>, pos: Seq<int>, m: int) -> bool {
    &&& 0 <= m < keys.len()
    &&& 0 <= pos[m] < keys[m].len()
    &&& forall|j: int|
        0 <= j < keys.len() && j != m && pos[j] < keys[j].len() ==> key_before::<R>(
            keys[m][pos[m]],
            m,
            #[trigger] keys[j][pos[j]],
            j,
        )
}

/// The next `n` rows of a merge in which `pos` rows of each input have been taken: which input
/// each comes from, and which of its rows it is.
pub open spec fn merged<R: Rows>(keys: Seq<Seq<R::Key>>, pos: Seq<int>, n: nat) -> Seq<(int, int)>
    decreases n,
{
    if n == 0 {
        Seq::empty()
    } else {
        let m = choose|m: int| is_next::<R>(keys, pos, m);
        seq![(m, pos[m])] + merged::<R>(keys, pos.update(m, pos[m] + 1), (n - 1) as nat)
    }
}

/// How many rows the first `i` inputs have left.
pub open spec fn left_over<K>(keys: Seq<Seq<K>>, pos: Seq<int>, i: int) -> int
    decreases i,
{
    if i <= 0 {
        0
    } else {
        left_over(keys, pos, i - 1) + keys[i - 1].len() - pos[i - 1]
    }
}

pub open spec fn start_positions(n: nat) -> Seq<int> {
    Seq::new(n, |i: int| 0)
}

/// All rows of the inputs in the order of a merge.
pub open spec fn merge_all<R: Rows>(keys: Seq<Seq<R::Key>>) -> Seq<(int, int)> {
    merged::<R>(
        keys,
        start_positions(keys.len()),
        left_over(keys, start_positions(keys.len()), keys.len() as int) as nat,
    )
}

proof fn lemma_next_unique<R: Rows>(keys: Seq<Seq<R::Key>>, pos: Seq<int>, a: int, b: int)
    requires
        is_next::<R>(keys, pos, a),
        is_next::<R>(keys, pos, b),
    ensures
        a == b,
{
    if a != b {
        R::order_laws(keys[a][pos[a]], keys[b][pos[b]], keys[a][pos[a]]);
        assert(key_before::<R>(keys[a][pos[a]], a, keys[b][pos[b]], b));
        assert(key_before::<R>(keys[b][pos[b]], b, keys[a][pos[a]], a));
    }
}

proof fn lemma_left_over_step<K>(keys: Seq<Seq<K>>, pos: Seq<int>, m: int, i: int)
    requires
        0 <= m < pos.len(),
        pos.len() == keys.len(),
        i <= keys.len(),
    ensures
        left_over(keys, pos.update(m, pos[m] + 1), i) == left_over(keys, pos, i) - if m < i {
            1int
        } else {
            0
        },
    decreases i,
{
    if i > 0 {
        lemma_left_over_step(keys, pos, m, i - 1);
    }
}

proof fn lemma_left_over_bounds<K>(keys: Seq<Seq<K>>, pos: Seq<int>, i: int)
    requires
        0 <= i <= keys.len(),
        pos.len() == keys.len(),
        forall|j: int| 0 <= j < keys.len() ==> 0 <= #[trigger] pos[j] <= keys[j].len(),
    ensures
        left_over(keys, pos, i) >= 0,
        left_over(keys, pos, i) == 0 <==> (forall|j: int| 0 <= j < i ==> #[trigger] pos[j] == keys[j].len()),
    decreases i,
{
    if i > 0 {
        lemma_left_over_bounds(keys, pos, i - 1);
        assert(0 <= pos[i - 1] <= keys[i - 1].len());
    }
}

/// Row numbers that were pairs of indices.
pub open spec fn index_pairs(v: Seq<(usize, usize)>) -> Seq<(int, int)> {
    v.map_values(|p: (usize, usize)| (p.0 as int, p.1 as int))
}

pub open spec fn positions<R: Rows>(leaves: Seq<Cursor<R>>) -> Seq<int> {
    leaves.map_values(|c: Cursor<R>| c.row_index as int)
}

/// Consecutive rows of one input follow each other in it.
pub open spec fn runs_follow(idx: Seq<(int, int)>) -> bool {
    forall|j: int| 1 <= j < idx.len() && (#[trigger] idx[j]).0 == idx[j - 1].0 ==> idx[j].1 == idx[j - 1].1 + 1
}

/// How it is learnt whether a merge is to be given up, which is asked before each row and then
/// before each block.
pub enum Interrupts<'a> {
    /// It is never given up.
    Never,
    /// The flag says so. What a flag holds when it is asked rests on other threads.
    Flag(&'a AtomicBool),
    /// The answers say so, one after the other; it is not given up after the last of them.
    Answers(&'a Vec<bool>),
}

/// Whether question `k` may be answered so.
pub open spec fn may_answer(interrupts: Interrupts, k: int, answer: bool) -> bool {
    match interrupts {
        Interrupts::Never => !answer,
        Interrupts::Flag(_) => true,
        Interrupts::Answers(answers) => answer == (k < answers@.len() && answers@[k]),
    }
}

/// The first `n` questions may all be answered with no.
pub open spec fn went_on(interrupts: Interrupts, n: int) -> bool {
    forall|k: int| 0 <= k < n ==> #[trigger] may_answer(interrupts, k, false)
}

/// One of the first `n` questions may be answered with yes, and those before it with no.
pub open spec fn stopped(interrupts: Interrupts, n: int) -> bool {
    exists|k: int| 0 <= k < n && went_on(interrupts, k) && #[trigger] may_answer(interrupts, k, true)
}

pub open spec fn is_aborted(e: ErrorCode) -> bool {
    e matches ErrorCode::AbortedQuery(m) && m@
        == "Aborted query, because the server is shutting down or the query was killed."@
}

/// Goes on, unless the work is to be given up.
pub fn check_aborting(aborting: bool) -> (r: Result<(), ErrorCode>)
    ensures
        aborting ==> (r matches Err(e) && is_aborted(e)),
        !aborting ==> r is Ok,
{
    if aborting {
        Err(
            ErrorCode::AbortedQuery(
                "Aborted query, because the server is shutting down or the query was killed.".to_owned(),
            ),
        )
    } else {
        Ok(())
    }
}

/// Asks question `rows + blocks`.
fn ask(interrupts: &Interrupts, rows: usize, blocks: usize) -> (r: bool)
    ensures
        may_answer(*interrupts, rows + blocks, r),
{
    match interrupts {
        Interrupts::Never => false,
        Interrupts::Flag(flag) => flag.load(core::sync::atomic::Ordering::Relaxed),
        Interrupts::Answers(answers) => match rows.checked_add(blocks) {
            Some(k) => {
                assert(answers@.len() == answers.len());
                k < answers.len() && answers[k]
            },
            None => {
                assert(answers@.len() == answers.len());
                false
            },
        },
    }
}

/// Merges the rows that the cursors stand before.
fn merge_cursors<R: Rows>(leaves: Vec<Cursor<R>>, interrupts: &Interrupts) -> (r: Result<Vec<(usize, usize)>, ErrorCode>)
    requires
        leaves@.len() >= 1,
        leaves_ok(leaves@),
        forall|i: int| 0 <= i < leaves@.len() ==> (#[trigger] leaves@[i]).row_index == 0,
    ensures
        match r {
            Ok(output) => {
                &&& index_pairs(output@) == merge_all::<R>(leaf_keys(leaves@))
                &&& runs_follow(index_pairs(output@))
                &&& forall|j: int|
                    0 <= j < output@.len() ==> (#[trigger] output@[j]).0 < leaves@.len() && output@[j].1
                        < leaves@[output@[j].0 as int].rows.keys().len()
                &&& went_on(*interrupts, output@.len() as int)
            },
            Err(e) => is_aborted(e) && stopped(*interrupts, merge_all::<R>(leaf_keys(leaves@)).len() as int),
        },
{
    let len: usize = leaves.len();
    let mut loser_tree_leaf = leaves;
    let ghost keys = leaf_keys(leaves@);
    let mut loser_tree: Vec<(i32, i32)> = Vec::new();
    let mut k: usize = 0;
    while k < len
        invariant
            k <= len,
            loser_tree.len() == k,
            forall|n: int| 0 <= n < k ==> #[trigger] loser_tree@[n] == (MIN_LOSER_TREE_MARK, MIN_LOSER_TREE_MARK),
        decreases len - k,
    {
        loser_tree.push((MIN_LOSER_TREE_MARK, MIN_LOSER_TREE_MARK));
        k += 1;
    }
    let ghost mut players: Seq<Player> = Seq::new(len as nat, |i: int| Player::First);
    proof {
        lemma_all_first::<R>(keys, loser_tree@, players);
    }
    let mut i: usize = 0;
    while i < len
        invariant
            i <= len,
            len == loser_tree_leaf@.len(),
            len >= 1,
            keys == leaf_keys(loser_tree_leaf@),
            leaves_ok(loser_tree_leaf@),
            players_ok::<R>(keys, players),
            tree_ok::<R>(keys, loser_tree@, players),
            players.len() == len,
            forall|j: int| 0 <= j < i ==> #[trigger] players[j] == cursor_player(loser_tree_leaf@[j]),
            forall|j: int| i <= j < len ==> (#[trigger] players[j]) is First,
        decreases len - i,
    {
        proof {
            lemma_champion::<R>(keys, players, i as int);
        }
        adjust(&mut loser_tree, &loser_tree_leaf, i, len, Ghost(players));
        proof {
            assert(keys[i as int] == loser_tree_leaf@[i as int].rows.keys());
            assert(loser_tree_leaf@[i as int].input_index == i);
            players = players.update(i as int, cursor_player(loser_tree_leaf@[i as int]));
        }
        i += 1;
    }
    let mut output: Vec<(usize, usize)> = Vec::new();
    let ghost total = left_over(keys, positions(loser_tree_leaf@), len as int) as nat;
    proof {
        assert(positions(loser_tree_leaf@) =~= start_positions(len as nat));
        assert(index_pairs(output@) =~= Seq::<(int, int)>::empty());
        assert(index_pairs(output@) + merged::<R>(keys, positions(loser_tree_leaf@), total) =~= merged::<R>(
            keys,
            positions(loser_tree_leaf@),
            total,
        ));
        assert forall|j: int| 0 <= j < len implies 0 <= #[trigger] positions(loser_tree_leaf@)[j] <= keys[j].len() by {
            assert(loser_tree_leaf@[j].row_index <= loser_tree_leaf@[j].rows.keys().len());
        }
        lemma_left_over_bounds(keys, positions(loser_tree_leaf@), len as int);
    }
    while loser_tree[0].0 != MAX_LOSER_TREE_MARK
        invariant
            len == loser_tree_leaf@.len(),
            len == leaves@.len(),
            len >= 1,
            keys == leaf_keys(loser_tree_leaf@),
            keys == leaf_keys(leaves@),
            leaves_ok(loser_tree_leaf@),
            players_ok::<R>(keys, players),
            tree_ok::<R>(keys, loser_tree@, players),
            players.len() == len,
            loser_tree.len() == len,
            forall|j: int| 0 <= j < len ==> #[trigger] players[j] == cursor_player(loser_tree_leaf@[j]),
            left_over(keys, positions(loser_tree_leaf@), len as int) >= 0,
            index_pairs(output@) + merged::<R>(
                keys,
                positions(loser_tree_leaf@),
                left_over(keys, positions(loser_tree_leaf@), len as int) as nat,
            ) == merge_all::<R>(keys),
            runs_follow(index_pairs(output@)),
            went_on(*interrupts, output@.len() as int),
            output@.len() > 0 ==> loser_tree_leaf@[output@.last().0 as int].row_index == output@.last().1 + 1,
            forall|j: int|
                0 <= j < output@.len() ==> (#[trigger] output@[j]).0 < len && output@[j].1
                    < keys[output@[j].0 as int].len(),
        decreases left_over(keys, positions(loser_tree_leaf@), len as int),
    {
        let ghost pos = positions(loser_tree_leaf@);
        let ghost n = left_over(keys, pos, len as int);
        proof {
            lemma_winner_is_next::<R>(loser_tree_leaf@, players);
            lemma_left_over_bounds_of::<R>(loser_tree_leaf@);
        }
        match check_aborting(ask(interrupts, output.len(), 0)) {
            Ok(()) => {},
            Err(e) => {
                proof {
                    let m = loser_tree@[0].0 as int;
                    assert(n > 0) by {
                        if n == 0 {
                            assert(pos[m] == keys[m].len());
                        }
                    }
                    assert(merged::<R>(keys, pos, n as nat).len() >= 1);
                    assert(may_answer(*interrupts, output@.len() as int, true));
                    assert(index_pairs(output@).len() == output@.len());
                }
                return Err(e);
            },
        }
        let index: usize = loser_tree[0].0 as usize;
        let row: usize = loser_tree[0].1 as usize;
        let ghost before = output@;
        output.push((loser_tree_leaf[index].input_index, row));
        proof {
            let chosen = choose|m: int| is_next::<R>(keys, pos, m);
            lemma_next_unique::<R>(keys, pos, chosen, index as int);
            assert(pos[index as int] == row);
            assert(n > 0) by {
                if n == 0 {
                    assert(pos[index as int] == keys[index as int].len());
                }
            }
            lemma_left_over_step(keys, pos, index as int, len as int);
            let next = pos.update(index as int, pos[index as int] + 1);
            assert(index_pairs(output@) =~= index_pairs(before).push((index as int, row as int)));
            assert(index_pairs(output@) + merged::<R>(keys, next, (n - 1) as nat) =~= index_pairs(before) + (seq![
                (index as int, row as int),
            ] + merged::<R>(keys, next, (n - 1) as nat)));
            assert(runs_follow(index_pairs(output@))) by {
                let idx = index_pairs(output@);
                assert forall|j: int| 1 <= j < idx.len() && (#[trigger] idx[j]).0 == idx[j - 1].0 implies idx[j].1 == idx[j
                    - 1].1 + 1 by {
                    if j < before.len() {
                        assert(idx[j] == index_pairs(before)[j]);
                        assert(idx[j - 1] == index_pairs(before)[j - 1]);
                    } else {
                        assert(idx[j - 1] == index_pairs(before)[j - 1]);
                        assert(before.last() == before[j - 1]);
                    }
                }
            }
        }
        let ghost old_leaves = loser_tree_leaf@;
        loser_tree_leaf[index].advance();
        proof {
            assert(leaf_keys(loser_tree_leaf@) =~= keys);
            assert(positions(loser_tree_leaf@) =~= pos.update(index as int, pos[index as int] + 1));
            assert forall|j: int| 0 <= j < len implies (#[trigger] loser_tree_leaf@[j]).input_index == j
                && loser_tree_leaf@[j].rows.keys().len() <= i32::MAX && loser_tree_leaf@[j].row_index
                <= loser_tree_leaf@[j].rows.keys().len() by {
                assert(old_leaves[j].input_index == j);
            }
        }
        adjust(&mut loser_tree, &loser_tree_leaf, index, len, Ghost(players));
        proof {
            players = players.update(index as int, cursor_player(loser_tree_leaf@[index as int]));
            lemma_left_over_bounds_of::<R>(loser_tree_leaf@);
        }
    }
    proof {
        lemma_nobody_left::<R>(loser_tree_leaf@, players);
        assert(index_pairs(output@) =~= merge_all::<R>(keys));
        assert forall|j: int| 0 <= j < output@.len() implies (#[trigger] output@[j]).0 < leaves@.len() && output@[j].1
            < leaves@[output@[j].0 as int].rows.keys().len() by {
            assert(keys[output@[j].0 as int] == leaves@[output@[j].0 as int].rows.keys());
        }
    }
    Ok(output)
}

proof fn lemma_left_over_bounds_of<R: Rows>(leaves: Seq<Cursor<R>>)
    requires
        leaves_ok(leaves),
    ensures
        left_over(leaf_keys(leaves), positions(leaves), leaves.len() as int) >= 0,
        left_over(leaf_keys(leaves), positions(leaves), leaves.len() as int) == 0 <==> (forall|j: int|
            0 <= j < leaves.len() ==> #[trigger] positions(leaves)[j] == leaf_keys(leaves)[j].len()),
{
    let keys = leaf_keys(leaves);
    let pos = positions(leaves);
    assert forall|j: int| 0 <= j < keys.len() implies 0 <= #[trigger] pos[j] <= keys[j].len() by {
        assert(leaves[j].row_index <= leaves[j].rows.keys().len());
    }
    lemma_left_over_bounds(keys, pos, leaves.len() as int);
}

/// The winner of a tournament of cursors is the row that comes next.
proof fn lemma_winner_is_next<R: Rows>(leaves: Seq<Cursor<R>>, players: Seq<Player>)
    requires
        leaves.len() >= 1,
        leaves_ok(leaves),
        players.len() == leaves.len(),
        players_ok::<R>(leaf_keys(leaves), players),
        forall|j: int| 0 <= j < players.len() ==> #[trigger] players[j] == cursor_player(leaves[j]),
        !(winner::<R>(leaf_keys(leaves), players, 1) is Last),
    ensures
        winner::<R>(leaf_keys(leaves), players, 1) matches Player::Row(m, r) && {
            &&& is_next::<R>(leaf_keys(leaves), positions(leaves), m)
            &&& r == positions(leaves)[m]
            &&& players[m] == winner::<R>(leaf_keys(leaves), players, 1)
            &&& leaves[m].input_index == m
            &&& !leaves[m].finished()
        },
{
    let keys = leaf_keys(leaves);
    let pos = positions(leaves);
    let w = winner::<R>(keys, players, 1);
    lemma_winner_is_player::<R>(keys, players);
    let k = choose|k: int| 0 <= k < players.len() && players[k] == w;
    assert(players[k] == cursor_player(leaves[k]));
    assert(leaves[k].input_index == k);
    assert(keys[k] == leaves[k].rows.keys());
    assert forall|j: int| 0 <= j < keys.len() && j != k && pos[j] < keys[j].len() implies key_before::<R>(
        keys[k][pos[k]],
        k,
        #[trigger] keys[j][pos[j]],
        j,
    ) by {
        assert(keys[j] == leaves[j].rows.keys());
        assert(leaves[j].input_index == j);
        assert(players[j] == cursor_player(leaves[j]));
        lemma_nobody_beats_champion::<R>(keys, players, j);
        R::order_laws(keys[k][pos[k]], keys[j][pos[j]], keys[k][pos[k]]);
    }
}

/// Where the last mark wins, every cursor is finished.
proof fn lemma_nobody_left<R: Rows>(leaves: Seq<Cursor<R>>, players: Seq<Player>)
    requires
        leaves.len() >= 1,
        leaves_ok(leaves),
        players.len() == leaves.len(),
        players_ok::<R>(leaf_keys(leaves), players),
        forall|j: int| 0 <= j < players.len() ==> #[trigger] players[j] == cursor_player(leaves[j]),
        winner::<R>(leaf_keys(leaves), players, 1) is Last,
    ensures
        left_over(leaf_keys(leaves), positions(leaves), leaves.len() as int) == 0,
{
    let keys = leaf_keys(leaves);
    assert forall|j: int| 0 <= j < leaves.len() implies #[trigger] positions(leaves)[j] == keys[j].len() by {
        lemma_nobody_beats_champion::<R>(keys, players, j);
        assert(players[j] == cursor_player(leaves[j]));
        assert(leaves[j].row_index <= leaves[j].rows.keys().len());
    }
    lemma_left_over_bounds_of::<R>(leaves);
}

/// The rows that slices stand for: `(block, row, n)` for `n` rows of a block from `row` on.
pub open spec fn expanded(slices: Seq<(usize, usize, usize)>) -> Seq<(int, int)>
    decreases slices.len(),
{
    if slices.len() == 0 {
        Seq::empty()
    } else {
        let last = slices.last();
        expanded(slices.drop_last()) + Seq::new(last.2 as nat, |k: int| (last.0 as int, last.1 + k))
    }
}

/// The values of column `c` in the given rows of the blocks.
pub open spec fn gathered_rows(blocks: Seq<BlockView>, idx: Seq<(int, int)>, c: int) -> Seq<ScalarView> {
    idx.map_values(|p: (int, int)| full_column(blocks[p.0].columns[c], blocks[p.0].num_rows).rows[p.1])
}

/// A block of the given rows of the blocks.
pub open spec fn gathered(blocks: Seq<BlockView>, idx: Seq<(int, int)>) -> BlockView {
    BlockView {
        columns: Seq::new(
            blocks[0].columns.len(),
            |c: int|
                EntryView {
                    data_type: blocks[0].columns[c].data_type,
                    value: ValueView::Column(
                        ColumnView {
                            data_type: blocks[0].columns[c].data_type,
                            rows: gathered_rows(blocks, idx, c),
                        },
                    ),
                },
        ),
        num_rows: idx.len(),
        meta: None,
    }
}

/// Blocks that can be put together: valid, and of the same columns.
pub open spec fn mergeable(blocks: Seq<BlockView>) -> bool {
    forall|i: int|
        #![trigger blocks[i]]
        0 <= i < blocks.len() ==> rows_ok(blocks[i].columns, blocks[i].num_rows) && blocks[i].columns.len()
            == blocks[0].columns.len()
}

/// Every slice lies within its block.
pub open spec fn slices_ok(blocks: Seq<BlockView>, slices: Seq<(usize, usize, usize)>) -> bool {
    forall|i: int|
        #![trigger slices[i]]
        0 <= i < slices.len() ==> slices[i].0 < blocks.len() && slices[i].1 + slices[i].2
            <= blocks[slices[i].0 as int].num_rows
}

/// The values of one column in the rows that the slices stand for.
fn gather_column(blocks: &Vec<DataBlock>, slices: &Vec<(usize, usize, usize)>, c: usize) -> (column: Column)
    requires
        blocks@.len() >= 1,
        mergeable(block_views(blocks@)),
        slices_ok(block_views(blocks@), slices@),
        c < blocks@[0]@.columns.len(),
    ensures
        column@ == (ColumnView {
            data_type: blocks@[0]@.columns[c as int].data_type,
            rows: gathered_rows(block_views(blocks@), expanded(slices@), c as int),
        }),
{
    let ghost views = block_views(blocks@);
    let mut full: Vec<Column> = Vec::new();
    let mut b: usize = 0;
    while b < blocks.len()
        invariant
            b <= blocks.len(),
            blocks@.len() >= 1,
            views == block_views(blocks@),
            mergeable(views),
            c < blocks@[0]@.columns.len(),
            full.len() == b,
            forall|j: int|
                #![trigger full@[j]]
                0 <= j < b ==> full@[j]@ == full_column(views[j].columns[c as int], views[j].num_rows)
                    && full@[j]@.rows.len() == views[j].num_rows,
        decreases blocks.len() - b,
    {
        proof {
            assert(views[b as int] == blocks@[b as int]@);
            assert(views[0] == blocks@[0]@);
            assert(rows_ok(views[b as int].columns, views[b as int].num_rows));
            assert(entry_rows_ok(views[b as int].columns[c as int], views[b as int].num_rows));
        }
        let column = blocks[b].get_by_offset(c).to_column(blocks[b].num_rows());
        full.push(column);
        b += 1;
    }
    assert(views[0] == blocks@[0]@);
    let mut out = Column::empty(blocks[0].get_by_offset(c).data_type.clone());
    let ghost all = slices@;
    let mut i: usize = 0;
    assert(all.take(0) =~= Seq::<(usize, usize, usize)>::empty());
    assert(out@.rows =~= gathered_rows(views, expanded(all.take(0)), c as int));
    while i < slices.len()
        invariant
            i <= slices.len(),
            all == slices@,
            views == block_views(blocks@),
            slices_ok(views, all),
            full.len() == views.len(),
            forall|j: int|
                #![trigger full@[j]]
                0 <= j < full.len() ==> full@[j]@ == full_column(views[j].columns[c as int], views[j].num_rows)
                    && full@[j]@.rows.len() == views[j].num_rows,
            out@.data_type == views[0].columns[c as int].data_type,
            out@.rows == gathered_rows(views, expanded(all.take(i as int)), c as int),
        decreases slices.len() - i,
    {
        let (block, row, n) = slices[i];
        assert(all[i as int] == (block, row, n));
        assert(full@[block as int]@.rows.len() == views[block as int].num_rows);
        assert(full@[block as int].rows.len() >= row + n);
        let ghost before = out@.rows;
        out.extend_from(&full[block], row, row + n);
        proof {
            let next = all.take(i + 1);
            assert(next.drop_last() =~= all.take(i as int));
            assert(next.last() == (block, row, n));
            let added = Seq::new(n as nat, |k: int| (block as int, row + k));
            assert(expanded(next) == expanded(all.take(i as int)) + added);
            assert(gathered_rows(views, expanded(next), c as int) =~= before + full@[block as int]@.rows.subrange(
                row as int,
                row + n,
            ));
        }
        i += 1;
    }
    assert(all.take(i as int) =~= all);
    out
}

/// A block of the rows that the slices stand for.
pub fn take_by_slices_from_blocks(
    blocks: &Vec<DataBlock>,
    slices: &Vec<(usize, usize, usize)>,
    num_rows: usize,
) -> (r: DataBlock)
    requires
        blocks@.len() >= 1,
        mergeable(block_views(blocks@)),
        slices_ok(block_views(blocks@), slices@),
        num_rows == expanded(slices@).len(),
    ensures
        r@ == gathered(block_views(blocks@), expanded(slices@)),
{
    let ghost views = block_views(blocks@);
    let mut columns: Vec<BlockEntry> = Vec::new();
    let num_columns: usize = blocks[0].num_columns();
    assert(views[0] == blocks@[0]@);
    let mut c: usize = 0;
    while c < num_columns
        invariant
            c <= num_columns,
            num_columns == views[0].columns.len(),
            blocks@.len() >= 1,
            views == block_views(blocks@),
            views[0] == blocks@[0]@,
            mergeable(views),
            slices_ok(views, slices@),
            num_rows == expanded(slices@).len(),
            columns.len() == c,
            forall|j: int|
                0 <= j < c ==> (#[trigger] columns@[j])@ == gathered(views, expanded(slices@)).columns[j],
        decreases num_columns - c,
    {
        let column = gather_column(blocks, slices, c);
        let data_type = blocks[0].get_by_offset(c).data_type.clone();
        columns.push(BlockEntry { data_type, value: Value::Column(column) });
        c += 1;
    }
    proof {
        let entries = entry_views(columns@);
        assert forall|j: int| 0 <= j < entries.len() implies entry_rows_ok(#[trigger] entries[j], num_rows as nat) by {
            assert(entries[j] == columns@[j]@);
        }
    }
    let r = DataBlock::new(columns, num_rows);
    assert(r@.columns =~= gathered(views, expanded(slices@)).columns);
    r
}

/// The slices for the rows from `start` up to `end`: rows of one block that follow each other
/// form one slice.
fn merge_slices(indices: &Vec<(usize, usize)>, start: usize, end: usize) -> (slices: Vec<(usize, usize, usize)>)
    requires
        start < end <= indices@.len(),
        runs_follow(index_pairs(indices@)),
    ensures
        expanded(slices@) == index_pairs(indices@).subrange(start as int, end as int),
        forall|i: int|
            #![trigger slices@[i]]
            0 <= i < slices@.len() ==> exists|j: int|
                #![trigger indices@[j]]
                start <= j < end && indices@[j].0 == slices@[i].0 && indices@[j].1 + 1 == slices@[i].1 + slices@[i].2,
{
    let ghost idx = index_pairs(indices@);
    let mut slices: Vec<(usize, usize, usize)> = Vec::new();
    let (block_idx, row_idx) = indices[start];
    slices.push((block_idx, row_idx, 1));
    proof {
        assert(slices@.drop_last() =~= Seq::<(usize, usize, usize)>::empty());
        assert(expanded(slices@.drop_last()) =~= Seq::<(int, int)>::empty());
        assert(idx[start as int] == (block_idx as int, row_idx as int));
        assert(expanded(slices@) =~= idx.subrange(start as int, start + 1));
        assert(indices@[start as int] == (block_idx, row_idx));
    }
    let mut j: usize = start + 1;
    while j < end
        invariant
            start < j <= end,
            end <= indices@.len(),
            idx == index_pairs(indices@),
            runs_follow(idx),
            slices@.len() > 0,
            slices@.last().2 >= 1,
            indices@[j - 1].0 == slices@.last().0,
            indices@[j - 1].1 + 1 == slices@.last().1 + slices@.last().2,
            expanded(slices@) == idx.subrange(start as int, j as int),
            forall|i: int|
                #![trigger slices@[i]]
                0 <= i < slices@.len() ==> exists|k: int|
                    #![trigger indices@[k]]
                    start <= k < j && indices@[k].0 == slices@[i].0 && indices@[k].1 + 1 == slices@[i].1 + slices@[i].2,
        decreases end - j,
    {
        let (block_idx, row_idx) = indices[j];
        let ghost before = slices@;
        let last_at: usize = slices.len() - 1;
        let last = slices[last_at];
        assert(idx[j as int] == (block_idx as int, row_idx as int));
        assert(idx[j - 1] == (indices@[j - 1].0 as int, indices@[j - 1].1 as int));
        if block_idx == last.0 {
            // Rows of one block follow each other.
            assert(expanded(before).len() >= last.2);
            slices.set(last_at, (last.0, last.1, last.2 + 1));
            proof {
                assert(slices@.drop_last() =~= before.drop_last());
                assert(expanded(slices@) =~= expanded(before).push((block_idx as int, row_idx as int)));
            }
        } else {
            slices.push((block_idx, row_idx, 1));
            proof {
                assert(slices@.drop_last() =~= before);
                assert(expanded(slices@) =~= expanded(before).push((block_idx as int, row_idx as int)));
            }
        }
        proof {
            assert(idx.subrange(start as int, j + 1) =~= idx.subrange(start as int, j as int).push(idx[j as int]));
            assert forall|i: int|
                #![trigger slices@[i]]
                0 <= i < slices@.len() implies exists|k: int|
                    #![trigger indices@[k]]
                    start <= k < j + 1 && indices@[k].0 == slices@[i].0 && indices@[k].1 + 1 == slices@[i].1 + slices@[i].2 by {
                if i == slices@.len() - 1 {
                    assert(indices@[j as int].0 == slices@[i].0);
                } else {
                    assert(slices@[i] == before[i]);
                }
            }
        }
        j += 1;
    }
    slices
}

/// The entries that a block is sorted by.
pub open spec fn sort_entries(b: BlockView, order_by_cols: Seq<usize>) -> Seq<EntryView> {
    order_by_cols.map_values(|i: usize| b.columns[i as int])
}

pub open spec fn has_rows(b: BlockView) -> bool {
    b.num_rows > 0
}

/// The blocks that are not empty.
pub open spec fn with_rows(blocks: Seq<BlockView>) -> Seq<BlockView> {
    blocks.filter(|v: BlockView| has_rows(v))
}

/// Merges sorted blocks into sorted blocks of a given number of rows.
pub struct SortMergeCompactor<R, Converter> {
    pub block_size: usize,
    pub row_converter: Converter,
    pub order_by_cols: Vec<usize>,
    /// Set where the work is to be given up. Other threads may set it while blocks are merged.
    pub aborting: Arc<AtomicBool>,
    /// Whether the rows that the blocks are sorted by are added to them as a column, so that
    /// they need not be made again later on.
    pub gen_order_col: bool,
    pub rows: core::marker::PhantomData<R>,
}

/// How blocks are merged.
#[verifier::reject_recursive_types(R)]
pub struct MergePlan<R, Converter> {
    pub converter: Converter,
    pub order_by_cols: Seq<usize>,
    pub block_size: nat,
    /// Whether the rows that the blocks are sorted by are added to them as a column.
    pub gen_order_col: bool,
    pub rows: core::marker::PhantomData<R>,
}

impl<R: Rows, Converter: RowConverter<R>> MergePlan<R, Converter> {
    /// What a block's rows are ordered by.
    pub open spec fn block_keys(self, b: BlockView) -> Seq<R::Key> {
        self.converter.row_keys(sort_entries(b, self.order_by_cols), b.num_rows)
    }

    /// A block as it goes into the merge: with the order column where one is wanted.
    pub open spec fn prepared(self, b: BlockView) -> BlockView {
        if self.gen_order_col {
            let column = self.converter.row_column(sort_entries(b, self.order_by_cols), b.num_rows);
            BlockView {
                columns: b.columns.push(
                    EntryView { data_type: column.data_type, value: ValueView::Column(column) },
                ),
                ..b
            }
        } else {
            b
        }
    }

    /// The columns that a block is sorted by are there and can be converted.
    pub open spec fn sortable(self, b: BlockView) -> bool {
        &&& rows_ok(b.columns, b.num_rows)
        &&& forall|i: int|
            0 <= i < self.order_by_cols.len() ==> (#[trigger] self.order_by_cols[i]) < b.columns.len()
        &&& self.converter.convertible(sort_entries(b, self.order_by_cols), b.num_rows)
    }

    /// The rows of all blocks in order.
    pub open spec fn merge_order(self, blocks: Seq<BlockView>) -> Seq<(int, int)> {
        merge_all::<R>(blocks.map_values(|b: BlockView| self.block_keys(b)))
    }

    /// The merged blocks: the rows of all blocks in order, cut into blocks of `block_size`.
    pub open spec fn merged_blocks(self, blocks: Seq<BlockView>) -> Seq<BlockView> {
        let idx = self.merge_order(blocks);
        let ready = blocks.map_values(|b: BlockView| self.prepared(b));
        Seq::new(
            (idx.len() + self.block_size - 1) as nat / (self.block_size),
            |i: int| gathered(ready, block_cut(idx, i, self.block_size as int)),
        )
    }

    /// How often it is asked whether a merge is to be given up: before each row and before each
    /// block.
    pub open spec fn questions(self, blocks: Seq<BlockView>) -> int {
        let b = with_rows(blocks);
        (self.merge_order(b).len() + self.merged_blocks(b).len()) as int
    }

    /// What comes of a compaction: nothing where there are no rows, a single block that has rows
    /// as it is, otherwise the merged blocks.
    pub open spec fn compacted(self, blocks: Seq<BlockView>) -> Seq<BlockView> {
        let b = with_rows(blocks);
        if b.len() == 0 {
            Seq::empty()
        } else if b.len() == 1 {
            seq![self.prepared(b[0])]
        } else {
            self.merged_blocks(b)
        }
    }

    /// Blocks that can be compacted: where there is something to merge, the blocks with rows
    /// are of the same columns, can be sorted by, and can be counted.
    pub open spec fn ready_for(self, blocks: Seq<BlockView>) -> bool {
        let b = with_rows(blocks);
        &&& b.len() == 1 && self.gen_order_col ==> self.sortable(b[0])
        &&& b.len() >= 2 ==> {
            &&& b.len() <= i32::MAX
            &&& mergeable(b)
            &&& forall|i: int|
                #![trigger b[i]]
                0 <= i < b.len() ==> self.sortable(b[i]) && b[i].num_rows <= i32::MAX
        }
    }
}

impl<R, Converter> View for SortMergeCompactor<R, Converter> {
    type V = MergePlan<R, Converter>;

    open spec fn view(&self) -> MergePlan<R, Converter> {
        MergePlan {
            converter: self.row_converter,
            order_by_cols: self.order_by_cols@,
            block_size: self.block_size as nat,
            gen_order_col: self.gen_order_col,
            rows: self.rows,
        }
    }
}

/// The columns that a sort goes by.
pub open spec fn offsets(sort_desc: Seq<SortColumnDescription>) -> Seq<usize> {
    sort_desc.map_values(|d: SortColumnDescription| d.offset)
}

impl<R: Rows, Converter: RowConverter<R>> SortMergeCompactor<R, Converter> {
    pub fn try_create(
        schema: &DataSchema,
        block_size: usize,
        sort_desc: Vec<SortColumnDescription>,
        gen_order_col: bool,
    ) -> (r: Result<SortMergeCompactor<R, Converter>, ErrorCode>)
        requires
            Converter::creatable(sort_desc@),
        ensures
            r matches Ok(c) && {
                &&& c@ == (MergePlan::<R, Converter> {
                    converter: Converter::of(sort_desc@),
                    order_by_cols: offsets(sort_desc@),
                    block_size: block_size as nat,
                    gen_order_col,
                    rows: core::marker::PhantomData,
                })
            },
    {
        let mut order_by_cols: Vec<usize> = Vec::new();
        let mut i: usize = 0;
        while i < sort_desc.len()
            invariant
                i <= sort_desc.len(),
                order_by_cols.len() == i,
                forall|j: int| 0 <= j < i ==> #[trigger] order_by_cols@[j] == sort_desc@[j].offset,
            decreases sort_desc.len() - i,
        {
            order_by_cols.push(sort_desc[i].offset);
            i += 1;
        }
        assert(order_by_cols@ =~= sort_desc@.map_values(|d: SortColumnDescription| d.offset));
        match Converter::create(sort_desc, schema) {
            Ok(row_converter) => Ok(
                SortMergeCompactor {
                    block_size,
                    row_converter,
                    order_by_cols,
                    aborting: Arc::new(AtomicBool::new(false)),
                    gen_order_col,
                    rows: core::marker::PhantomData,
                },
            ),
            Err(e) => Err(e),
        }
    }

    pub fn name() -> (r: &'static str)
        ensures
            r@ == "SortMergeTransform"@,
    {
        "SortMergeTransform"
    }

    /// Asks a merge to give up, also one that another thread is at. When a merge learns of it rests
    /// on the machine and is left open.
    pub fn interrupt(&self) {
        self.aborting.store(true, core::sync::atomic::Ordering::Release);
    }

    /// Rows of a block, and the block with the order column where one is wanted.
    fn prepare(&self, block: DataBlock) -> (r: (R, DataBlock))
        requires
            self@.sortable(block@),
        ensures
            r.0.keys() == self@.block_keys(block@),
            r.0.keys().len() == block@.num_rows,
            r.1@ == self@.prepared(block@),
            rows_ok(r.1@.columns, r.1@.num_rows),
    {
        let mut columns: Vec<BlockEntry> = Vec::new();
        let mut i: usize = 0;
        while i < self.order_by_cols.len()
            invariant
                i <= self.order_by_cols.len(),
                columns.len() == i,
                self@.sortable(block@),
                forall|j: int|
                    0 <= j < i ==> (#[trigger] columns@[j])@ == block@.columns[self.order_by_cols@[j] as int],
            decreases self.order_by_cols.len() - i,
        {
            assert(self.order_by_cols@[i as int] < block@.columns.len());
            columns.push(block.get_by_offset(self.order_by_cols[i]).clone());
            i += 1;
        }
        assert(entry_views(columns@) =~= sort_entries(block@, self.order_by_cols@));
        let rows = self.row_converter.convert(&columns, block.num_rows());
        let mut block = block;
        if self.gen_order_col {
            let order_col = rows.to_column();
            let entry = BlockEntry { data_type: order_col.data_type(), value: Value::Column(order_col) };
            block.add_column(entry);
        }
        (rows, block)
    }

    /// Merges sorted blocks, and gives up where the flag is found to be set.
    pub fn compact_final(&mut self, blocks: Vec<DataBlock>) -> (r: Result<Vec<DataBlock>, ErrorCode>)
        requires
            old(self)@.ready_for(block_views(blocks@)),
            with_rows(block_views(blocks@)).len() >= 2 ==> old(self).block_size > 0,
        ensures
            *final(self) == *old(self),
            match r {
                Ok(out) => block_views(out@) == old(self)@.compacted(block_views(blocks@)),
                Err(e) => is_aborted(e) && with_rows(block_views(blocks@)).len() >= 2,
            },
    {
        let flag = self.aborting.clone();
        self.compact(blocks, &Interrupts::Flag(&flag))
    }

    /// Merges sorted blocks, and gives up at the first question that is answered with yes. One
    /// block alone is not merged, and nothing is asked.
    pub fn compact(&self, blocks: Vec<DataBlock>, interrupts: &Interrupts) -> (r: Result<Vec<DataBlock>, ErrorCode>)
        requires
            self@.ready_for(block_views(blocks@)),
            with_rows(block_views(blocks@)).len() >= 2 ==> self.block_size > 0,
        ensures
            match r {
                Ok(out) => {
                    &&& block_views(out@) == self@.compacted(block_views(blocks@))
                    &&& with_rows(block_views(blocks@)).len() >= 2 ==> went_on(
                        *interrupts,
                        self@.questions(block_views(blocks@)),
                    )
                },
                Err(e) => {
                    &&& is_aborted(e)
                    &&& with_rows(block_views(blocks@)).len() >= 2
                    &&& stopped(*interrupts, self@.questions(block_views(blocks@)))
                },
            },
    {
        let mut kept: Vec<DataBlock> = Vec::new();
        let ghost all = block_views(blocks@);
        let ghost p = |v: BlockView| has_rows(v);
        let mut i: usize = 0;
        proof {
            reveal(Seq::filter);
            assert(all.take(0).filter(p) =~= Seq::<BlockView>::empty());
            assert(block_views(kept@) =~= Seq::<BlockView>::empty());
        }
        while i < blocks.len()
            invariant
                i <= blocks.len(),
                all == block_views(blocks@),
                p == (|v: BlockView| has_rows(v)),
                block_views(kept@) == all.take(i as int).filter(p),
                forall|j: int| 0 <= j < kept@.len() ==> has_rows((#[trigger] kept@[j])@),
            decreases blocks.len() - i,
        {
            let ghost before = kept@;
            proof {
                reveal(Seq::filter);
                assert(all.take(i + 1).drop_last() =~= all.take(i as int));
                assert(all.take(i + 1).last() == blocks@[i as int]@);
            }
            if !blocks[i].is_empty() {
                kept.push(blocks[i].clone());
                assert(block_views(kept@) =~= block_views(before).push(blocks@[i as int]@));
            }
            i += 1;
        }
        assert(all.take(i as int) =~= all);
        let ghost b = with_rows(all);
        let len: usize = kept.len();
        if len == 0 {
            return Ok(Vec::new());
        }
        assert(b[0] == kept@[0]@);
        if len == 1 {
            if self.gen_order_col {
                let only = kept.swap_remove(0);
                let (_rows, block) = self.prepare(only);
                let mut out: Vec<DataBlock> = Vec::new();
                out.push(block);
                assert(block_views(out@) =~= seq![self@.prepared(b[0])]);
                return Ok(out);
            }
            assert(block_views(kept@) =~= seq![self@.prepared(b[0])]);
            return Ok(kept);
        }
        let mut ready: Vec<DataBlock> = Vec::new();
        let mut leaves: Vec<Cursor<R>> = Vec::new();
        let mut k: usize = 0;
        while k < len
            invariant
                k <= len,
                len == kept@.len(),
                len <= i32::MAX,
                b == block_views(kept@),
                ready.len() == k,
                leaves.len() == k,
                forall|j: int|
                    #![trigger b[j]]
                    0 <= j < b.len() ==> self@.sortable(b[j]) && b[j].num_rows <= i32::MAX,
                forall|j: int| #![trigger ready@[j]] 0 <= j < k ==> ready@[j]@ == self@.prepared(b[j]) && rows_ok(ready@[j]@.columns, ready@[j]@.num_rows),
                forall|j: int|
                    #![trigger leaves@[j]]
                    0 <= j < k ==> leaves@[j].input_index == j && leaves@[j].row_index == 0
                        && leaves@[j].rows.keys() == self@.block_keys(b[j]) && leaves@[j].rows.keys().len()
                        == b[j].num_rows,
            decreases len - k,
        {
            assert(b[k as int] == kept@[k as int]@);
            let (rows, block) = self.prepare(kept[k].clone());
            ready.push(block);
            leaves.push(Cursor::new(k, rows));
            k += 1;
        }
        let ghost views = b.map_values(|v: BlockView| self@.prepared(v));
        proof {
            assert(block_views(ready@) =~= views);
            assert(leaf_keys(leaves@) =~= b.map_values(|v: BlockView| self@.block_keys(v)));
            assert forall|j: int| 0 <= j < leaves@.len() implies (#[trigger] leaves@[j]).input_index == j
                && leaves@[j].rows.keys().len() <= i32::MAX && leaves@[j].row_index <= leaves@[j].rows.keys().len() by {
                assert(b[j].num_rows <= i32::MAX);
            }
            assert forall|j: int| #![trigger views[j]] 0 <= j < views.len() implies rows_ok(views[j].columns, views[j].num_rows)
                && views[j].columns.len() == views[0].columns.len() by {
                assert(ready@[j]@ == views[j]);
                assert(b[j].columns.len() == b[0].columns.len());
            }
        }
        let ghost the_leaves = leaves@;
        proof {
            assert(leaf_keys(leaves@).len() == b.len());
            assert(self@.merge_order(b) == merge_all::<R>(leaf_keys(leaves@)));
        }
        let output_indices = match merge_cursors(leaves, interrupts) {
            Ok(output_indices) => output_indices,
            Err(e) => return Err(e),
        };
        let ghost idx = index_pairs(output_indices@);
        let output_size: usize = output_indices.len();
        assert(idx == self@.merge_order(b));
        proof {
            assert forall|j: int| 0 <= j < output_indices@.len() implies (#[trigger] output_indices@[j]).0 < views.len()
                && output_indices@[j].1 < views[output_indices@[j].0 as int].num_rows by {
                let m = output_indices@[j].0 as int;
                assert(the_leaves[m].rows.keys().len() == b[m].num_rows);
                assert(views[m] == self@.prepared(b[m]));
            }
        }
        let block_size: usize = self.block_size;
        proof {
            lemma_div_ceil(output_size as int, block_size as int);
        }
        let output_block_num: usize = output_size / block_size + if output_size % block_size == 0 {
            0
        } else {
            1
        };
        let mut output_blocks: Vec<DataBlock> = Vec::new();
        let mut o: usize = 0;
        while o < output_block_num
            invariant
                o <= output_block_num,
                block_size == self.block_size,
                went_on(*interrupts, output_size + o),
                self@.questions(all) == output_size + output_block_num,
                all == block_views(blocks@),
                with_rows(all).len() >= 2,
                block_size > 0,
                output_size == output_indices@.len(),
                idx == index_pairs(output_indices@),
                output_block_num == (output_size + block_size - 1) as nat / (block_size as nat),
                runs_follow(idx),
                views == block_views(ready@),
                ready@.len() >= 1,
                mergeable(views),
                forall|j: int|
                    0 <= j < output_indices@.len() ==> (#[trigger] output_indices@[j]).0 < views.len()
                        && output_indices@[j].1 < views[output_indices@[j].0 as int].num_rows,
                output_blocks.len() == o,
                forall|j: int|
                    0 <= j < o ==> (#[trigger] output_blocks@[j])@ == gathered(
                        views,
                        block_cut(idx, j, block_size as int),
                    ),
            decreases output_block_num - o,
        {
            proof {
                lemma_cut_in_range(o as int, block_size as int, output_size as int);
            }
            let start: usize = o * block_size;
            let end: usize = if output_size - start < block_size {
                output_size
            } else {
                start + block_size
            };
            match check_aborting(ask(interrupts, output_size, o)) {
                Ok(()) => {},
                Err(e) => {
                    assert(may_answer(*interrupts, output_size + o, true));
                    return Err(e);
                },
            }
            let slices = merge_slices(&output_indices, start, end);
            proof {
                assert forall|j: int|
                    #![trigger slices@[j]]
                    0 <= j < slices@.len() implies slices@[j].0 < views.len() && slices@[j].1 + slices@[j].2
                    <= views[slices@[j].0 as int].num_rows by {
                    let w = choose|w: int|
                        #![trigger output_indices@[w]]
                        start <= w < end && output_indices@[w].0 == slices@[j].0 && output_indices@[w].1 + 1
                            == slices@[j].1 + slices@[j].2;
                    assert(output_indices@[w].0 == slices@[j].0);
                }
            }
            let block = take_by_slices_from_blocks(&ready, &slices, end - start);
            output_blocks.push(block);
            o += 1;
        }
        assert(block_views(output_blocks@) =~= self@.merged_blocks(b));
        Ok(output_blocks)
    }
}

/// The rows of output block `i`.
pub open spec fn block_cut(idx: Seq<(int, int)>, i: int, size: int) -> Seq<(int, int)> {
    idx.subrange(
        i * size,
        if i * size + size <= idx.len() {
            i * size + size
        } else {
            idx.len() as int
        },
    )
}

proof fn lemma_cut_in_range(o: int, size: int, total: int)
    requires
        size > 0,
        total >= 0,
        0 <= o < (total + size - 1) / size,
    ensures
        0 <= o * size < total,
{
    assert(0 <= o * size < total) by (nonlinear_arith)
        requires
            size > 0,
            total >= 0,
            0 <= o < (total + size - 1) / size,
    ;
}

proof fn lemma_div_ceil(total: int, size: int)
    requires
        size > 0,
        total >= 0,
    ensures
        (total + size - 1) / size == total / size + if total % size == 0 {
            0int
        } else {
            1
        },
        total % size != 0 ==> total / size < total,
{
    let q = total / size;
    let r = total % size;
    vstd::arithmetic::div_mod::lemma_fundamental_div_mod(total, size);
    vstd::arithmetic::div_mod::lemma_mod_bound(total, size);
    vstd::arithmetic::div_mod::lemma_div_pos_is_pos(total, size);
    assert(size * q == q * size) by (nonlinear_arith);
    if r == 0 {
        vstd::arithmetic::div_mod::lemma_fundamental_div_mod_converse(total + size - 1, size, q, size - 1);
    } else {
        assert((q + 1) * size == q * size + size) by (nonlinear_arith);
        vstd::arithmetic::div_mod::lemma_fundamental_div_mod_converse(total + size - 1, size, q + 1, r - 1);
        assert(q < total) by (nonlinear_arith)
            requires
                total == size * q + r,
                r > 0,
                size > 0,
                q >= 0,
        ;
    }
}

/// Positions within the inputs.
pub open spec fn positions_ok<K>(keys: Seq<Seq<K>>, pos: Seq<int>) -> bool {
    &&& pos.len() == keys.len()
    &&& forall|j: int| 0 <= j < keys.len() ==> 0 <= #[trigger] pos[j] <= keys[j].len()
}

/// Among the first `i` inputs that have rows left, one comes first.
proof fn lemma_next_among<R: Rows>(keys: Seq<Seq<R::Key>>, pos: Seq<int>, i: int) -> (m: int)
    requires
        0 <= i <= keys.len(),
        positions_ok(keys, pos),
        exists|j: int| 0 <= j < i && #[trigger] pos[j] < keys[j].len(),
    ensures
        0 <= m < i,
        pos[m] < keys[m].len(),
        forall|j: int|
            0 <= j < i && j != m && pos[j] < keys[j].len() ==> key_before::<R>(
                keys[m][pos[m]],
                m,
                #[trigger] keys[j][pos[j]],
                j,
            ),
    decreases i,
{
    let last = i - 1;
    if exists|j: int| 0 <= j < last && #[trigger] pos[j] < keys[j].len() {
        let m = lemma_next_among::<R>(keys, pos, last);
        if pos[last] < keys[last].len() {
            let a = keys[m][pos[m]];
            let c = keys[last][pos[last]];
            R::order_laws(a, c, a);
            if key_before::<R>(a, m, c, last) {
                m
            } else {
                assert forall|j: int| 0 <= j < i && j != last && pos[j] < keys[j].len() implies key_before::<R>(
                    c,
                    last,
                    #[trigger] keys[j][pos[j]],
                    j,
                ) by {
                    let d = keys[j][pos[j]];
                    R::order_laws(c, a, d);
                    R::order_laws(a, d, c);
                    R::order_laws(d, c, a);
                }
                last
            }
        } else {
            m
        }
    } else {
        last
    }
}

/// While rows are left, one of them comes next.
proof fn lemma_next_exists<R: Rows>(keys: Seq<Seq<R::Key>>, pos: Seq<int>)
    requires
        positions_ok(keys, pos),
        left_over(keys, pos, keys.len() as int) > 0,
    ensures
        is_next::<R>(keys, pos, choose|m: int| is_next::<R>(keys, pos, m)),
        positions_ok(
            keys,
            pos.update(
                choose|m: int| is_next::<R>(keys, pos, m),
                pos[choose|m: int| is_next::<R>(keys, pos, m)] + 1,
            ),
        ),
{
    lemma_left_over_bounds(keys, pos, keys.len() as int);
    assert(exists|j: int| 0 <= j < keys.len() && #[trigger] pos[j] < keys[j].len());
    let m = lemma_next_among::<R>(keys, pos, keys.len() as int);
    assert(0 <= pos[m]);
    assert(is_next::<R>(keys, pos, m));
}

/// The rows of a merge are those that are left, each once.
proof fn lemma_merged_rows<R: Rows>(keys: Seq<Seq<R::Key>>, pos: Seq<int>, n: nat)
    requires
        positions_ok(keys, pos),
        n == left_over(keys, pos, keys.len() as int),
    ensures
        merged::<R>(keys, pos, n).len() == n,
        merged::<R>(keys, pos, n).no_duplicates(),
        forall|m: int, r: int|
            #[trigger] merged::<R>(keys, pos, n).contains((m, r)) <==> 0 <= m < keys.len() && pos[m] <= r < keys[m].len(),
    decreases n,
{
    let all = merged::<R>(keys, pos, n);
    if n > 0 {
        lemma_next_exists::<R>(keys, pos);
        let h = choose|m: int| is_next::<R>(keys, pos, m);
        let next = pos.update(h, pos[h] + 1);
        lemma_left_over_step(keys, pos, h, keys.len() as int);
        let rest = merged::<R>(keys, next, (n - 1) as nat);
        lemma_merged_rows::<R>(keys, next, (n - 1) as nat);
        assert(all == seq![(h, pos[h])] + rest);
        assert(!rest.contains((h, pos[h])));
        assert forall|i: int, j: int| 0 <= i < all.len() && 0 <= j < all.len() && i != j implies all[i] != all[j] by {
            if i > 0 && j > 0 {
                assert(all[i] == rest[i - 1] && all[j] == rest[j - 1]);
            } else if i > 0 {
                assert(all[i] == rest[i - 1]);
                assert(rest.contains(all[i]));
            } else {
                assert(all[j] == rest[j - 1]);
                assert(rest.contains(all[j]));
            }
        }
        assert forall|m: int, r: int| #[trigger] all.contains((m, r)) <==> 0 <= m < keys.len() && pos[m] <= r
            < keys[m].len() by {
            assert(rest.contains((m, r)) <==> 0 <= m < keys.len() && next[m] <= r < keys[m].len());
            if all.contains((m, r)) {
                let i = choose|i: int| 0 <= i < all.len() && all[i] == (m, r);
                if i > 0 {
                    assert(rest[i - 1] == (m, r));
                    assert(rest.contains((m, r)));
                }
            }
            if 0 <= m < keys.len() && pos[m] <= r < keys[m].len() {
                if m == h && r == pos[h] {
                    assert(all[0] == (m, r));
                } else {
                    assert(rest.contains((m, r)));
                    let i = choose|i: int| 0 <= i < rest.len() && rest[i] == (m, r);
                    assert(all[i + 1] == (m, r));
                }
            }
        }
    } else {
        lemma_left_over_bounds(keys, pos, keys.len() as int);
        assert forall|m: int, r: int| #[trigger] all.contains((m, r)) <==> 0 <= m < keys.len() && pos[m] <= r
            < keys[m].len() by {
            if 0 <= m < keys.len() {
                assert(pos[m] == keys[m].len());
            }
        }
    }
}

/// Each input is in order.
pub open spec fn inputs_sorted<R: Rows>(keys: Seq<Seq<R::Key>>) -> bool {
    forall|m: int, a: int, b: int|
        #![trigger keys[m][a], keys[m][b]]
        0 <= m < keys.len() && 0 <= a <= b < keys[m].len() ==> R::key_order(keys[m][a], keys[m][b]) != Order::Greater
}

/// A row comes before another in a stable order: by its key, of two equal keys that of the
/// earlier input, within one input the earlier row.
pub open spec fn stably_before<R: Rows>(keys: Seq<Seq<R::Key>>, a: (int, int), b: (int, int)) -> bool {
    if a.0 == b.0 {
        a.1 < b.1 && R::key_order(keys[a.0][a.1], keys[b.0][b.1]) != Order::Greater
    } else {
        key_before::<R>(keys[a.0][a.1], a.0, keys[b.0][b.1], b.0)
    }
}

proof fn lemma_merged_sorted<R: Rows>(keys: Seq<Seq<R::Key>>, pos: Seq<int>, n: nat)
    requires
        positions_ok(keys, pos),
        inputs_sorted::<R>(keys),
        n == left_over(keys, pos, keys.len() as int),
    ensures
        forall|i: int, j: int|
            #![trigger merged::<R>(keys, pos, n)[i], merged::<R>(keys, pos, n)[j]]
            0 <= i < j < n ==> stably_before::<R>(keys, merged::<R>(keys, pos, n)[i], merged::<R>(keys, pos, n)[j]),
    decreases n,
{
    if n > 0 {
        let all = merged::<R>(keys, pos, n);
        lemma_next_exists::<R>(keys, pos);
        let h = choose|m: int| is_next::<R>(keys, pos, m);
        let next = pos.update(h, pos[h] + 1);
        lemma_left_over_step(keys, pos, h, keys.len() as int);
        let rest = merged::<R>(keys, next, (n - 1) as nat);
        lemma_merged_sorted::<R>(keys, next, (n - 1) as nat);
        lemma_merged_rows::<R>(keys, next, (n - 1) as nat);
        assert(all == seq![(h, pos[h])] + rest);
        assert forall|i: int, j: int| #![trigger all[i], all[j]] 0 <= i < j < n implies stably_before::<R>(
            keys,
            all[i],
            all[j],
        ) by {
            assert(all[j] == rest[j - 1]);
            if i > 0 {
                assert(all[i] == rest[i - 1]);
            } else {
                let (m, r) = all[j];
                assert(rest.contains((m, r)));
                let a = keys[h][pos[h]];
                let d = keys[m][r];
                if m != h {
                    let c = keys[m][pos[m]];
                    assert(key_before::<R>(a, h, c, m));
                    assert(R::key_order(keys[m][pos[m]], keys[m][r]) != Order::Greater);
                    R::order_laws(a, c, d);
                    R::order_laws(c, d, a);
                    R::order_laws(d, a, c);
                } else {
                    assert(R::key_order(keys[h][pos[h]], keys[h][r]) != Order::Greater);
                }
            }
        }
    }
}

proof fn lemma_start_ok<K>(keys: Seq<Seq<K>>)
    ensures
        positions_ok(keys, start_positions(keys.len())),
        left_over(keys, start_positions(keys.len()), keys.len() as int) >= 0,
{
    lemma_left_over_bounds(keys, start_positions(keys.len()), keys.len() as int);
}

/// A merge takes every row of every input, and takes it once.
pub proof fn merge_takes_every_row_once<R: Rows>(keys: Seq<Seq<R::Key>>)
    ensures
        merge_all::<R>(keys).no_duplicates(),
        forall|m: int, r: int|
            #[trigger] merge_all::<R>(keys).contains((m, r)) <==> 0 <= m < keys.len() && 0 <= r < keys[m].len(),
{
    lemma_start_ok(keys);
    lemma_merged_rows::<R>(
        keys,
        start_positions(keys.len()),
        left_over(keys, start_positions(keys.len()), keys.len() as int) as nat,
    );
}

/// What is asked decides a merge: one that is never to be given up goes on, and where the answers
/// are known it is given up if and only if one of them is yes while it is still asked.
pub proof fn a_merge_is_given_up_at_a_yes(answers: Vec<bool>, n: int)
    ensures
        went_on(Interrupts::Never, n),
        !stopped(Interrupts::Never, n),
        stopped(Interrupts::Answers(&answers), n) <==> exists|k: int|
            0 <= k < n && k < answers@.len() && #[trigger] answers@[k],
        went_on(Interrupts::Answers(&answers), n) <==> !stopped(Interrupts::Answers(&answers), n),
{
    let asked = Interrupts::Answers(&answers);
    if exists|k: int| 0 <= k < n && k < answers@.len() && #[trigger] answers@[k] {
        let k = choose|k: int| 0 <= k < n && k < answers@.len() && #[trigger] answers@[k];
        let first = lemma_first_yes(answers@, k);
        assert(may_answer(asked, first, true));
        assert(!may_answer(asked, first, false));
    } else {
        assert forall|k: int| 0 <= k < n implies #[trigger] may_answer(asked, k, false) by {}
        assert forall|k: int| 0 <= k < n implies !#[trigger] may_answer(asked, k, true) by {}
    }
}

/// The first yes up to one that is known.
proof fn lemma_first_yes(answers: Seq<bool>, k: int) -> (first: int)
    requires
        0 <= k < answers.len(),
        answers[k],
    ensures
        0 <= first <= k,
        answers[first],
        forall|j: int| 0 <= j < first ==> !#[trigger] answers[j],
    decreases k,
{
    if exists|j: int| 0 <= j < k && #[trigger] answers[j] {
        let j = choose|j: int| 0 <= j < k && #[trigger] answers[j];
        lemma_first_yes(answers, j)
    } else {
        k
    }
}

/// A compaction that merges takes every row of every block with rows, and takes it once.
pub proof fn compaction_takes_every_row_once<R: Rows, Converter: RowConverter<R>>(
    plan: MergePlan<R, Converter>,
    blocks: Seq<BlockView>,
)
    requires
        plan.ready_for(blocks),
        with_rows(blocks).len() >= 2,
    ensures
        plan.merge_order(with_rows(blocks)).no_duplicates(),
        forall|m: int, r: int|
            #[trigger] plan.merge_order(with_rows(blocks)).contains((m, r)) <==> 0 <= m < with_rows(blocks).len() && 0
                <= r < with_rows(blocks)[m].num_rows,
{
    let b = with_rows(blocks);
    let keys = b.map_values(|v: BlockView| plan.block_keys(v));
    merge_takes_every_row_once::<R>(keys);
    assert forall|m: int| 0 <= m < b.len() implies #[trigger] keys[m].len() == b[m].num_rows by {
        assert(plan.sortable(b[m]));
        plan.converter.row_laws(sort_entries(b[m], plan.order_by_cols), b[m].num_rows);
    }
}

/// A merge of inputs that are in order is in order, and it is stable: of two equal rows that of
/// the earlier input comes first.
pub proof fn merge_of_sorted_inputs_is_sorted<R: Rows>(keys: Seq<Seq<R::Key>>)
    requires
        inputs_sorted::<R>(keys),
    ensures
        forall|i: int, j: int|
            #![trigger merge_all::<R>(keys)[i], merge_all::<R>(keys)[j]]
            0 <= i < j < merge_all::<R>(keys).len() ==> stably_before::<R>(
                keys,
                merge_all::<R>(keys)[i],
                merge_all::<R>(keys)[j],
            ),
{
    lemma_start_ok(keys);
    let pos = start_positions(keys.len());
    let n = left_over(keys, pos, keys.len() as int) as nat;
    lemma_merged_rows::<R>(keys, pos, n);
    lemma_merged_sorted::<R>(keys, pos, n);
}

/// Which rows a sort compares, by what it sorts by.
#[derive(Clone, Copy, Debug, PartialEq, Eq, Structural)]
pub enum SortRows {
    /// Values of one numeric column.
    SimpleNumber(NumberDataType),
    /// Values of one date column.
    SimpleDate,
    /// Values of one timestamp column.
    SimpleTimestamp,
    /// Values of one string column.
    SimpleString,
    /// Rows that are encoded from any number of columns of any types.
    Common,
}

pub open spec fn sort_rows_of(fields: Seq<FieldView>, sort_desc: Seq<SortColumnDescription>) -> SortRows {
    if sort_desc.len() == 1 {
        match fields[sort_desc[0].offset as int].data_type {
            TypeView::Number(n) => SortRows::SimpleNumber(n),
            TypeView::Date => SortRows::SimpleDate,
            TypeView::Timestamp => SortRows::SimpleTimestamp,
            TypeView::String => SortRows::SimpleString,
            _ => SortRows::Common,
        }
    } else {
        SortRows::Common
    }
}

/// Which rows the merge sort of a schema compares: the values themselves where it sorts by one
/// column of a simple type, encoded rows otherwise.
pub fn try_create_transform_sort_merge(
    output_schema: &DataSchema,
    sort_desc: &Vec<SortColumnDescription>,
) -> (r: SortRows)
    requires
        sort_desc@.len() == 1 ==> sort_desc@[0].offset < output_schema@.len(),
    ensures
        r == sort_rows_of(output_schema@, sort_desc@),
{
    if sort_desc.len() == 1 {
        let offset: usize = sort_desc[0].offset;
        assert(output_schema@[offset as int] == output_schema.fields@[offset as int]@);
        match &output_schema.fields[offset].data_type {
            DataType::Number(n) => SortRows::SimpleNumber(*n),
            DataType::Date => SortRows::SimpleDate,
            DataType::Timestamp => SortRows::SimpleTimestamp,
            DataType::String => SortRows::SimpleString,
            _ => SortRows::Common,
        }
    } else {
        SortRows::Common
    }
}

/// A merge that adds no order column.
pub open spec fn plain_merge<R: Rows, Converter: RowConverter<R>>(
    sort_desc: Seq<SortColumnDescription>,
    block_size: nat,
) -> MergePlan<R, Converter> {
    MergePlan {
        converter: Converter::of(sort_desc),
        order_by_cols: offsets(sort_desc),
        block_size,
        gen_order_col: false,
        rows: core::marker::PhantomData,
    }
}

/// Merges sorted blocks.
pub fn sort_merge<R: Rows, Converter: RowConverter<R>>(
    data_schema: &DataSchema,
    block_size: usize,
    sort_desc: Vec<SortColumnDescription>,
    data_blocks: Vec<DataBlock>,
) -> (r: Result<Vec<DataBlock>, ErrorCode>)
    requires
        Converter::creatable(sort_desc@),
        plain_merge::<R, Converter>(sort_desc@, block_size as nat).ready_for(block_views(data_blocks@)),
        with_rows(block_views(data_blocks@)).len() >= 2 ==> block_size > 0,
    ensures
        r matches Ok(out) && block_views(out@) == plain_merge::<R, Converter>(sort_desc@, block_size as nat).compacted(
            block_views(data_blocks@),
        ),
{
    match SortMergeCompactor::<R, Converter>::try_create(data_schema, block_size, sort_desc, false) {
        // Nobody else knows of the compactor.
        Ok(compactor) => compactor.compact(data_blocks, &Interrupts::Never),
        Err(e) => Err(e),
    }
}

/// The rows of a block, each with the values of its columns.
pub open spec fn block_rows(b: BlockView) -> Seq<Seq<ScalarView>> {
    Seq::new(
        b.num_rows,
        |r: int| Seq::new(b.columns.len(), |c: int| full_column(b.columns[c], b.num_rows).rows[r]),
    )
}

/// The rows of blocks, one block after the other.
pub open spec fn table_rows(blocks: Seq<BlockView>) -> Seq<Seq<ScalarView>>
    decreases blocks.len(),
{
    if blocks.len() == 0 {
        Seq::empty()
    } else {
        table_rows(blocks.drop_last()) + block_rows(blocks.last())
    }
}

/// Rows are in the order of the values in one of their columns.
pub open spec fn sorted_by_column(rows: Seq<Seq<ScalarView>>, c: int, asc: bool) -> bool {
    forall|i: int, j: int|
        #![trigger rows[i], rows[j]]
        0 <= i <= j < rows.len() ==> if asc {
            value_at_most(rows[i][c], rows[j][c])
        } else {
            value_at_most(rows[j][c], rows[i][c])
        }
}

/// A row of blocks that have as many columns as the first of them.
spec fn row_at(blocks: Seq<BlockView>, p: (int, int)) -> Seq<ScalarView> {
    Seq::new(
        blocks[0].columns.len(),
        |c: int| full_column(blocks[p.0].columns[c], blocks[p.0].num_rows).rows[p.1],
    )
}

spec fn rows_at(blocks: Seq<BlockView>, idx: Seq<(int, int)>) -> Seq<Seq<ScalarView>> {
    idx.map_values(|p: (int, int)| row_at(blocks, p))
}

proof fn lemma_gathered_rows(blocks: Seq<BlockView>, idx: Seq<(int, int)>)
    ensures
        block_rows(gathered(blocks, idx)) == rows_at(blocks, idx),
{
    let g = gathered(blocks, idx);
    assert forall|r: int| 0 <= r < idx.len() implies block_rows(g)[r] == #[trigger] rows_at(blocks, idx)[r] by {
        assert(block_rows(g)[r] =~= row_at(blocks, idx[r]));
    }
    assert(block_rows(g) =~= rows_at(blocks, idx));
}

/// The first `k` merged blocks hold the first rows of the merge.
proof fn lemma_merged_rows_of_blocks(out: Seq<BlockView>, blocks: Seq<BlockView>, idx: Seq<(int, int)>, size: int, k: int)
    requires
        size > 0,
        out == Seq::new(
            ((idx.len() + size - 1) as nat / (size as nat)) as nat,
            |i: int| gathered(blocks, block_cut(idx, i, size)),
        ),
        0 <= k <= out.len(),
    ensures
        table_rows(out.take(k)) == rows_at(
            blocks,
            idx.take(
                if k * size <= idx.len() {
                    k * size
                } else {
                    idx.len() as int
                },
            ),
        ),
    decreases k,
{
    let n = idx.len() as int;
    if k > 0 {
        lemma_merged_rows_of_blocks(out, blocks, idx, size, k - 1);
        lemma_cut_in_range(k - 1, size, n);
        assert(k * size == (k - 1) * size + size) by (nonlinear_arith);
        let from = (k - 1) * size;
        let to = if k * size <= n {
            k * size
        } else {
            n
        };
        let cut = block_cut(idx, k - 1, size);
        assert(cut == idx.subrange(from, to));
        assert(out.take(k).drop_last() =~= out.take(k - 1));
        assert(out.take(k).last() == gathered(blocks, cut));
        lemma_gathered_rows(blocks, cut);
        assert(idx.take(to) =~= idx.take(from) + cut);
        assert(rows_at(blocks, idx.take(to)) =~= rows_at(blocks, idx.take(from)) + rows_at(blocks, cut));
    } else {
        assert(0 * size == 0);
        assert(out.take(0) =~= Seq::<BlockView>::empty());
        assert(rows_at(blocks, idx.take(0)) =~= Seq::<Seq<ScalarView>>::empty());
    }
}

/// What the blocks of a merge hold.
proof fn lemma_merged_table<R: Rows, Converter: RowConverter<R>>(plan: MergePlan<R, Converter>, b: Seq<BlockView>)
    requires
        !plan.gen_order_col,
        plan.block_size > 0,
    ensures
        table_rows(plan.merged_blocks(b)) == rows_at(b, plan.merge_order(b)),
{
    let idx = plan.merge_order(b);
    let out = plan.merged_blocks(b);
    let size = plan.block_size as int;
    assert(b.map_values(|v: BlockView| plan.prepared(v)) =~= b);
    lemma_merged_rows_of_blocks(out, b, idx, size, out.len() as int);
    lemma_div_ceil(idx.len() as int, size);
    let total = idx.len() as int;
    vstd::arithmetic::div_mod::lemma_fundamental_div_mod(total, size);
    vstd::arithmetic::div_mod::lemma_mod_bound(total, size);
    let q = total / size;
    assert(size * q == q * size && (q + 1) * size == q * size + size) by (nonlinear_arith);
    assert(out.len() * size >= total);
    assert(out.take(out.len() as int) =~= out);
    assert(idx.take(total) =~= idx);
    if out.len() * size == total {
        assert(idx.take(out.len() * size) =~= idx);
    }
}

/// Every row of the blocks, one block after the other.
proof fn lemma_all_rows_once(b: Seq<BlockView>, n: nat)
    requires
        n <= b.len(),
    ensures
        all_rows(b, n).no_duplicates(),
        forall|m: int, r: int| #[trigger] all_rows(b, n).contains((m, r)) <==> 0 <= m < n && 0 <= r < b[m].num_rows,
    decreases n,
{
    let all = all_rows(b, n);
    if n > 0 {
        lemma_all_rows_once(b, (n - 1) as nat);
        let before = all_rows(b, (n - 1) as nat);
        let last = Seq::new(b[n - 1].num_rows, |k: int| (n - 1, k));
        assert(all == before + last);
        assert forall|i: int, j: int| 0 <= i < all.len() && 0 <= j < all.len() && i != j implies all[i] != all[j] by {
            if i < before.len() {
                assert(before.contains(all[i]));
                assert(before.contains((all[i].0, all[i].1)));
            }
            if j < before.len() {
                assert(before.contains(all[j]));
                assert(before.contains((all[j].0, all[j].1)));
            }
        }
        assert forall|m: int, r: int| #[trigger] all.contains((m, r)) <==> 0 <= m < n && 0 <= r < b[m].num_rows by {
            assert(before.contains((m, r)) <==> 0 <= m < n - 1 && 0 <= r < b[m].num_rows);
            if all.contains((m, r)) {
                let i = choose|i: int| 0 <= i < all.len() && all[i] == (m, r);
                if i < before.len() {
                    assert(before[i] == (m, r));
                }
            }
            if before.contains((m, r)) {
                let i = choose|i: int| 0 <= i < before.len() && before[i] == (m, r);
                assert(all[i] == (m, r));
            }
            if m == n - 1 && 0 <= r < b[m].num_rows {
                assert(all[before.len() + r] == (m, r));
            }
        }
    }
}

proof fn lemma_table_of_all_rows(b: Seq<BlockView>, n: nat)
    requires
        n <= b.len(),
        mergeable(b),
    ensures
        table_rows(b.take(n as int)) == rows_at(b, all_rows(b, n)),
    decreases n,
{
    if n > 0 {
        lemma_table_of_all_rows(b, (n - 1) as nat);
        assert(b.take(n as int).drop_last() =~= b.take(n - 1));
        let last = Seq::new(b[n - 1].num_rows, |k: int| (n - 1, k));
        assert(block_rows(b[n - 1]) =~= rows_at(b, last)) by {
            assert forall|r: int| 0 <= r < b[n - 1].num_rows implies #[trigger] block_rows(b[n - 1])[r] == rows_at(b, last)[r] by {
                assert(b[n - 1].columns.len() == b[0].columns.len());
                assert(block_rows(b[n - 1])[r] =~= row_at(b, last[r]));
            }
        }
        assert(rows_at(b, all_rows(b, n)) =~= rows_at(b, all_rows(b, (n - 1) as nat)) + rows_at(b, last));
    } else {
        assert(rows_at(b, all_rows(b, 0)) =~= Seq::<Seq<ScalarView>>::empty());
    }
}

/// All rows of the blocks in turn make the table.
pub proof fn lemma_gathered_in_turn(blocks: Seq<BlockView>)
    requires
        blocks.len() >= 1,
        mergeable(blocks),
    ensures
        block_rows(gathered(blocks, all_rows(blocks, blocks.len()))) == table_rows(blocks),
{
    lemma_gathered_rows(blocks, all_rows(blocks, blocks.len()));
    lemma_table_of_all_rows(blocks, blocks.len());
    assert(blocks.take(blocks.len() as int) =~= blocks);
}

/// The same elements are mapped to the same values.
pub proof fn lemma_map_keeps_multiset<A, B>(s: Seq<A>, t: Seq<A>, f: spec_fn(A) -> B)
    requires
        s.to_multiset() == t.to_multiset(),
    ensures
        s.map_values(f).to_multiset() == t.map_values(f).to_multiset(),
    decreases s.len(),
{
    s.to_multiset_ensures();
    t.to_multiset_ensures();
    if s.len() > 0 {
        let x = s.last();
        assert(s.contains(x));
        assert(s.to_multiset().count(x) > 0);
        assert(t.contains(x));
        let j = choose|j: int| 0 <= j < t.len() && t[j] == x;
        let rest = t.remove(j);
        assert(s.remove(s.len() - 1) =~= s.drop_last());
        lemma_map_keeps_multiset(s.drop_last(), rest, f);
        let mapped = t.map_values(f);
        mapped.to_multiset_ensures();
        s.map_values(f).to_multiset_ensures();
        assert(mapped.remove(j) =~= rest.map_values(f));
        assert(s.map_values(f).remove(s.len() - 1) =~= s.drop_last().map_values(f));
        let ms = s.map_values(f).to_multiset();
        let mt = mapped.to_multiset();
        assert(s.map_values(f)[s.len() - 1] == f(x) && mapped[j] == f(x));
        assert(ms.remove(f(x)) == mt.remove(f(x)));
        assert(s.map_values(f).contains(f(x)) && mapped.contains(f(x)));
        assert(ms =~= ms.remove(f(x)).insert(f(x)));
        assert(mt =~= mt.remove(f(x)).insert(f(x)));
    } else {
        assert(s =~= t);
    }
}

/// Lists that hold the same things, each once, are the same but for their order.
proof fn lemma_same_contents<A>(s: Seq<A>, t: Seq<A>)
    requires
        s.no_duplicates(),
        t.no_duplicates(),
        forall|x: A| #[trigger] s.contains(x) <==> t.contains(x),
    ensures
        s.to_multiset() == t.to_multiset(),
{
    s.to_multiset_ensures();
    t.to_multiset_ensures();
    s.lemma_multiset_has_no_duplicates();
    t.lemma_multiset_has_no_duplicates();
    assert forall|x: A| #[trigger] s.to_multiset().count(x) == t.to_multiset().count(x) by {
        assert(s.contains(x) <==> t.contains(x));
        if s.contains(x) {
            assert(s.to_multiset().contains(x));
            assert(t.to_multiset().contains(x));
        }
    }
    assert(s.to_multiset() =~= t.to_multiset());
}

/// Blocks without rows add none.
proof fn lemma_empty_blocks_add_nothing(blocks: Seq<BlockView>)
    ensures
        table_rows(with_rows(blocks)) == table_rows(blocks),
        forall|i: int| 0 <= i < with_rows(blocks).len() ==> blocks.contains(#[trigger] with_rows(blocks)[i]),
    decreases blocks.len(),
{
    reveal(Seq::filter);
    if blocks.len() > 0 {
        let before = blocks.drop_last();
        let last = blocks.last();
        lemma_empty_blocks_add_nothing(before);
        let kept = with_rows(before);
        assert(blocks[blocks.len() - 1] == last);
        if has_rows(last) {
            assert(with_rows(blocks) == kept.push(last));
            assert(kept.push(last).drop_last() =~= kept);
            assert(kept.push(last).last() == last);
        } else {
            assert(with_rows(blocks) == kept);
            assert(block_rows(last) =~= Seq::<Seq<ScalarView>>::empty());
            assert(table_rows(blocks) =~= table_rows(before));
        }
        assert forall|i: int| 0 <= i < with_rows(blocks).len() implies blocks.contains(#[trigger] with_rows(blocks)[i]) by {
            if i < kept.len() {
                assert(before.contains(kept[i]));
                let j = choose|j: int| 0 <= j < before.len() && before[j] == kept[i];
                assert(blocks[j] == kept[i]);
            }
        }
    }
}

/// A compaction puts the rows in another order and does nothing else to them: what comes out are
/// the rows that went in, each as often as it went in, and each whole.
pub proof fn compaction_keeps_the_rows<R: Rows, Converter: RowConverter<R>>(
    plan: MergePlan<R, Converter>,
    blocks: Seq<BlockView>,
)
    requires
        plan.ready_for(blocks),
        plan.block_size > 0,
        !plan.gen_order_col,
    ensures
        table_rows(plan.compacted(blocks)).to_multiset() == table_rows(blocks).to_multiset(),
{
    let b = with_rows(blocks);
    lemma_empty_blocks_add_nothing(blocks);
    if b.len() == 0 {
        assert(plan.compacted(blocks) =~= b);
    } else if b.len() == 1 {
        assert(plan.compacted(blocks) =~= b);
    } else {
        lemma_merged_table(plan, b);
        compaction_takes_every_row_once(plan, blocks);
        lemma_all_rows_once(b, b.len());
        let idx = plan.merge_order(b);
        let all = all_rows(b, b.len());
        assert forall|p: (int, int)| #[trigger] idx.contains(p) <==> all.contains(p) by {
            assert(idx.contains((p.0, p.1)) <==> all.contains((p.0, p.1)));
        }
        lemma_same_contents(idx, all);
        lemma_map_keeps_multiset(idx, all, |p: (int, int)| row_at(b, p));
        lemma_table_of_all_rows(b, b.len());
        assert(b.take(b.len() as int) =~= b);
    }
}

/// A merge whose keys follow the values of a column is in the order of the values.
proof fn lemma_merged_by_values<R: Rows, Converter: RowConverter<R>>(
    plan: MergePlan<R, Converter>,
    blocks: Seq<BlockView>,
    c: int,
    asc: bool,
)
    requires
        plan.ready_for(blocks),
        plan.block_size > 0,
        !plan.gen_order_col,
        with_rows(blocks).len() >= 2,
        0 <= c < with_rows(blocks)[0].columns.len(),
        forall|m: int, n: int, i: int, j: int|
            #![trigger plan.block_keys(with_rows(blocks)[m])[i], plan.block_keys(with_rows(blocks)[n])[j]]
            0 <= m < with_rows(blocks).len() && 0 <= n < with_rows(blocks).len() && 0 <= i
                < with_rows(blocks)[m].num_rows && 0 <= j < with_rows(blocks)[n].num_rows ==> (R::key_order(
                plan.block_keys(with_rows(blocks)[m])[i],
                plan.block_keys(with_rows(blocks)[n])[j],
            ) != Order::Greater <==> if asc {
                value_at_most(
                    row_at(with_rows(blocks), (m, i))[c],
                    row_at(with_rows(blocks), (n, j))[c],
                )
            } else {
                value_at_most(
                    row_at(with_rows(blocks), (n, j))[c],
                    row_at(with_rows(blocks), (m, i))[c],
                )
            }),
        forall|m: int| 0 <= m < with_rows(blocks).len() ==> sorted_by_column(block_rows(#[trigger] with_rows(blocks)[m]), c, asc),
    ensures
        sorted_by_column(table_rows(plan.compacted(blocks)), c, asc),
{
    let b = with_rows(blocks);
    let keys = b.map_values(|v: BlockView| plan.block_keys(v));
    let idx = plan.merge_order(b);
    assert forall|m: int| 0 <= m < b.len() implies #[trigger] keys[m].len() == b[m].num_rows by {
        assert(plan.sortable(b[m]));
        plan.converter.row_laws(sort_entries(b[m], plan.order_by_cols), b[m].num_rows);
    }
    assert forall|m: int, x: int, y: int|
        #![trigger keys[m][x], keys[m][y]]
        0 <= m < keys.len() && 0 <= x <= y < keys[m].len() implies R::key_order(keys[m][x], keys[m][y]) != Order::Greater by {
        let rows = block_rows(b[m]);
        assert(keys[m].len() == b[m].num_rows);
        assert(sorted_by_column(rows, c, asc));
        assert(b[m].columns.len() == b[0].columns.len());
        assert(rows[x] =~= row_at(b, (m, x)));
        assert(rows[y] =~= row_at(b, (m, y)));
        assert(keys[m] == plan.block_keys(b[m]));
        let p = plan.block_keys(b[m])[x];
        let q = plan.block_keys(b[m])[y];
    }
    merge_of_sorted_inputs_is_sorted::<R>(keys);
    compaction_takes_every_row_once(plan, blocks);
    lemma_merged_table(plan, b);
    let rows = table_rows(plan.compacted(blocks));
    assert(rows == rows_at(b, idx));
    assert forall|i: int, j: int| #![trigger rows[i], rows[j]] 0 <= i <= j < rows.len() implies if asc {
        value_at_most(rows[i][c], rows[j][c])
    } else {
        value_at_most(rows[j][c], rows[i][c])
    } by {
        let (m, r) = idx[i];
        let (n, s) = idx[j];
        assert(idx.contains((m, r)));
        assert(idx.contains((n, s)));
        assert(rows[i] == row_at(b, (m, r)));
        assert(rows[j] == row_at(b, (n, s)));
        assert(keys[m] == plan.block_keys(b[m]) && keys[n] == plan.block_keys(b[n]));
        let p = plan.block_keys(b[m])[r];
        let q = plan.block_keys(b[n])[s];
        R::order_laws(p, p, p);
        if i < j {
            assert(stably_before::<R>(keys, idx[i], idx[j]));
        }
        assert(R::key_order(p, q) != Order::Greater);
    }
}

/// A merge sort by one column of numbers, dates or timestamps sorts: where each block is in the
/// order of the values in the column, so are all rows that come out, from the first block to the
/// last; and they are the rows that went in.
pub proof fn a_merge_of_simple_columns_is_sorted(
    sort_desc: Seq<SortColumnDescription>,
    block_size: nat,
    blocks: Seq<BlockView>,
    t: TypeView,
)
    requires
        sort_desc.len() == 1,
        block_size > 0,
        plain_merge::<SimpleRows, SimpleRowConverter>(sort_desc, block_size).ready_for(blocks),
        t is Number || t is Date || t is Timestamp,
        forall|m: int|
            #![trigger blocks[m]]
            0 <= m < blocks.len() && blocks[m].num_rows > 0 ==> {
                &&& full_column(blocks[m].columns[sort_desc[0].offset as int], blocks[m].num_rows).data_type == t
                &&& sorted_by_column(block_rows(blocks[m]), sort_desc[0].offset as int, sort_desc[0].asc)
            },
    ensures
        ({
            let out = plain_merge::<SimpleRows, SimpleRowConverter>(sort_desc, block_size).compacted(blocks);
            &&& sorted_by_column(table_rows(out), sort_desc[0].offset as int, sort_desc[0].asc)
            &&& table_rows(out).to_multiset() == table_rows(blocks).to_multiset()
        }),
{
    let plan = plain_merge::<SimpleRows, SimpleRowConverter>(sort_desc, block_size);
    let b = with_rows(blocks);
    let c = sort_desc[0].offset as int;
    let asc = sort_desc[0].asc;
    compaction_keeps_the_rows(plan, blocks);
    lemma_empty_blocks_add_nothing(blocks);
    lemma_kept_have_rows(blocks);
    if b.len() == 0 {
    } else if b.len() == 1 {
        lemma_one_block(b);
        assert(blocks.contains(b[0]));
        assert(plan.compacted(blocks) =~= b);
    } else {
        assert(plan.sortable(b[0]));
        assert(plan.order_by_cols[0] < b[0].columns.len());
        assert forall|m: int, n: int, i: int, j: int|
            #![trigger plan.block_keys(b[m])[i], plan.block_keys(b[n])[j]]
            0 <= m < b.len() && 0 <= n < b.len() && 0 <= i < b[m].num_rows && 0 <= j < b[n].num_rows implies (
        SimpleRows::key_order(plan.block_keys(b[m])[i], plan.block_keys(b[n])[j]) != Order::Greater <==> if asc {
            value_at_most(row_at(b, (m, i))[c], row_at(b, (n, j))[c])
        } else {
            value_at_most(row_at(b, (n, j))[c], row_at(b, (m, i))[c])
        }) by {
            assert(blocks.contains(b[m]) && blocks.contains(b[n]));
            assert(plan.sortable(b[m]) && plan.sortable(b[n]));
            assert(sort_entries(b[m], plan.order_by_cols)[0] == b[m].columns[c]);
            assert(sort_entries(b[n], plan.order_by_cols)[0] == b[n].columns[c]);
            let x = full_column(b[m].columns[c], b[m].num_rows).rows[i];
            let y = full_column(b[n].columns[c], b[n].num_rows).rows[j];
            assert(has_type(t, x) && has_type(t, y));
            simple_keys_follow_the_values(x, y, asc);
        }
        assert forall|m: int| 0 <= m < b.len() implies sorted_by_column(block_rows(#[trigger] b[m]), c, asc) by {
            assert(blocks.contains(b[m]));
        }
        lemma_merged_by_values(plan, blocks, c, asc);
    }
}

/// A merge sort by one column of strings sorts: where each block is in the order of the bytes of
/// the strings in the column, so are all rows that come out, from the first block to the last; and
/// they are the rows that went in.
pub proof fn a_merge_of_string_columns_is_sorted(
    sort_desc: Seq<SortColumnDescription>,
    block_size: nat,
    blocks: Seq<BlockView>,
)
    requires
        sort_desc.len() == 1,
        block_size > 0,
        plain_merge::<SimpleStringRows, SimpleStringRowConverter>(sort_desc, block_size).ready_for(blocks),
        forall|m: int|
            #![trigger blocks[m]]
            0 <= m < blocks.len() && blocks[m].num_rows > 0 ==> sorted_by_column(
                block_rows(blocks[m]),
                sort_desc[0].offset as int,
                sort_desc[0].asc,
            ),
    ensures
        ({
            let out = plain_merge::<SimpleStringRows, SimpleStringRowConverter>(sort_desc, block_size).compacted(blocks);
            &&& sorted_by_column(table_rows(out), sort_desc[0].offset as int, sort_desc[0].asc)
            &&& table_rows(out).to_multiset() == table_rows(blocks).to_multiset()
        }),
{
    let plan = plain_merge::<SimpleStringRows, SimpleStringRowConverter>(sort_desc, block_size);
    let b = with_rows(blocks);
    let c = sort_desc[0].offset as int;
    let asc = sort_desc[0].asc;
    compaction_keeps_the_rows(plan, blocks);
    lemma_empty_blocks_add_nothing(blocks);
    lemma_kept_have_rows(blocks);
    if b.len() == 0 {
    } else if b.len() == 1 {
        lemma_one_block(b);
        assert(blocks.contains(b[0]));
        assert(plan.compacted(blocks) =~= b);
    } else {
        assert(plan.sortable(b[0]));
        assert(plan.order_by_cols[0] < b[0].columns.len());
        assert forall|m: int, n: int, i: int, j: int|
            #![trigger plan.block_keys(b[m])[i], plan.block_keys(b[n])[j]]
            0 <= m < b.len() && 0 <= n < b.len() && 0 <= i < b[m].num_rows && 0 <= j < b[n].num_rows implies (
        SimpleStringRows::key_order(plan.block_keys(b[m])[i], plan.block_keys(b[n])[j]) != Order::Greater <==> if asc {
            value_at_most(row_at(b, (m, i))[c], row_at(b, (n, j))[c])
        } else {
            value_at_most(row_at(b, (n, j))[c], row_at(b, (m, i))[c])
        }) by {
            assert(plan.sortable(b[m]) && plan.sortable(b[n]));
            assert(sort_entries(b[m], plan.order_by_cols)[0] == b[m].columns[c]);
            assert(sort_entries(b[n], plan.order_by_cols)[0] == b[n].columns[c]);
            let x = full_column(b[m].columns[c], b[m].num_rows).rows[i];
            let y = full_column(b[n].columns[c], b[n].num_rows).rows[j];
            assert(has_type(TypeView::String, x) && has_type(TypeView::String, y));
            string_keys_follow_the_bytes(x->String_0, y->String_0, asc);
        }
        assert forall|m: int| 0 <= m < b.len() implies sorted_by_column(block_rows(#[trigger] b[m]), c, asc) by {
            assert(blocks.contains(b[m]));
        }
        lemma_merged_by_values(plan, blocks, c, asc);
    }
}

/// The blocks that are kept have rows.
proof fn lemma_kept_have_rows(blocks: Seq<BlockView>)
    ensures
        forall|i: int| 0 <= i < with_rows(blocks).len() ==> (#[trigger] with_rows(blocks)[i]).num_rows > 0,
    decreases blocks.len(),
{
    reveal(Seq::filter);
    if blocks.len() > 0 {
        lemma_kept_have_rows(blocks.drop_last());
    }
}

proof fn lemma_one_block(b: Seq<BlockView>)
    requires
        b.len() == 1,
    ensures
        table_rows(b) == block_rows(b[0]),
{
    assert(b.drop_last() =~= Seq::<BlockView>::empty());
    assert(table_rows(b.drop_last()) =~= Seq::<Seq<ScalarView>>::empty());
    assert(table_rows(b) =~= block_rows(b[0]));
}

/// Merged blocks are full: each has as many rows as are asked for, but for the last, which has at
/// least one and no more.
pub proof fn merged_blocks_are_full<R: Rows, Converter: RowConverter<R>>(
    plan: MergePlan<R, Converter>,
    b: Seq<BlockView>,
    i: int,
)
    requires
        plan.block_size > 0,
        0 <= i < plan.merged_blocks(b).len(),
    ensures
        1 <= plan.merged_blocks(b)[i].num_rows <= plan.block_size,
        i < plan.merged_blocks(b).len() - 1 ==> plan.merged_blocks(b)[i].num_rows == plan.block_size,
{
    let n = plan.merge_order(b).len() as int;
    let size = plan.block_size as int;
    lemma_cut_in_range(i, size, n);
    if i < plan.merged_blocks(b).len() - 1 {
        lemma_cut_in_range(i + 1, size, n);
        assert((i + 1) * size == i * size + size) by (nonlinear_arith);
    }
}

/// A merge sort by one column goes by the values of the column where it is of a simple type, and
/// only there.
pub proof fn simple_columns_are_sorted_by_value(fields: Seq<FieldView>, sort_desc: Seq<SortColumnDescription>)
    ensures
        sort_desc.len() != 1 ==> sort_rows_of(fields, sort_desc) == SortRows::Common,
        sort_desc.len() == 1 ==> ({
            let t = fields[sort_desc[0].offset as int].data_type;
            let r = sort_rows_of(fields, sort_desc);
            &&& r is SimpleNumber <==> t is Number
            &&& t matches TypeView::Number(n) ==> r == SortRows::SimpleNumber(n)
            &&& r == SortRows::SimpleDate <==> t == TypeView::Date
            &&& r == SortRows::SimpleTimestamp <==> t == TypeView::Timestamp
            &&& r == SortRows::SimpleString <==> t == TypeView::String
            &&& r == SortRows::Common <==> !(t is Number || t is Date || t is Timestamp || t is String)
        }),
{
}

/// Slices stand for the rows of their blocks one after the other: those of the first slices come
/// first, and a slice of `n` rows stands for `n` rows that follow each other.
pub proof fn slices_stand_for_rows_in_turn(
    first: Seq<(usize, usize, usize)>,
    then: Seq<(usize, usize, usize)>,
    block: usize,
    row: usize,
    n: usize,
    k: int,
)
    requires
        0 <= k < n,
    ensures
        expanded(first + then) == expanded(first) + expanded(then),
        expanded(seq![(block, row, n)]).len() == n,
        expanded(seq![(block, row, n)])[k] == (block as int, row + k),
    decreases then.len(),
{
    let one = seq![(block, row, n)];
    assert(one.drop_last() =~= Seq::<(usize, usize, usize)>::empty());
    assert(expanded(one.drop_last()).len() == 0);
    if then.len() > 0 {
        slices_stand_for_rows_in_turn(first, then.drop_last(), block, row, n, k);
        assert((first + then).drop_last() =~= first + then.drop_last());
        assert((first + then).last() == then.last());
        let last = then.last();
        assert(expanded(first + then) =~= expanded(first) + expanded(then));
    } else {
        assert(first + then =~= first);
        assert(expanded(first + then) =~= expanded(first) + expanded(then));
    }
}

/// A block goes into a merge with all its columns and rows. Where an order column is wanted, the
/// rows of the columns that it is sorted by are added behind them.
pub proof fn columns_are_kept_for_the_merge<R: Rows, Converter: RowConverter<R>>(
    plan: MergePlan<R, Converter>,
    b: BlockView,
    c: int,
)
    requires
        0 <= c < b.columns.len(),
    ensures
        ({
            let p = plan.prepared(b);
            let sorted_by = Seq::new(plan.order_by_cols.len(), |i: int| b.columns[plan.order_by_cols[i] as int]);
            &&& p.num_rows == b.num_rows
            &&& p.meta == b.meta
            &&& p.columns[c] == b.columns[c]
            &&& !plan.gen_order_col ==> p.columns.len() == b.columns.len()
            &&& plan.gen_order_col ==> p.columns.len() == b.columns.len() + 1 && p.columns.last().value
                == ValueView::Column(plan.converter.row_column(sorted_by, b.num_rows))
        }),
{
    assert(sort_entries(b, plan.order_by_cols) =~= Seq::new(
        plan.order_by_cols.len(),
        |i: int| b.columns[plan.order_by_cols[i] as int],
    ));
}

/// The rows of a single column that blocks are sorted by are the values of that column.
pub proof fn a_single_order_column_has_the_values(
    converter: SimpleRowConverter,
    columns: Seq<EntryView>,
    num_rows: nat,
    i: int,
)
    requires
        0 <= i < num_rows,
        columns.len() == 1,
    ensures
        match columns[0].value {
            ValueView::Scalar(s) => converter.row_column(columns, num_rows).rows[i] == s,
            ValueView::Column(c) => converter.row_column(columns, num_rows).rows[i] == c.rows[i],
        },
{
}

/// To add the order column to merged blocks is to merge blocks to which it has been added: it goes
/// with its rows and does not change where they come.
pub proof fn an_order_column_goes_with_its_rows<R: Rows, Converter: RowConverter<R>>(
    plan: MergePlan<R, Converter>,
    blocks: Seq<BlockView>,
)
    requires
        plan.ready_for(blocks),
    ensures
        plan.compacted(blocks) == (MergePlan { gen_order_col: false, ..plan }).compacted(
            blocks.map_values(|b: BlockView| plan.prepared(b)),
        ),
{
    let plain = MergePlan { gen_order_col: false, ..plan };
    let prepare = |b: BlockView| plan.prepared(b);
    let b = with_rows(blocks);
    let ready = b.map_values(prepare);
    lemma_prepared_with_rows(plan, blocks);
    assert(with_rows(blocks.map_values(prepare)) == ready);
    if b.len() == 1 {
        assert(ready[0] == plan.prepared(b[0]));
        assert(plain.prepared(ready[0]) == ready[0]);
    } else if b.len() >= 2 {
        let keys = b.map_values(|v: BlockView| plan.block_keys(v));
        let ready_keys = ready.map_values(|v: BlockView| plain.block_keys(v));
        assert forall|i: int| 0 <= i < b.len() implies keys[i] == #[trigger] ready_keys[i] by {
            assert(plan.sortable(b[i]));
            assert(sort_entries(ready[i], plan.order_by_cols) =~= sort_entries(b[i], plan.order_by_cols));
        }
        assert(keys =~= ready_keys);
        assert(ready.map_values(|v: BlockView| plain.prepared(v)) =~= ready);
        assert(plan.merged_blocks(b) =~= plain.merged_blocks(ready));
    } else {
        assert(plan.compacted(blocks) =~= plain.compacted(blocks.map_values(prepare)));
    }
}

proof fn lemma_prepared_with_rows<R: Rows, Converter: RowConverter<R>>(
    plan: MergePlan<R, Converter>,
    blocks: Seq<BlockView>,
)
    ensures
        with_rows(blocks.map_values(|b: BlockView| plan.prepared(b))) == with_rows(blocks).map_values(
            |b: BlockView| plan.prepared(b),
        ),
    decreases blocks.len(),
{
    reveal(Seq::filter);
    let prepare = |b: BlockView| plan.prepared(b);
    let all = blocks.map_values(prepare);
    if blocks.len() > 0 {
        lemma_prepared_with_rows(plan, blocks.drop_last());
        assert(all.drop_last() =~= blocks.drop_last().map_values(prepare));
        assert(all.last() == plan.prepared(blocks.last()));
        let before = with_rows(blocks.drop_last());
        assert(before.push(blocks.last()).map_values(prepare) =~= before.map_values(prepare).push(
            prepare(blocks.last()),
        ));
        if has_rows(blocks.last()) {
            assert(with_rows(blocks) == before.push(blocks.last()));
            assert(with_rows(all) == with_rows(all.drop_last()).push(all.last()));
        } else {
            assert(with_rows(blocks) == before);
            assert(with_rows(all) == with_rows(all.drop_last()));
        }
    } else {
        assert(with_rows(all) =~= with_rows(blocks).map_values(prepare));
    }
}

}
