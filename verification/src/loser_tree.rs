//! A tournament among sorted inputs that yields their rows in order.
//!
//! The leaves of the tree are the inputs; each inner node keeps the loser of the match between
//! the winners of its two subtrees, and position 0 keeps the overall winner.

use vstd::prelude::*;

use crate::order::Order;
use crate::rows::Rows;

verus! {

pub const MIN_LOSER_TREE_MARK: i32 = -1;

pub const MAX_LOSER_TREE_MARK: i32 = -2;

/// A place in one input.
#[derive(Debug)]
pub struct Cursor<R: Rows> {
    pub input_index: usize,
    pub row_index: usize,
    pub rows: R,
}

impl<R: Rows> Cursor<R> {
    pub fn new(input_index: usize, rows: R) -> (r: Cursor<R>)
        ensures
            r.input_index == input_index,
            r.row_index == 0,
            r.rows == rows,
    {
        Cursor { input_index, row_index: 0, rows }
    }

    pub open spec fn finished(&self) -> bool {
        self.row_index >= self.rows.keys().len()
    }

    /// Whether all rows have been passed.
    pub fn is_finished(&self) -> (r: bool)
        ensures
            r == self.finished(),
    {
        self.row_index >= self.rows.len()
    }

    /// Passes a row.
    pub fn advance(&mut self)
        requires
            !old(self).finished(),
        ensures
            *final(self) == (Cursor { row_index: (old(self).row_index + 1) as usize, ..*old(self) }),
    {
        let n: usize = self.rows.len();
        self.row_index += 1;
    }

    /// Whether the row comes after the row of another cursor; of two equal rows that of the
    /// later input does.
    pub fn gt(&self, other: &Cursor<R>) -> (r: bool)
        requires
            !self.finished(),
            !other.finished(),
        ensures
            r == key_before::<R>(
                other.rows.keys()[other.row_index as int],
                other.input_index as int,
                self.rows.keys()[self.row_index as int],
                self.input_index as int,
            ),
    {
        proof {
            R::order_laws(
                self.rows.keys()[self.row_index as int],
                other.rows.keys()[other.row_index as int],
                self.rows.keys()[self.row_index as int],
            );
        }
        match self.rows.compare_rows(self.row_index, &other.rows, other.row_index) {
            Order::Greater => true,
            Order::Less => false,
            Order::Equal => self.input_index > other.input_index,
        }
    }
}

/// Whether a row comes before another: by its key, and of two equal keys that of the earlier
/// input.
pub open spec fn key_before<R: Rows>(a: R::Key, a_input: int, b: R::Key, b_input: int) -> bool {
    R::key_order(a, b) == Order::Less || (R::key_order(a, b) == Order::Equal && a_input < b_input)
}

/// What takes part in a match: a row of an input, the mark that wins against every row, or the
/// mark that loses against every row.
pub enum Player {
    First,
    Row(int, int),
    Last,
}

/// Whether player `a` wins against player `b`.
pub open spec fn beats<R: Rows>(keys: Seq<Seq<R::Key>>, a: Player, b: Player) -> bool {
    match (a, b) {
        (Player::First, Player::First) => false,
        (Player::First, _) => true,
        (_, Player::First) => false,
        (Player::Last, _) => false,
        (_, Player::Last) => true,
        (Player::Row(i, r), Player::Row(j, s)) => key_before::<R>(keys[i][r], i, keys[j][s], j),
    }
}

pub open spec fn winner_of<R: Rows>(keys: Seq<Seq<R::Key>>, a: Player, b: Player) -> Player {
    if beats::<R>(keys, b, a) {
        b
    } else {
        a
    }
}

pub open spec fn loser_of<R: Rows>(keys: Seq<Seq<R::Key>>, a: Player, b: Player) -> Player {
    if beats::<R>(keys, b, a) {
        a
    } else {
        b
    }
}

/// The winner of the matches below a node. Nodes from `players.len()` on are the leaves.
pub open spec fn winner<R: Rows>(keys: Seq<Seq<R::Key>>, players: Seq<Player>, node: int) -> Player
    decreases 2 * players.len() - node,
    when node >= 1
{
    if node >= players.len() {
        players[node - players.len()]
    } else {
        winner_of::<R>(
            keys,
            winner::<R>(keys, players, 2 * node),
            winner::<R>(keys, players, 2 * node + 1),
        )
    }
}

/// What an entry of the tree stands for.
pub open spec fn entry_player(e: (i32, i32)) -> Player {
    if e.0 == MIN_LOSER_TREE_MARK {
        Player::First
    } else if e.0 == MAX_LOSER_TREE_MARK {
        Player::Last
    } else {
        Player::Row(e.0 as int, e.1 as int)
    }
}

/// The loser that a node keeps.
pub open spec fn node_loser<R: Rows>(keys: Seq<Seq<R::Key>>, players: Seq<Player>, node: int) -> Player {
    loser_of::<R>(
        keys,
        winner::<R>(keys, players, 2 * node),
        winner::<R>(keys, players, 2 * node + 1),
    )
}

/// The tree records the matches among the players.
pub open spec fn tree_ok<R: Rows>(keys: Seq<Seq<R::Key>>, tree: Seq<(i32, i32)>, players: Seq<Player>) -> bool {
    &&& tree.len() == players.len()
    &&& entry_player(tree[0]) == winner::<R>(keys, players, 1)
    &&& forall|n: int|
        1 <= n < players.len() ==> entry_player(#[trigger] tree[n]) == node_loser::<R>(keys, players, n)
}

/// The row that a cursor stands at, or the last mark where it is finished.
pub open spec fn cursor_player<R: Rows>(c: Cursor<R>) -> Player {
    if c.finished() {
        Player::Last
    } else {
        Player::Row(c.input_index as int, c.row_index as int)
    }
}

pub open spec fn leaf_keys<R: Rows>(leaves: Seq<Cursor<R>>) -> Seq<Seq<R::Key>> {
    leaves.map_values(|c: Cursor<R>| c.rows.keys())
}

/// Leaf `i` is a cursor of input `i`, and its rows can be counted in the tree.
pub open spec fn leaves_ok<R: Rows>(leaves: Seq<Cursor<R>>) -> bool {
    &&& leaves.len() <= i32::MAX
    &&& forall|i: int|
        #![trigger leaves[i]]
        0 <= i < leaves.len() ==> leaves[i].input_index == i && leaves[i].rows.keys().len() <= i32::MAX
            && leaves[i].row_index <= leaves[i].rows.keys().len()
}

/// Each player is a mark or a row of its own input.
pub open spec fn players_ok<R: Rows>(keys: Seq<Seq<R::Key>>, players: Seq<Player>) -> bool {
    &&& players.len() == keys.len()
    &&& forall|i: int|
        0 <= i < players.len() ==> ((#[trigger] players[i]) matches Player::Row(j, r) ==> j == i && 0 <= r < keys[i].len())
}

/// A node lies on the way from node `c` to the root.
pub open spec fn on_path(n: int, c: int) -> bool
    decreases c,
{
    c >= 1 && (n == c || on_path(n, c / 2))
}

/// Among players of an order, to be beaten by nothing that is beaten is to win.
proof fn lemma_beats_transitive<R: Rows>(keys: Seq<Seq<R::Key>>, a: Player, b: Player, c: Player)
    ensures
        !beats::<R>(keys, b, a) && !beats::<R>(keys, c, b) ==> !beats::<R>(keys, c, a),
        !(beats::<R>(keys, a, b) && beats::<R>(keys, b, a)),
{
    if let Player::Row(i, r) = a {
        if let Player::Row(j, s) = b {
            R::order_laws(keys[i][r], keys[j][s], keys[i][r]);
            if let Player::Row(k, t) = c {
                R::order_laws(keys[i][r], keys[j][s], keys[k][t]);
                R::order_laws(keys[k][t], keys[j][s], keys[i][r]);
                R::order_laws(keys[i][r], keys[k][t], keys[j][s]);
                R::order_laws(keys[j][s], keys[i][r], keys[k][t]);
                R::order_laws(keys[j][s], keys[k][t], keys[i][r]);
                R::order_laws(keys[k][t], keys[i][r], keys[j][s]);
            }
        }
    }
}

/// Two players of which neither wins are the same player.
proof fn lemma_tie_same<R: Rows>(keys: Seq<Seq<R::Key>>, a: Player, b: Player)
    requires
        !beats::<R>(keys, a, b),
        !beats::<R>(keys, b, a),
        a matches Player::Row(i, r) ==> (b matches Player::Row(j, s) ==> (i == j ==> r == s)),
    ensures
        a == b,
{
    if let Player::Row(i, r) = a {
        if let Player::Row(j, s) = b {
            R::order_laws(keys[i][r], keys[j][s], keys[i][r]);
        }
    }
}

/// The winner below a node is one of the players.
proof fn lemma_winner_plays<R: Rows>(keys: Seq<Seq<R::Key>>, players: Seq<Player>, node: int)
    requires
        1 <= node < 2 * players.len(),
    ensures
        players.contains(winner::<R>(keys, players, node)),
    decreases 2 * players.len() - node,
{
    if node >= players.len() {
        assert(players[node - players.len()] == winner::<R>(keys, players, node));
    } else {
        lemma_winner_plays::<R>(keys, players, 2 * node);
        lemma_winner_plays::<R>(keys, players, 2 * node + 1);
    }
}

/// No player whose way to the root passes a node beats the winner there.
proof fn lemma_winner_unbeaten<R: Rows>(keys: Seq<Seq<R::Key>>, players: Seq<Player>, c: int, node: int)
    requires
        1 <= c < 2 * players.len(),
        on_path(node, c),
    ensures
        !beats::<R>(keys, winner::<R>(keys, players, c), winner::<R>(keys, players, node)),
        1 <= node <= c,
    decreases c,
{
    lemma_path_bounds(node, c);
    if node == c {
        lemma_beats_transitive::<R>(
            keys,
            winner::<R>(keys, players, c),
            winner::<R>(keys, players, c),
            winner::<R>(keys, players, c),
        );
    } else {
        let f = c / 2;
        assert(on_path(node, f));
        lemma_path_bounds(node, f);
        assert(f < players.len());
        lemma_winner_unbeaten::<R>(keys, players, f, node);
        let wc = winner::<R>(keys, players, c);
        let wf = winner::<R>(keys, players, f);
        let w0 = winner::<R>(keys, players, 2 * f);
        let w1 = winner::<R>(keys, players, 2 * f + 1);
        assert(wf == winner_of::<R>(keys, w0, w1));
        assert(c == 2 * f || c == 2 * f + 1);
        lemma_beats_transitive::<R>(keys, w0, w1, w0);
        lemma_beats_transitive::<R>(keys, wc, wc, wc);
        assert(!beats::<R>(keys, wc, wf));
        lemma_beats_transitive::<R>(keys, winner::<R>(keys, players, node), wf, wc);
    }
}

/// What lies on a way to the root lies between it and where the way begins.
pub proof fn lemma_path_bounds(n: int, c: int)
    requires
        on_path(n, c),
    ensures
        1 <= n <= c,
    decreases c,
{
    if n != c {
        lemma_path_bounds(n, c / 2);
    }
}

/// Every leaf has a way to the root.
pub proof fn lemma_path_to_root(c: int)
    requires
        c >= 1,
    ensures
        on_path(1, c),
    decreases c,
{
    if c > 1 {
        lemma_path_to_root(c / 2);
    }
}

/// A player that wins the whole tournament wins at every node on its way.
proof fn lemma_champion_wins_on_path<R: Rows>(keys: Seq<Seq<R::Key>>, players: Seq<Player>, index: int, node: int)
    requires
        players_ok::<R>(keys, players),
        0 <= index < players.len(),
        players[index] == winner::<R>(keys, players, 1),
        on_path(node, index + players.len()),
    ensures
        winner::<R>(keys, players, node) == players[index],
{
    let leaf = index + players.len();
    lemma_path_bounds(node, leaf);
    assert(winner::<R>(keys, players, leaf) == players[index]);
    lemma_winner_unbeaten::<R>(keys, players, leaf, node);
    lemma_path_to_root(node);
    lemma_winner_unbeaten::<R>(keys, players, node, 1);
    let w = winner::<R>(keys, players, node);
    lemma_winner_plays::<R>(keys, players, node);
    let k = choose|k: int| 0 <= k < players.len() && players[k] == w;
    assert(players[k] == w);
    lemma_tie_same::<R>(keys, w, players[index]);
}

/// Where no leaf below a node has changed, neither has the winner there.
proof fn lemma_winner_elsewhere<R: Rows>(
    keys: Seq<Seq<R::Key>>,
    players: Seq<Player>,
    index: int,
    p: Player,
    node: int,
)
    requires
        0 <= index < players.len(),
        1 <= node < 2 * players.len(),
        !on_path(node, index + players.len()),
    ensures
        winner::<R>(keys, players.update(index, p), node) == winner::<R>(keys, players, node),
    decreases 2 * players.len() - node,
{
    let leaf = index + players.len();
    if node >= players.len() {
        assert(node != leaf);
    } else {
        lemma_not_on_path_below(node, leaf);
        lemma_winner_elsewhere::<R>(keys, players, index, p, 2 * node);
        lemma_winner_elsewhere::<R>(keys, players, index, p, 2 * node + 1);
    }
}

proof fn lemma_not_on_path_below(n: int, c: int)
    requires
        n >= 1,
        !on_path(n, c),
    ensures
        !on_path(2 * n, c),
        !on_path(2 * n + 1, c),
    decreases c,
{
    if c >= 1 {
        if c == 2 * n || c == 2 * n + 1 {
            assert(on_path(n, c / 2));
        } else {
            lemma_not_on_path_below(n, c / 2);
        }
    }
}

/// What is above a node on a path is on it.
pub proof fn lemma_path_step(n: int, c: int)
    requires
        on_path(n, c),
        n >= 2,
    ensures
        on_path(n / 2, c),
    decreases c,
{
    if n != c {
        lemma_path_step(n, c / 2);
    } else {
        assert(on_path(n / 2, c / 2));
    }
}

/// Of two siblings at most one is on a path.
pub proof fn lemma_siblings_apart(a: int, b: int, c: int)
    requires
        on_path(a, c),
        on_path(b, c),
        a / 2 == b / 2,
        a >= 2,
        b >= 2,
    ensures
        a == b,
    decreases c,
{
    lemma_path_bounds(a, c);
    lemma_path_bounds(b, c);
    if a == c {
        if b != c {
            lemma_path_bounds(b, c / 2);
            assert(b <= c / 2 == a / 2 == b / 2);
        }
    } else if b == c {
        lemma_path_bounds(a, c / 2);
        assert(a <= c / 2 == b / 2 == a / 2);
    } else {
        lemma_siblings_apart(a, b, c / 2);
    }
}

/// Above a node whose winner has not changed nothing changes.
proof fn lemma_unchanged_above<R: Rows>(
    keys: Seq<Seq<R::Key>>,
    players: Seq<Player>,
    index: int,
    p: Player,
    c: int,
    node: int,
)
    requires
        0 <= index < players.len(),
        on_path(c, index + players.len()),
        on_path(node, c),
        winner::<R>(keys, players.update(index, p), c) == winner::<R>(keys, players, c),
    ensures
        winner::<R>(keys, players.update(index, p), node) == winner::<R>(keys, players, node),
    decreases c,
{
    let leaf = index + players.len();
    lemma_path_bounds(c, leaf);
    lemma_path_bounds(node, c);
    if node != c {
        let f = c / 2;
        lemma_path_bounds(node, f);
        lemma_path_step(c, leaf);
        let s = if c == 2 * f {
            c + 1
        } else {
            c - 1
        };
        if on_path(s, leaf) {
            lemma_siblings_apart(c, s, leaf);
        }
        lemma_winner_elsewhere::<R>(keys, players, index, p, s);
        assert(f < players.len());
        assert(winner::<R>(keys, players.update(index, p), f) == winner::<R>(keys, players, f));
        lemma_unchanged_above::<R>(keys, players, index, p, f, node);
    }
}

proof fn lemma_path_linear(n: int, c: int, leaf: int)
    requires
        on_path(n, leaf),
        on_path(c, leaf),
        n < c,
    ensures
        on_path(n, c),
    decreases leaf,
{
    lemma_path_bounds(c, leaf);
    if leaf != c {
        lemma_path_linear(n, c, leaf / 2);
    }
}

proof fn lemma_path_child(n: int, c: int)
    requires
        on_path(n, c),
        n < c,
    ensures
        on_path(2 * n, c) || on_path(2 * n + 1, c),
    decreases c,
{
    if c / 2 == n {
        assert(c == 2 * n || c == 2 * n + 1);
    } else {
        lemma_path_bounds(n, c / 2);
        lemma_path_child(n, c / 2);
    }
}

/// Where the winner below a node on the path of the changed leaf is the first mark, the change
/// shows nowhere from there to the root.
proof fn lemma_first_mark_stays<R: Rows>(
    keys: Seq<Seq<R::Key>>,
    players: Seq<Player>,
    index: int,
    p: Player,
    c: int,
)
    requires
        players_ok::<R>(keys, players),
        0 <= index < players.len(),
        !(p is First),
        on_path(c, index + players.len()),
        players[index] == winner::<R>(keys, players, 1),
        winner::<R>(keys, players.update(index, p), c) is First,
    ensures
        winner::<R>(keys, players.update(index, p), 1) is First,
        forall|n: int|
            1 <= n < players.len() && n < c && on_path(n, index + players.len()) ==> #[trigger] node_loser::<R>(
                keys,
                players,
                n,
            ) == node_loser::<R>(keys, players.update(index, p), n),
{
    let now = players.update(index, p);
    let leaf = index + players.len();
    lemma_path_bounds(c, leaf);
    lemma_winner_plays::<R>(keys, now, c);
    let k = choose|k: int| 0 <= k < now.len() && now[k] is First;
    assert(now.contains(Player::First));
    assert(k != index);
    let other_leaf = k + players.len();
    lemma_path_to_root(other_leaf);
    lemma_winner_unbeaten::<R>(keys, players, other_leaf, 1);
    assert(winner::<R>(keys, players, other_leaf) == players[k]);
    assert(winner::<R>(keys, players, 1) is First);
    lemma_champion_wins_on_path::<R>(keys, players, index, c);
    lemma_path_to_root(c);
    lemma_unchanged_above::<R>(keys, players, index, p, c, 1);
    assert forall|n: int| 1 <= n < players.len() && n < c && on_path(n, leaf) implies #[trigger] node_loser::<R>(
        keys,
        players,
        n,
    ) == node_loser::<R>(keys, now, n) by {
        lemma_path_linear(n, c, leaf);
        lemma_path_child(n, c);
        let q = if on_path(2 * n, c) {
            2 * n
        } else {
            2 * n + 1
        };
        let s = if on_path(2 * n, c) {
            2 * n + 1
        } else {
            2 * n
        };
        lemma_unchanged_above::<R>(keys, players, index, p, c, q);
        lemma_path_trans(q, c, leaf);
        if on_path(s, leaf) {
            lemma_siblings_apart(q, s, leaf);
        }
        lemma_winner_elsewhere::<R>(keys, players, index, p, s);
    }
}

proof fn lemma_path_trans(n: int, c: int, leaf: int)
    requires
        on_path(n, c),
        on_path(c, leaf),
    ensures
        on_path(n, leaf),
    decreases leaf,
{
    if c != leaf {
        lemma_path_trans(n, c, leaf / 2);
    }
}

/// A row that plays is the row that the cursor of its input stands at.
proof fn lemma_playing_row<R: Rows>(leaves: Seq<Cursor<R>>, players: Seq<Player>, i: int, r: int)
    requires
        players.len() == leaves.len(),
        leaves_ok(leaves),
        players.contains(Player::Row(i, r)),
        forall|k: int|
            0 <= k < players.len() ==> (#[trigger] players[k]) is First || players[k] == cursor_player(leaves[k]),
    ensures
        0 <= i < leaves.len(),
        !leaves[i].finished(),
        leaves[i].row_index == r,
        leaves[i].input_index == i,
{
    let k = choose|k: int| 0 <= k < players.len() && players[k] == Player::Row(i, r);
    assert(players[k] == Player::Row(i, r));
    assert(leaves[k].input_index == k);
}

/// Replays the matches of leaf `index`, which was the winner, after its cursor has moved.
pub(crate) fn adjust<R: Rows>(
    loser_tree: &mut Vec<(i32, i32)>,
    leaves: &Vec<Cursor<R>>,
    index: usize,
    len: usize,
    Ghost(players): Ghost<Seq<Player>>,
)
    requires
        len == leaves@.len(),
        index < len,
        leaves_ok(leaves@),
        players_ok::<R>(leaf_keys(leaves@), players),
        tree_ok::<R>(leaf_keys(leaves@), old(loser_tree)@, players),
        players[index as int] == winner::<R>(leaf_keys(leaves@), players, 1),
        forall|i: int|
            0 <= i < len && i != index ==> (#[trigger] players[i]) is First || players[i] == cursor_player(leaves@[i]),
    ensures
        tree_ok::<R>(
            leaf_keys(leaves@),
            final(loser_tree)@,
            players.update(index as int, cursor_player(leaves@[index as int])),
        ),
{
    let ghost keys = leaf_keys(leaves@);
    let ghost leaf = index + len;
    let ghost tree0 = loser_tree@;
    let ghost p = cursor_player(leaves@[index as int]);
    let ghost now = players.update(index as int, p);
    let ghost mut c: int = leaf;
    let mut father: usize = (index + len) / 2;
    let mut cursor_index: (i32, i32) = if leaves[index].is_finished() {
        (MAX_LOSER_TREE_MARK, MAX_LOSER_TREE_MARK)
    } else {
        (index as i32, leaves[index].row_index as i32)
    };
    proof {
        assert(leaves@[index as int].input_index == index);
        assert(winner::<R>(keys, now, leaf) == p);
        assert forall|n: int| 1 <= n < len implies (if on_path(n, leaf) && n < leaf {
            entry_player(#[trigger] loser_tree@[n]) == node_loser::<R>(keys, players, n)
        } else {
            entry_player(loser_tree@[n]) == node_loser::<R>(keys, now, n)
        }) by {
            if !on_path(n, leaf) {
                lemma_not_on_path_below(n, leaf);
                lemma_winner_elsewhere::<R>(keys, players, index as int, p, 2 * n);
                lemma_winner_elsewhere::<R>(keys, players, index as int, p, 2 * n + 1);
            }
        }
    }
    while father > 0
        invariant_except_break
            father == c / 2,
            c >= 1,
            on_path(c, leaf),
            entry_player(cursor_index) == winner::<R>(keys, now, c),
            forall|n: int|
                1 <= n < len ==> if on_path(n, leaf) && n < c {
                    entry_player(#[trigger] loser_tree@[n]) == node_loser::<R>(keys, players, n)
                } else {
                    entry_player(loser_tree@[n]) == node_loser::<R>(keys, now, n)
                },
        invariant
            len == leaves@.len(),
            index < len,
            leaf == index + len,
            keys == leaf_keys(leaves@),
            leaves_ok(leaves@),
            players_ok::<R>(keys, players),
            players[index as int] == winner::<R>(keys, players, 1),
            p == cursor_player(leaves@[index as int]),
            now == players.update(index as int, p),
            forall|i: int|
                0 <= i < len && i != index ==> (#[trigger] players[i]) is First || players[i] == cursor_player(leaves@[i]),
            loser_tree@.len() == len,
        ensures
            entry_player(cursor_index) == winner::<R>(keys, now, 1),
            forall|n: int| 1 <= n < len ==> entry_player(#[trigger] loser_tree@[n]) == node_loser::<R>(keys, now, n),
        decreases father,
    {
        let ghost s = if c == 2 * father {
            c + 1
        } else {
            c - 1
        };
        proof {
            lemma_path_bounds(c, leaf);
            lemma_path_step(c, leaf);
            if on_path(s, leaf) {
                lemma_siblings_apart(c, s, leaf);
            }
            lemma_winner_elsewhere::<R>(keys, players, index as int, p, s);
            lemma_champion_wins_on_path::<R>(keys, players, index as int, c);
            lemma_champion_wins_on_path::<R>(keys, players, index as int, father as int);
            // The loser at the father was the winner of the sibling.
            let ws = winner::<R>(keys, players, s);
            let wc = winner::<R>(keys, players, c);
            lemma_beats_transitive::<R>(keys, wc, ws, wc);
            assert(entry_player(loser_tree@[father as int]) == node_loser::<R>(keys, players, father as int));
            lemma_winner_plays::<R>(keys, players, s);
            let k = choose|k: int| 0 <= k < players.len() && players[k] == ws;
            assert(players.contains(ws));
            assert(players[k] == ws);
            if !beats::<R>(keys, wc, ws) && !beats::<R>(keys, ws, wc) {
                lemma_tie_same::<R>(keys, wc, ws);
            }
            assert(entry_player(loser_tree@[father as int]) == winner::<R>(keys, now, s));
            assert(winner::<R>(keys, now, father as int) == winner_of::<R>(
                keys,
                winner::<R>(keys, now, 2 * father),
                winner::<R>(keys, now, 2 * father + 1),
            ));
            lemma_winner_plays::<R>(keys, now, s);
            lemma_winner_plays::<R>(keys, now, c);
            lemma_beats_transitive::<R>(keys, winner::<R>(keys, now, c), winner::<R>(keys, now, s), winner::<R>(keys, now, c));
        }
        let other = loser_tree[father];
        if other.0 == MAX_LOSER_TREE_MARK {
        } else if cursor_index.0 == MIN_LOSER_TREE_MARK {
            proof {
                lemma_first_mark_stays::<R>(keys, players, index as int, p, c);
            }
            break;
        } else if cursor_index.0 == MAX_LOSER_TREE_MARK && other.0 == MIN_LOSER_TREE_MARK {
            loser_tree[father] = (MAX_LOSER_TREE_MARK, MAX_LOSER_TREE_MARK);
            cursor_index = (MIN_LOSER_TREE_MARK, MIN_LOSER_TREE_MARK);
        } else if cursor_index.0 == MAX_LOSER_TREE_MARK {
            cursor_index = other;
            loser_tree[father] = (MAX_LOSER_TREE_MARK, MAX_LOSER_TREE_MARK);
        } else if other.0 == MIN_LOSER_TREE_MARK {
            loser_tree[father] = cursor_index;
            cursor_index = (MIN_LOSER_TREE_MARK, MIN_LOSER_TREE_MARK);
        } else {
            proof {
                lemma_playing_row::<R>(leaves@, now, cursor_index.0 as int, cursor_index.1 as int);
                lemma_playing_row::<R>(leaves@, now, other.0 as int, other.1 as int);
                let a = winner::<R>(keys, now, c);
                let b = winner::<R>(keys, now, s);
                assert(keys[cursor_index.0 as int] == leaves@[cursor_index.0 as int].rows.keys());
                assert(keys[other.0 as int] == leaves@[other.0 as int].rows.keys());
                if !beats::<R>(keys, a, b) && !beats::<R>(keys, b, a) {
                    lemma_tie_same::<R>(keys, a, b);
                }
            }
            if leaves[cursor_index.0 as usize].gt(&leaves[other.0 as usize]) {
                loser_tree[father] = cursor_index;
                cursor_index = other;
            }
        }
        proof {
            let f = father as int;
            assert forall|n: int| f < n < c implies !on_path(n, leaf) by {
                if on_path(n, leaf) {
                    lemma_path_linear(n, c, leaf);
                    lemma_path_bounds(n, c / 2);
                }
            }
            assert(entry_player(loser_tree@[f]) == node_loser::<R>(keys, now, f));
            c = f;
        }
        father /= 2;
    }
    loser_tree[0] = cursor_index;
}

/// A tree that holds only first marks records a tournament of first marks.
pub proof fn lemma_all_first<R: Rows>(keys: Seq<Seq<R::Key>>, tree: Seq<(i32, i32)>, players: Seq<Player>)
    requires
        players.len() >= 1,
        tree.len() == players.len(),
        forall|i: int| 0 <= i < players.len() ==> (#[trigger] players[i]) is First,
        forall|n: int| 0 <= n < tree.len() ==> #[trigger] tree[n] == (MIN_LOSER_TREE_MARK, MIN_LOSER_TREE_MARK),
    ensures
        tree_ok::<R>(keys, tree, players),
{
    lemma_first_wins::<R>(keys, players, 1);
    assert forall|n: int| 1 <= n < players.len() implies entry_player(#[trigger] tree[n]) == node_loser::<R>(
        keys,
        players,
        n,
    ) by {
        lemma_first_wins::<R>(keys, players, 2 * n);
        lemma_first_wins::<R>(keys, players, 2 * n + 1);
    }
}

proof fn lemma_first_wins<R: Rows>(keys: Seq<Seq<R::Key>>, players: Seq<Player>, node: int)
    requires
        1 <= node < 2 * players.len(),
        forall|i: int| 0 <= i < players.len() ==> (#[trigger] players[i]) is First,
    ensures
        winner::<R>(keys, players, node) is First,
{
    lemma_winner_plays::<R>(keys, players, node);
    let k = choose|k: int| 0 <= k < players.len() && players[k] == winner::<R>(keys, players, node);
    assert(players[k] is First);
}

/// No player beats the winner of the tournament.
pub proof fn lemma_nobody_beats_champion<R: Rows>(keys: Seq<Seq<R::Key>>, players: Seq<Player>, i: int)
    requires
        0 <= i < players.len(),
    ensures
        !beats::<R>(keys, players[i], winner::<R>(keys, players, 1)),
{
    let leaf = i + players.len();
    lemma_path_to_root(leaf);
    lemma_winner_unbeaten::<R>(keys, players, leaf, 1);
    assert(winner::<R>(keys, players, leaf) == players[i]);
}

/// The winner of the tournament is one of the players.
pub proof fn lemma_winner_is_player<R: Rows>(keys: Seq<Seq<R::Key>>, players: Seq<Player>)
    requires
        players.len() >= 1,
    ensures
        exists|k: int| 0 <= k < players.len() && players[k] == winner::<R>(keys, players, 1),
{
    lemma_winner_plays::<R>(keys, players, 1);
}

/// A player that is the first mark is the winner.
pub proof fn lemma_champion<R: Rows>(keys: Seq<Seq<R::Key>>, players: Seq<Player>, i: int)
    requires
        0 <= i < players.len(),
        players[i] is First,
    ensures
        players[i] == winner::<R>(keys, players, 1),
{
    lemma_nobody_beats_champion::<R>(keys, players, i);
}

/// Of two rows that with the smaller key comes before, and of two with the same key that of the
/// earlier input; so of two rows of different inputs exactly one comes before the other.
pub proof fn of_two_rows_one_comes_before<R: Rows>(a: R::Key, a_input: int, b: R::Key, b_input: int)
    requires
        a_input != b_input,
    ensures
        R::key_order(a, b) == Order::Less ==> key_before::<R>(a, a_input, b, b_input),
        R::key_order(a, b) == Order::Greater ==> key_before::<R>(b, b_input, a, a_input),
        R::key_order(a, b) == Order::Equal ==> (key_before::<R>(a, a_input, b, b_input) <==> a_input < b_input),
        key_before::<R>(a, a_input, b, b_input) <==> !key_before::<R>(b, b_input, a, a_input),
{
    R::order_laws(a, b, a);
}

/// The winner of all matches is one of the players, and no row that plays has a smaller key than
/// the row that won; of rows with the same key that of the earliest input has won. A mark that
/// wins against every row wins, and one that loses against every row only where no row plays.
pub proof fn the_winner_has_the_least_row<R: Rows>(keys: Seq<Seq<R::Key>>, players: Seq<Player>, i: int)
    requires
        0 <= i < players.len(),
    ensures
        ({
            let won = winner::<R>(keys, players, 1);
            &&& players.contains(won)
            &&& players[i] is First ==> won is First
            &&& players[i] is Row ==> !(won is Last)
            &&& match (won, players[i]) {
                (Player::Row(a, x), Player::Row(b, y)) => {
                    &&& R::key_order(keys[a][x], keys[b][y]) != Order::Greater
                    &&& R::key_order(keys[a][x], keys[b][y]) == Order::Equal ==> a <= b
                },
                _ => true,
            }
        }),
{
    let won = winner::<R>(keys, players, 1);
    lemma_nobody_beats_champion::<R>(keys, players, i);
    lemma_winner_plays::<R>(keys, players, 1);
    match (won, players[i]) {
        (Player::Row(a, x), Player::Row(b, y)) => {
            R::order_laws(keys[a][x], keys[b][y], keys[a][x]);
        },
        _ => {},
    }
}

/// A cursor is finished where no row is left behind it.
pub proof fn a_cursor_is_finished_behind_the_last_row<R: Rows>(c: Cursor<R>)
    ensures
        c.finished() <==> !(c.row_index < c.rows.keys().len()),
{
}

}
