//! Groups of cursors that hand out the one whose row comes first.

use vstd::multiset::Multiset;
use vstd::prelude::*;

use crate::loser_tree::key_before;
use crate::loser_tree::lemma_path_bounds;
use crate::loser_tree::lemma_path_step;
use crate::loser_tree::lemma_path_to_root;
use crate::loser_tree::lemma_siblings_apart;
use crate::loser_tree::on_path;
use crate::loser_tree::Cursor;
use crate::order::Order;
use crate::rows::Rows;

verus! {

/// Whether the row of cursor `a` comes before the row of cursor `b`.
pub open spec fn cursor_before<R: Rows>(a: Cursor<R>, b: Cursor<R>) -> bool {
    key_before::<R>(
        a.rows.keys()[a.row_index as int],
        a.input_index as int,
        b.rows.keys()[b.row_index as int],
        b.input_index as int,
    )
}

/// A cursor of the group before which no other comes.
pub open spec fn is_least<R: Rows>(group: Multiset<Cursor<R>>, c: Cursor<R>) -> bool {
    group.contains(c) && forall|d: Cursor<R>| #[trigger] group.contains(d) ==> !cursor_before(d, c)
}

/// A group of cursors that stand before a row.
pub trait SortdGroup: Sized {
    type Rows: Rows;

    spec fn group(&self) -> Multiset<Cursor<Self::Rows>>;

    /// The cursor that comes first.
    spec fn top(&self) -> Cursor<Self::Rows>;

    spec fn valid(&self) -> bool;

    /// Whether a cursor can be put at place `index`.
    spec fn is_free(&self, index: int) -> bool;

    fn with_capacity(capacity: usize) -> (r: Self)
        ensures
            r.valid(),
            r.group() == Multiset::<Cursor<Self::Rows>>::empty(),
            forall|i: int| 0 <= i < capacity ==> #[trigger] r.is_free(i),
    ;

    fn len(&self) -> (r: usize)
        requires
            self.valid(),
        ensures
            r == self.group().len(),
    ;

    fn is_empty(&self) -> (r: bool)
        requires
            self.valid(),
        ensures
            r == (self.group().len() == 0),
    ;

    fn push(&mut self, index: usize, item: Cursor<Self::Rows>)
        requires
            old(self).valid(),
            old(self).is_free(index as int),
            !item.finished(),
        ensures
            final(self).valid(),
            final(self).group() == old(self).group().insert(item),
            forall|i: int| i != index && old(self).is_free(i) ==> #[trigger] final(self).is_free(i),
    ;

    /// Drops the cursor that comes first; a group without cursors stays as it is.
    fn pop(&mut self)
        requires
            old(self).valid(),
        ensures
            final(self).valid(),
            old(self).group().len() == 0 ==> *final(self) == *old(self),
            old(self).group().len() > 0 ==> {
                &&& is_least(old(self).group(), old(self).top())
                &&& final(self).group() == old(self).group().remove(old(self).top())
            },
            forall|i: int| old(self).is_free(i) ==> #[trigger] final(self).is_free(i),
    ;

    /// Puts a cursor in place of the one that comes first.
    fn update_top(&mut self, item: Cursor<Self::Rows>)
        requires
            old(self).valid(),
            old(self).group().len() > 0,
            !item.finished(),
        ensures
            final(self).valid(),
            is_least(old(self).group(), old(self).top()),
            final(self).group() == old(self).group().remove(old(self).top()).insert(item),
            forall|i: int| old(self).is_free(i) ==> #[trigger] final(self).is_free(i),
    ;

    /// The cursor that comes first.
    fn peek(&self) -> (r: Option<&Cursor<Self::Rows>>)
        requires
            self.valid(),
        ensures
            r is None <==> self.group().len() == 0,
            r matches Some(c) ==> *c == self.top() && is_least(self.group(), *c),
    ;

    /// The cursor that comes first but for one.
    fn peek_top2(&self) -> (r: &Cursor<Self::Rows>)
        requires
            self.valid(),
            self.group().len() >= 2,
        ensures
            is_least(self.group(), self.top()),
            is_least(self.group().remove(self.top()), *r),
    ;
}

/// Cursors in order, the one that comes first at the end.
pub struct BinaryHeapSort<R: Rows> {
    items: Vec<Cursor<R>>,
}

/// No cursor comes before one that stands after it.
spec fn descending<R: Rows>(items: Seq<Cursor<R>>) -> bool {
    forall|i: int, j: int| #![trigger items[i], items[j]] 0 <= i < j < items.len() ==> !cursor_before(items[i], items[j])
}

spec fn all_unfinished<R: Rows>(items: Seq<Cursor<R>>) -> bool {
    forall|i: int| 0 <= i < items.len() ==> !(#[trigger] items[i]).finished()
}

proof fn lemma_before_transitive<R: Rows>(a: Cursor<R>, b: Cursor<R>, c: Cursor<R>)
    ensures
        !cursor_before(b, a) && !cursor_before(c, b) ==> !cursor_before(c, a),
        !cursor_before(a, a),
        !(cursor_before(a, b) && cursor_before(b, a)),
{
    let ka = a.rows.keys()[a.row_index as int];
    let kb = b.rows.keys()[b.row_index as int];
    let kc = c.rows.keys()[c.row_index as int];
    R::order_laws(ka, kb, kc);
    R::order_laws(kc, kb, ka);
    R::order_laws(kb, kc, ka);
    R::order_laws(ka, kc, kb);
    R::order_laws(kb, ka, kc);
    R::order_laws(kc, ka, kb);
}

proof fn lemma_last_is_least<R: Rows>(items: Seq<Cursor<R>>)
    requires
        items.len() > 0,
        descending(items),
    ensures
        is_least(items.to_multiset(), items.last()),
        items.drop_last().to_multiset() == items.to_multiset().remove(items.last()),
        descending(items.drop_last()),
{
    items.to_multiset_ensures();
    assert(items.contains(items.last()));
    assert forall|d: Cursor<R>| #[trigger] items.to_multiset().contains(d) implies !cursor_before(d, items.last()) by {
        let i = choose|i: int| 0 <= i < items.len() && items[i] == d;
        assert(items.contains(d));
        if i == items.len() - 1 {
            lemma_before_transitive(d, d, d);
        } else {
            assert(!cursor_before(items[i], items[items.len() - 1]));
        }
    }
    let n = items.len() - 1;
    assert(items.remove(n) =~= items.drop_last());
}

proof fn lemma_insert_multiset<A>(s: Seq<A>, at: int, x: A)
    requires
        0 <= at <= s.len(),
    ensures
        s.insert(at, x).to_multiset() == s.to_multiset().insert(x),
{
    s.insert(at, x).to_multiset_ensures();
    assert(s.insert(at, x).remove(at) =~= s);
    assert(s.insert(at, x)[at] == x);
    assert(s.insert(at, x).to_multiset().remove(x).insert(x) =~= s.insert(at, x).to_multiset()) by {
        assert(s.insert(at, x).contains(x));
    }
}

impl<R: Rows> SortdGroup for BinaryHeapSort<R> {
    type Rows = R;

    closed spec fn group(&self) -> Multiset<Cursor<R>> {
        self.items@.to_multiset()
    }

    closed spec fn top(&self) -> Cursor<R> {
        self.items@.last()
    }

    closed spec fn valid(&self) -> bool {
        descending(self.items@) && all_unfinished(self.items@)
    }

    open spec fn is_free(&self, index: int) -> bool {
        true
    }

    fn with_capacity(capacity: usize) -> BinaryHeapSort<R> {
        let r = BinaryHeapSort { items: Vec::with_capacity(capacity) };
        proof {
            r.items@.to_multiset_ensures();
            assert(r.group() =~= Multiset::<Cursor<R>>::empty());
        }
        r
    }

    fn len(&self) -> usize {
        proof {
            self.items@.to_multiset_ensures();
        }
        self.items.len()
    }

    fn is_empty(&self) -> bool {
        proof {
            self.items@.to_multiset_ensures();
        }
        self.items.len() == 0
    }

    fn push(&mut self, _index: usize, item: Cursor<R>) {
        let ghost before = self.items@;
        let mut at: usize = self.items.len();
        while at > 0 && item.gt(&self.items[at - 1])
            invariant
                at <= self.items@.len(),
                self.items@ == before,
                descending(before),
                all_unfinished(before),
                !item.finished(),
                forall|i: int| at <= i < before.len() ==> cursor_before(#[trigger] before[i], item),
            decreases at,
        {
            at -= 1;
        }
        self.items.insert(at, item);
        proof {
            let items = self.items@;
            assert(items =~= before.insert(at as int, item));
            before.to_multiset_ensures();
            lemma_insert_multiset(before, at as int, item);
            assert forall|i: int, j: int| #![trigger items[i], items[j]] 0 <= i < j < items.len() implies !cursor_before(
                items[i],
                items[j],
            ) by {
                let b = |k: int| if k < at { before[k] } else { before[k - 1] };
                if i != at && j != at {
                    assert(items[i] == b(i) && items[j] == b(j));
                } else if i == at {
                    assert(items[j] == before[j - 1]);
                    lemma_before_transitive(items[i], items[j], items[i]);
                } else {
                    // j == at: the item does not come after what stands before it.
                    if at > 0 {
                        assert(!cursor_before(before[at - 1], item));
                        if i < at - 1 {
                            assert(!cursor_before(before[i], before[at - 1]));
                            lemma_before_transitive(item, before[at - 1], before[i]);
                        }
                    }
                }
            }
        }
    }

    fn pop(&mut self) {
        proof {
            self.items@.to_multiset_ensures();
        }
        if self.items.len() == 0 {
            return;
        }
        proof {
            lemma_last_is_least(self.items@);
        }
        let _ = self.items.pop();
        proof {
            assert(self.items@ =~= old(self).items@.drop_last());
        }
    }

    fn update_top(&mut self, item: Cursor<R>) {
        self.pop();
        self.push(0, item);
    }

    fn peek(&self) -> Option<&Cursor<R>> {
        proof {
            self.items@.to_multiset_ensures();
        }
        if self.items.len() == 0 {
            None
        } else {
            proof {
                lemma_last_is_least(self.items@);
            }
            Some(&self.items[self.items.len() - 1])
        }
    }

    fn peek_top2(&self) -> &Cursor<R> {
        proof {
            self.items@.to_multiset_ensures();
            lemma_last_is_least(self.items@);
            lemma_last_is_least(self.items@.drop_last());
        }
        &self.items[self.items.len() - 2]
    }
}

/// Cursors in numbered places, with a tournament among them: each node of a tree keeps the place
/// of the cursor that comes first among the places below it.
///
/// The leaves follow the nodes: with `n` places, leaf `n + i` is place `i`, and node 1 is the root.
pub struct LoserTreeSort<R: Rows> {
    places: Vec<Option<Cursor<R>>>,
    nodes: Vec<usize>,
    length: usize,
}

/// The cursors in the places.
spec fn placed<R: Rows>(places: Seq<Option<Cursor<R>>>) -> Multiset<Cursor<R>>
    decreases places.len(),
{
    if places.len() == 0 {
        Multiset::empty()
    } else {
        match places.last() {
            Some(c) => placed(places.drop_last()).insert(c),
            None => placed(places.drop_last()),
        }
    }
}

proof fn lemma_placed_contains<R: Rows>(places: Seq<Option<Cursor<R>>>, c: Cursor<R>)
    ensures
        placed(places).contains(c) <==> exists|i: int| 0 <= i < places.len() && #[trigger] places[i] == Some(c),
    decreases places.len(),
{
    if places.len() > 0 {
        let front = places.drop_last();
        lemma_placed_contains(front, c);
        if placed(places).contains(c) {
            if places.last() == Some(c) {
                assert(places[places.len() - 1] == Some(c));
            } else {
                assert(placed(front).contains(c));
                let i = choose|i: int| 0 <= i < front.len() && #[trigger] front[i] == Some(c);
                assert(places[i] == Some(c));
            }
        }
        if exists|i: int| 0 <= i < places.len() && #[trigger] places[i] == Some(c) {
            let i = choose|i: int| 0 <= i < places.len() && #[trigger] places[i] == Some(c);
            if i < front.len() {
                assert(front[i] == Some(c));
            }
        }
    }
}

proof fn lemma_placed_update<R: Rows>(places: Seq<Option<Cursor<R>>>, i: int, x: Option<Cursor<R>>)
    requires
        0 <= i < places.len(),
    ensures
        placed(places.update(i, x)) == ({
            let without = match places[i] {
                Some(c) => placed(places).remove(c),
                None => placed(places),
            };
            match x {
                Some(c) => without.insert(c),
                None => without,
            }
        }),
    decreases places.len(),
{
    let front = places.drop_last();
    let n = places.len() - 1;
    if i == n {
        assert(places.update(i, x).drop_last() =~= front);
        match places[i] {
            Some(c) => {
                assert(placed(places) == placed(front).insert(c));
                assert(placed(front).insert(c).remove(c) =~= placed(front));
            },
            None => {},
        }
    } else {
        lemma_placed_update(front, i, x);
        assert(places.update(i, x).drop_last() =~= front.update(i, x));
        assert(places.update(i, x).last() == places.last());
        match places[i] {
            Some(c) => {
                assert(front[i] == Some(c));
                lemma_placed_contains(front, c);
                match places.last() {
                    Some(d) => {
                        assert(placed(front).insert(d).remove(c) =~= placed(front).remove(c).insert(d));
                        match x {
                            Some(y) => {
                                assert(placed(front).remove(c).insert(y).insert(d) =~= placed(front).remove(c).insert(d).insert(y));
                            },
                            None => {},
                        }
                    },
                    None => {},
                }
            },
            None => {
                match (places.last(), x) {
                    (Some(d), Some(y)) => {
                        assert(placed(front).insert(y).insert(d) =~= placed(front).insert(d).insert(y));
                    },
                    _ => {},
                }
            },
        }
    }
}

proof fn lemma_placed_none<R: Rows>(places: Seq<Option<Cursor<R>>>)
    requires
        forall|i: int| 0 <= i < places.len() ==> (#[trigger] places[i]) is None,
    ensures
        placed(places) == Multiset::<Cursor<R>>::empty(),
    decreases places.len(),
{
    if places.len() > 0 {
        lemma_placed_none(places.drop_last());
    }
}

/// Place `m` holds the cursor that comes first: none in another place comes before it.
spec fn is_top_place<R: Rows>(places: Seq<Option<Cursor<R>>>, m: int) -> bool {
    &&& 0 <= m < places.len()
    &&& places[m] is Some
    &&& forall|i: int|
        #![trigger places[i]]
        0 <= i < places.len() && places[i] is Some ==> !cursor_before(places[i]->0, places[m]->0)
}

proof fn lemma_top_is_least<R: Rows>(places: Seq<Option<Cursor<R>>>, m: int)
    requires
        is_top_place(places, m),
    ensures
        is_least(placed(places), places[m]->0),
{
    let c = places[m]->0;
    lemma_placed_contains(places, c);
    assert(places[m] == Some(c));
    assert forall|d: Cursor<R>| #[trigger] placed(places).contains(d) implies !cursor_before(d, c) by {
        lemma_placed_contains(places, d);
        let i = choose|i: int| 0 <= i < places.len() && #[trigger] places[i] == Some(d);
        assert(places[i] is Some);
    }
}

/// Whether what is in a place comes before what is in another; an empty place comes last.
spec fn place_before<R: Rows>(a: Option<Cursor<R>>, b: Option<Cursor<R>>) -> bool {
    match (a, b) {
        (Some(x), Some(y)) => cursor_before(x, y),
        (Some(_), None) => true,
        _ => false,
    }
}

proof fn lemma_place_transitive<R: Rows>(a: Option<Cursor<R>>, b: Option<Cursor<R>>, c: Option<Cursor<R>>)
    ensures
        !place_before(b, a) && !place_before(c, b) ==> !place_before(c, a),
        !place_before(a, a),
        !(place_before(a, b) && place_before(b, a)),
{
    match (a, b, c) {
        (Some(x), Some(y), Some(z)) => {
            lemma_before_transitive(x, y, z);
        },
        (Some(x), Some(y), None) => {
            lemma_before_transitive(x, y, x);
        },
        (Some(x), None, _) => {
            lemma_before_transitive(x, x, x);
        },
        _ => {},
    }
}

/// The place that a node or a leaf stands for.
spec fn place_of(nodes: Seq<usize>, c: int) -> int {
    if c >= nodes.len() {
        c - nodes.len()
    } else {
        nodes[c] as int
    }
}

/// Which of two places wins.
spec fn first_of<R: Rows>(places: Seq<Option<Cursor<R>>>, a: int, b: int) -> int {
    if place_before(places[b], places[a]) {
        b
    } else {
        a
    }
}

/// A node keeps the winner between its two children.
spec fn node_plays<R: Rows>(places: Seq<Option<Cursor<R>>>, nodes: Seq<usize>, k: int) -> bool {
    nodes[k] == first_of(places, place_of(nodes, 2 * k), place_of(nodes, 2 * k + 1))
}

/// A node keeps a place that is below it.
spec fn node_below(nodes: Seq<usize>, k: int) -> bool {
    nodes[k] < nodes.len() && on_path(k, nodes[k] + nodes.len())
}

spec fn tree_plays<R: Rows>(places: Seq<Option<Cursor<R>>>, nodes: Seq<usize>) -> bool {
    &&& nodes.len() == places.len()
    &&& forall|k: int| 1 <= k < nodes.len() ==> #[trigger] node_plays(places, nodes, k)
    &&& forall|k: int| 1 <= k < nodes.len() ==> #[trigger] node_below(nodes, k)
}

/// What stands below a node or a leaf is a place.
proof fn lemma_place_below(nodes: Seq<usize>, c: int)
    requires
        1 <= c < 2 * nodes.len(),
        c < nodes.len() ==> node_below(nodes, c),
    ensures
        0 <= place_of(nodes, c) < nodes.len(),
        on_path(c, place_of(nodes, c) + nodes.len()),
{
}

/// The winner of a child of a node is below the node.
proof fn lemma_below_parent(n: int, k: int, c: int, place: int)
    requires
        k >= 1,
        c == 2 * k || c == 2 * k + 1,
        on_path(c, place + n),
    ensures
        on_path(k, place + n),
{
    lemma_path_step(c, place + n);
}

/// No place below a node or a leaf comes before the place that it stands for.
proof fn lemma_unbeaten<R: Rows>(places: Seq<Option<Cursor<R>>>, nodes: Seq<usize>, i: int, c: int)
    requires
        tree_plays(places, nodes),
        0 <= i < places.len(),
        1 <= c < 2 * nodes.len(),
        on_path(c, i + nodes.len()),
    ensures
        !place_before(places[i], places[place_of(nodes, c)]),
    decreases 2 * nodes.len() - c,
{
    let leaf = i + nodes.len();
    lemma_path_bounds(c, leaf);
    if c >= nodes.len() {
        lemma_leaf_path(nodes.len() as int, c, leaf);
        lemma_place_transitive(places[i], places[i], places[i]);
    } else {
        lemma_path_child(c, leaf);
        let a = place_of(nodes, 2 * c);
        let b = place_of(nodes, 2 * c + 1);
        assert(node_plays(places, nodes, c));
        lemma_place_transitive(places[a], places[b], places[a]);
        if on_path(2 * c, leaf) {
            lemma_unbeaten(places, nodes, i, 2 * c);
            if place_before(places[b], places[a]) {
                lemma_place_transitive(places[b], places[a], places[i]);
            }
        } else {
            lemma_unbeaten(places, nodes, i, 2 * c + 1);
            if !place_before(places[b], places[a]) {
                lemma_place_transitive(places[a], places[b], places[i]);
            }
        }
    }
}

/// A leaf is on the way from no other leaf.
proof fn lemma_leaf_path(n: int, c: int, leaf: int)
    requires
        n <= c < 2 * n,
        n <= leaf < 2 * n,
        on_path(c, leaf),
    ensures
        c == leaf,
{
    if c != leaf {
        lemma_path_bounds(c, leaf / 2);
    }
}

/// What is below a node and not the node is below one of its children.
proof fn lemma_path_child(k: int, c: int)
    requires
        on_path(k, c),
        k != c,
    ensures
        on_path(2 * k, c) || on_path(2 * k + 1, c),
    decreases c,
{
    if k == c / 2 {
        assert(c == 2 * k || c == 2 * k + 1);
    } else {
        lemma_path_child(k, c / 2);
    }
}

impl<R: Rows> LoserTreeSort<R> {
    /// The place that child `2 * k` or `2 * k + 1` of a node stands for.
    fn child(&self, k: usize, second: bool) -> (r: usize)
        requires
            1 <= k < self.nodes@.len(),
        ensures
            r == place_of(
                self.nodes@,
                2 * k + if second {
                    1int
                } else {
                    0
                },
            ),
    {
        let n: usize = self.nodes.len();
        if second {
            if k + 1 < n - k {
                self.nodes[2 * k + 1]
            } else {
                k + 1 - (n - k)
            }
        } else if k < n - k {
            self.nodes[2 * k]
        } else {
            k - (n - k)
        }
    }

    /// Which of two places wins.
    fn first(&self, a: usize, b: usize) -> (r: usize)
        requires
            a < self.places@.len(),
            b < self.places@.len(),
            unfinished_places(self.places@),
        ensures
            r == first_of(self.places@, a as int, b as int),
    {
        match (&self.places[a], &self.places[b]) {
            (Some(x), Some(y)) => {
                assert(self.places@[a as int] is Some && self.places@[b as int] is Some);
                if x.gt(y) {
                    b
                } else {
                    a
                }
            },
            (None, Some(_)) => b,
            _ => a,
        }
    }

    /// Plays the match of a node again.
    fn play(&mut self, k: usize)
        requires
            1 <= k < old(self).nodes@.len(),
            old(self).nodes@.len() == old(self).places@.len(),
            unfinished_places(old(self).places@),
            2 * k < old(self).nodes@.len() ==> node_below(old(self).nodes@, 2 * k),
            2 * k + 1 < old(self).nodes@.len() ==> node_below(old(self).nodes@, 2 * k + 1),
        ensures
            final(self).places == old(self).places,
            final(self).length == old(self).length,
            final(self).nodes@ == old(self).nodes@.update(k as int, final(self).nodes@[k as int]),
            node_plays(final(self).places@, final(self).nodes@, k as int),
            node_below(final(self).nodes@, k as int),
    {
        let ghost before = self.nodes@;
        let ghost n = self.nodes@.len() as int;
        proof {
            lemma_place_below(before, 2 * k);
            lemma_place_below(before, 2 * k + 1);
        }
        let a = self.child(k, false);
        let b = self.child(k, true);
        proof {
            lemma_below_parent(n, k as int, 2 * k, a as int);
            lemma_below_parent(n, k as int, 2 * k + 1, b as int);
        }
        let w = self.first(a, b);
        self.nodes.set(k, w);
        proof {
            assert(place_of(self.nodes@, 2 * k) == place_of(before, 2 * k));
            assert(place_of(self.nodes@, 2 * k + 1) == place_of(before, 2 * k + 1));
        }
    }

    /// The place that wins the tournament.
    fn champion(&self) -> (r: usize)
        requires
            self.nodes@.len() >= 1,
            tree_plays(self.places@, self.nodes@),
        ensures
            r == champion_place(self.nodes@),
            r < self.places@.len(),
            forall|i: int| 0 <= i < self.places@.len() ==> !place_before(#[trigger] self.places@[i], self.places@[r as int]),
    {
        proof {
            lemma_champion_first(self.places@, self.nodes@);
        }
        if self.nodes.len() == 1 {
            0
        } else {
            self.nodes[1]
        }
    }

    /// Puts something in a place, and plays the matches on the way from there to the root.
    fn update(&mut self, index: usize, item: Option<Cursor<R>>)
        requires
            index < old(self).places@.len(),
            tree_plays(old(self).places@, old(self).nodes@),
            unfinished_places(old(self).places@),
            item matches Some(c) ==> !c.finished(),
        ensures
            final(self).places@ == old(self).places@.update(index as int, item),
            final(self).length == old(self).length,
            tree_plays(final(self).places@, final(self).nodes@),
            unfinished_places(final(self).places@),
    {
        let ghost before = self.places@;
        let n: usize = self.places.len();
        let ghost leaf = index + n;
        self.places.set(index, item);
        let mut cur: usize = n / 2 + index / 2 + (n % 2 + index % 2) / 2;
        proof {
            assert(cur == leaf / 2);
            assert forall|k: int| 1 <= k < n && !on_path(k, cur as int) implies #[trigger] node_plays(
                self.places@,
                self.nodes@,
                k,
            ) by {
                lemma_untouched(before, self.places@, self.nodes@, index as int, k);
            }
        }
        while cur >= 1
            invariant
                n == self.places@.len(),
                n == self.nodes@.len(),
                cur < n,
                self.places@ == old(self).places@.update(index as int, item),
                self.length == old(self).length,
                unfinished_places(self.places@),
                forall|k: int| 1 <= k < n ==> #[trigger] node_below(self.nodes@, k),
                forall|k: int|
                    1 <= k < n && !on_path(k, cur as int) ==> #[trigger] node_plays(self.places@, self.nodes@, k),
            decreases cur,
        {
            let ghost was = self.nodes@;
            self.play(cur);
            proof {
                assert forall|k: int| 1 <= k < n implies #[trigger] node_below(self.nodes@, k) by {
                    assert(node_below(was, k));
                }
                assert forall|k: int| 1 <= k < n && !on_path(k, cur as int / 2) implies #[trigger] node_plays(
                    self.places@,
                    self.nodes@,
                    k,
                ) by {
                    if k != cur {
                        assert(!on_path(k, cur as int));
                        assert(node_plays(self.places@, was, k));
                        // The node that was played is no child of this one.
                        assert(k == cur as int / 2 ==> on_path(k, cur as int / 2));
                        assert(2 * k != cur && 2 * k + 1 != cur);
                        assert(place_of(self.nodes@, 2 * k) == place_of(was, 2 * k));
                        assert(place_of(self.nodes@, 2 * k + 1) == place_of(was, 2 * k + 1));
                    }
                }
            }
            cur = cur / 2;
        }
    }
}

spec fn unfinished_places<R: Rows>(places: Seq<Option<Cursor<R>>>) -> bool {
    forall|i: int|
        #![trigger places[i]]
        0 <= i < places.len() && places[i] is Some ==> !(places[i]->0).finished()
}

spec fn champion_place(nodes: Seq<usize>) -> int {
    place_of(nodes, 1)
}

proof fn lemma_champion_first<R: Rows>(places: Seq<Option<Cursor<R>>>, nodes: Seq<usize>)
    requires
        nodes.len() >= 1,
        tree_plays(places, nodes),
    ensures
        0 <= champion_place(nodes) < places.len(),
        forall|i: int| 0 <= i < places.len() ==> !place_before(#[trigger] places[i], places[champion_place(nodes)]),
{
    if nodes.len() > 1 {
        assert(node_below(nodes, 1));
    }
    assert forall|i: int| 0 <= i < places.len() implies !place_before(#[trigger] places[i], places[champion_place(nodes)]) by {
        lemma_path_to_root(i + nodes.len());
        lemma_unbeaten(places, nodes, i, 1);
    }
}

/// A node that is not on the way from a place is not touched by what is put there.
proof fn lemma_untouched<R: Rows>(
    before: Seq<Option<Cursor<R>>>,
    after: Seq<Option<Cursor<R>>>,
    nodes: Seq<usize>,
    index: int,
    k: int,
)
    requires
        tree_plays(before, nodes),
        0 <= index < before.len(),
        after == before.update(index, after[index]),
        1 <= k < nodes.len(),
        !on_path(k, (index + nodes.len()) / 2),
    ensures
        node_plays(after, nodes, k),
{
    let n = nodes.len() as int;
    let leaf = index + n;
    assert(node_plays(before, nodes, k));
    assert forall|c: int| c == 2 * k || c == 2 * k + 1 implies 0 <= place_of(nodes, c) < n && place_of(nodes, c) != index by {
        if c < n {
            assert(node_below(nodes, c));
        }
        lemma_place_below(nodes, c);
        if place_of(nodes, c) == index {
            lemma_path_step(c, leaf);
            assert(on_path(k, leaf));
            assert(k != leaf);
        }
    }
    assert(place_of(nodes, 2 * k) != index);
    assert(place_of(nodes, 2 * k + 1) != index);
}

/// A winner that is a cursor comes first, and there is none where no place has a cursor.
proof fn lemma_champion_is_top<R: Rows>(places: Seq<Option<Cursor<R>>>, nodes: Seq<usize>)
    requires
        nodes.len() >= 1,
        tree_plays(places, nodes),
    ensures
        places[champion_place(nodes)] is Some ==> is_top_place(places, champion_place(nodes)),
        places[champion_place(nodes)] is None ==> placed(places) == Multiset::<Cursor<R>>::empty(),
{
    lemma_champion_first(places, nodes);
    if places[champion_place(nodes)] is None {
        assert forall|i: int| 0 <= i < places.len() implies (#[trigger] places[i]) is None by {
            assert(!place_before(places[i], places[champion_place(nodes)]));
        }
        lemma_placed_none(places);
    } else {
        assert forall|i: int|
            #![trigger places[i]]
            0 <= i < places.len() && places[i] is Some implies !cursor_before(
            places[i]->0,
            places[champion_place(nodes)]->0,
        ) by {
            assert(!place_before(places[i], places[champion_place(nodes)]));
        }
    }
}

impl<R: Rows> SortdGroup for LoserTreeSort<R> {
    type Rows = R;

    closed spec fn group(&self) -> Multiset<Cursor<R>> {
        placed(self.places@)
    }

    closed spec fn top(&self) -> Cursor<R> {
        self.places@[champion_place(self.nodes@)]->0
    }

    closed spec fn valid(&self) -> bool {
        &&& self.length == placed(self.places@).len()
        &&& placed(self.places@).len() <= self.places@.len() <= usize::MAX
        &&& unfinished_places(self.places@)
        &&& tree_plays(self.places@, self.nodes@)
    }

    closed spec fn is_free(&self, index: int) -> bool {
        0 <= index < self.places@.len() && self.places@[index] is None
    }

    fn with_capacity(capacity: usize) -> LoserTreeSort<R> {
        let mut places: Vec<Option<Cursor<R>>> = Vec::new();
        let mut nodes: Vec<usize> = Vec::new();
        let mut i: usize = 0;
        while i < capacity
            invariant
                i <= capacity,
                places.len() == i,
                nodes.len() == i,
                forall|k: int| 0 <= k < i ==> (#[trigger] places@[k]) is None,
            decreases capacity - i,
        {
            places.push(None);
            nodes.push(0);
            i += 1;
        }
        proof {
            lemma_placed_none(places@);
        }
        let mut r = LoserTreeSort { places, nodes, length: 0 };
        let ghost empty = r.places@;
        let mut k: usize = capacity;
        while k > 1
            invariant
                k <= capacity,
                r.places@ == empty,
                r.places@.len() == capacity,
                r.nodes@.len() == capacity,
                r.length == 0,
                unfinished_places(r.places@),
                forall|j: int| 1 <= j && k <= j < capacity ==> #[trigger] node_plays(r.places@, r.nodes@, j),
                forall|j: int| 1 <= j && k <= j < capacity ==> #[trigger] node_below(r.nodes@, j),
            decreases k,
        {
            k -= 1;
            let ghost was = r.nodes@;
            proof {
                if 2 * k < capacity {
                    assert(node_below(was, 2 * k));
                }
                if 2 * k + 1 < capacity {
                    assert(node_below(was, 2 * k + 1));
                }
            }
            r.play(k);
            proof {
                assert forall|j: int| 1 <= j && k <= j < capacity implies #[trigger] node_below(r.nodes@, j) by {
                    if j != k {
                        assert(node_below(was, j));
                    }
                }
                assert forall|j: int| 1 <= j && k <= j < capacity implies #[trigger] node_plays(r.places@, r.nodes@, j) by {
                    if j != k {
                        assert(node_plays(r.places@, was, j));
                        assert(place_of(r.nodes@, 2 * j) == place_of(was, 2 * j));
                        assert(place_of(r.nodes@, 2 * j + 1) == place_of(was, 2 * j + 1));
                    }
                }
            }
        }
        r
    }

    fn len(&self) -> usize {
        self.length
    }

    fn is_empty(&self) -> bool {
        self.length == 0
    }

    fn push(&mut self, index: usize, item: Cursor<R>) {
        proof {
            lemma_placed_update(self.places@, index as int, Some(item));
            lemma_room(self.places@, index as int);
        }
        self.update(index, Some(item));
        self.length += 1;
    }

    fn pop(&mut self) {
        if self.length == 0 {
            return;
        }
        let m = self.champion();
        proof {
            lemma_champion_is_top(self.places@, self.nodes@);
            lemma_top_is_least(self.places@, m as int);
            lemma_placed_update(self.places@, m as int, None);
        }
        self.update(m, None);
        self.length -= 1;
    }

    fn update_top(&mut self, item: Cursor<R>) {
        let m = self.champion();
        proof {
            lemma_champion_is_top(self.places@, self.nodes@);
            lemma_top_is_least(self.places@, m as int);
            lemma_placed_update(self.places@, m as int, Some(item));
        }
        self.update(m, Some(item));
    }

    fn peek(&self) -> Option<&Cursor<R>> {
        if self.length == 0 {
            return None;
        }
        let m = self.champion();
        proof {
            lemma_champion_is_top(self.places@, self.nodes@);
            lemma_top_is_least(self.places@, m as int);
        }
        self.places[m].as_ref()
    }

    fn peek_top2(&self) -> &Cursor<R> {
        let m = self.champion();
        let n: usize = self.places.len();
        let ghost leaf = m + n;
        let ghost places = self.places@;
        let ghost nodes = self.nodes@;
        let ghost rest = places.update(m as int, None);
        proof {
            lemma_champion_is_top(places, nodes);
            lemma_top_is_least(places, m as int);
            lemma_placed_update(places, m as int, None);
            lemma_placed_len(places);
            lemma_path_to_root(leaf);
            assert forall|i: int| 0 <= i < n && i != m implies !#[trigger] on_path(leaf, i + n) by {
                if on_path(leaf, i + n) {
                    lemma_leaf_path(n as int, leaf, i + n);
                }
            }
        }
        // The second is among those that have lost to the first on its way to the root. `cur` is
        // the node that comes next, and `side` tells from which child of it the first comes.
        let mut cur: usize = n / 2 + m / 2 + (n % 2 + m % 2) / 2;
        let mut side: bool = n % 2 != m % 2;
        let mut best: Option<usize> = None;
        let ghost mut from: int = leaf;
        while cur >= 1
            invariant
                n == places.len(),
                n == nodes.len(),
                n >= 2,
                places == self.places@,
                nodes == self.nodes@,
                tree_plays(places, nodes),
                unfinished_places(places),
                m < n,
                leaf == m + n,
                1 <= from < 2 * n,
                cur == from / 2,
                side == (from % 2 == 1),
                on_path(from, leaf),
                from < leaf ==> best is Some,
                best matches Some(b) ==> {
                    &&& b < n
                    &&& b != m
                    &&& forall|i: int|
                        0 <= i < n && i != m && #[trigger] on_path(from, i + n) ==> !place_before(places[i], places[b as int])
                },
                best is None ==> from == leaf,
                best is None ==> forall|i: int| 0 <= i < n && i != m ==> !#[trigger] on_path(from, i + n),
            decreases cur,
        {
            let ghost other = if side {
                2 * cur
            } else {
                2 * cur + 1
            };
            proof {
                if other < n {
                    assert(node_below(nodes, other));
                }
                lemma_place_below(nodes, other);
            }
            let lost = self.child(cur, !side);
            let ghost old_best = best;
            best = match best {
                Some(b) => Some(self.first(b, lost)),
                None => Some(lost),
            };
            proof {
                let b = best->0;
                if lost == m {
                    lemma_siblings_apart(from, other, leaf);
                }
                assert forall|i: int| 0 <= i < n && i != m && #[trigger] on_path(cur as int, i + n) implies !place_before(
                    places[i],
                    places[b as int],
                ) by {
                    lemma_path_child(cur as int, i + n);
                    if let Some(o) = old_best {
                        lemma_place_transitive(places[o as int], places[lost as int], places[o as int]);
                        lemma_place_transitive(places[b as int], places[o as int], places[i]);
                        lemma_place_transitive(places[b as int], places[lost as int], places[i]);
                    }
                    if on_path(other, i + n) {
                        lemma_unbeaten(places, nodes, i, other);
                    } else {
                        assert(on_path(from, i + n));
                    }
                }
                lemma_path_step(from, leaf);
                from = cur as int;
            }
            side = cur % 2 == 1;
            cur = cur / 2;
        }
        proof {
            assert(from == 1);
            assert(from < leaf);
            let b = best->0;
            assert(placed(rest).len() >= 1);
            assert forall|i: int| 0 <= i < n && i != m implies !place_before(#[trigger] places[i], places[b as int]) by {
                lemma_path_to_root(i + n);
            }
            if places[b as int] is None {
                assert forall|i: int| 0 <= i < rest.len() implies (#[trigger] rest[i]) is None by {
                    if i != m {
                        assert(!place_before(places[i], places[b as int]));
                    }
                }
                lemma_placed_none(rest);
            }
            assert forall|i: int|
                #![trigger rest[i]]
                0 <= i < rest.len() && rest[i] is Some implies !cursor_before(rest[i]->0, rest[b as int]->0) by {
                assert(!place_before(places[i], places[b as int]));
            }
            lemma_top_is_least(rest, b as int);
        }
        let k: usize = best.unwrap();
        self.places[k].as_ref().unwrap()
    }
}

/// Where a place is empty, there are fewer cursors than places.
proof fn lemma_room<R: Rows>(places: Seq<Option<Cursor<R>>>, i: int)
    requires
        0 <= i < places.len(),
        places[i] is None,
    ensures
        placed(places).len() < places.len(),
    decreases places.len(),
{
    if i == places.len() - 1 {
        lemma_placed_len(places.drop_last());
    } else {
        lemma_room(places.drop_last(), i);
    }
}

proof fn lemma_placed_len<R: Rows>(places: Seq<Option<Cursor<R>>>)
    ensures
        placed(places).len() <= places.len(),
    decreases places.len(),
{
    if places.len() > 0 {
        lemma_placed_len(places.drop_last());
    }
}

/// The cursor that comes first in a group stands before a row that is not greater than the row of
/// any other, and of rows that are the same it has that of the earliest input.
pub proof fn the_first_cursor_has_the_least_row<R: Rows>(group: Multiset<Cursor<R>>, c: Cursor<R>, d: Cursor<R>)
    requires
        is_least(group, c),
        group.contains(d),
    ensures
        ({
            let x = c.rows.keys()[c.row_index as int];
            let y = d.rows.keys()[d.row_index as int];
            &&& R::key_order(x, y) != Order::Greater
            &&& R::key_order(x, y) == Order::Equal ==> c.input_index <= d.input_index
        }),
{
    let x = c.rows.keys()[c.row_index as int];
    let y = d.rows.keys()[d.row_index as int];
    R::order_laws(x, y, x);
    assert(!cursor_before(d, c));
}

}
