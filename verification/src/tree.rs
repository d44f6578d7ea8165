//! Assembly of a flat entry list into a display forest.
//!
//! Every item carries a key and a parent key. Starting from a root sentinel
//! key, the builder emits one node per item whose parent key equals the
//! current target key, and recurses with the matched item's own key to
//! collect its children. Sibling order follows input order; items whose
//! parent chain never reaches the sentinel are silently absent.
//!
//! Termination rests on the items being well formed: each item's parent key
//! is strictly shorter than its own key, which holds of every normalized
//! archive entry. A key cycle is thereby ruled out.

use vstd::prelude::*;
use vstd::multiset::Multiset;

verus! {

/// An exec item that the tree builder can place: its mathematical model
/// (`View`) exposes a key and a parent key, and the item can be duplicated
/// without changing its model.
pub trait TreeItem: View + Sized {
    /// Key of a modeled item.
    spec fn spec_key(v: Self::V) -> Seq<char>;

    /// Parent key of a modeled item.
    spec fn spec_parent_key(v: Self::V) -> Seq<char>;

    /// Executable key extractor.
    fn key(&self) -> (k: String)
        ensures
            k@ == Self::spec_key(self@),
    ;

    /// Executable parent-key extractor.
    fn parent_key(&self) -> (k: String)
        ensures
            k@ == Self::spec_parent_key(self@),
    ;

    /// A copy with the same model.
    fn dup(&self) -> (d: Self)
        ensures
            d@ == self@,
    ;
}

/// One forest node: an item and, once placed by the builder, its ordered
/// children.
#[derive(Debug, PartialEq)]
pub struct TreeNode<T> {
    pub item: T,
    pub children: Option<Vec<TreeNode<T>>>,
}

/// Mathematical model of a forest node.
#[verifier::ext_equal]
pub struct SpecNode<V> {
    pub item: V,
    pub children: Option<Seq<SpecNode<V>>>,
}

/// Model of one exec node.
pub open spec fn node_view<T: View>(n: TreeNode<T>) -> SpecNode<T::V>
    decreases n,
{
    SpecNode {
        item: n.item@,
        children: match n.children {
            Option::None => None,
            Option::Some(v) => Some(forest_view(v@)),
        },
    }
}

/// Model of a sequence of exec nodes.
pub open spec fn forest_view<T: View>(s: Seq<TreeNode<T>>) -> Seq<SpecNode<T::V>>
    decreases s,
{
    if s.len() == 0 {
        Seq::empty()
    } else {
        forest_view(s.drop_last()).push(node_view(s.last()))
    }
}

/// Models of the items of a sequence of exec nodes.
pub open spec fn items_view<T: View>(s: Seq<TreeNode<T>>) -> Seq<T::V> {
    s.map_values(|n: TreeNode<T>| n.item@)
}

/// Length of the longest key among `items`.
pub open spec fn max_key_len<T: TreeItem>(items: Seq<T::V>) -> int
    decreases items.len(),
{
    if items.len() == 0 {
        0
    } else {
        let m = max_key_len::<T>(items.drop_last());
        let k = T::spec_key(items.last()).len() as int;
        if k > m {
            k
        } else {
            m
        }
    }
}

/// Well-formed item: its parent key is strictly shorter than its key.
pub open spec fn wf_item<T: TreeItem>(v: T::V) -> bool {
    T::spec_parent_key(v).len() < T::spec_key(v).len()
}

/// All items are well formed.
pub open spec fn wf_items<T: TreeItem>(items: Seq<T::V>) -> bool {
    forall|i: int| 0 <= i < items.len() ==> wf_item::<T>(#[trigger] items[i])
}

/// Builder termination measure: how far the target key is from the longest
/// key; recursing into a child strictly lengthens the target key.
pub open spec fn forest_measure<T: TreeItem>(items: Seq<T::V>, pk: Seq<char>) -> int {
    if pk.len() <= max_key_len::<T>(items) {
        max_key_len::<T>(items) - pk.len() + 1
    } else {
        0
    }
}

pub proof fn lemma_key_le_max<T: TreeItem>(items: Seq<T::V>, i: int)
    requires
        0 <= i < items.len(),
    ensures
        T::spec_key(items[i]).len() <= max_key_len::<T>(items),
    decreases items.len(),
{
    if i == items.len() - 1 {
    } else {
        lemma_key_le_max::<T>(items.drop_last(), i);
    }
}

/// The forest that the builder produces from `items[i..]` under target key
/// `pk`: one node per matched item, whose children are the full-list forest
/// under the item's own key.
pub open spec fn spec_forest<T: TreeItem>(items: Seq<T::V>, i: int, pk: Seq<char>) -> Seq<
    SpecNode<T::V>,
>
    decreases forest_measure::<T>(items, pk), items.len() - i,
        when wf_items::<T>(items)
        via spec_forest_decreases::<T>
{
    if i < 0 || i >= items.len() {
        Seq::empty()
    } else {
        let rest = spec_forest::<T>(items, i + 1, pk);
        if T::spec_parent_key(items[i]) == pk {
            seq![
                SpecNode {
                    item: items[i],
                    children: Some(spec_forest::<T>(items, 0, T::spec_key(items[i]))),
                },
            ] + rest
        } else {
            rest
        }
    }
}

#[via_fn]
proof fn spec_forest_decreases<T: TreeItem>(items: Seq<T::V>, i: int, pk: Seq<char>) {
    if 0 <= i < items.len() {
        if T::spec_parent_key(items[i]) == pk {
            lemma_key_le_max::<T>(items, i);
        }
    }
}

/// Depth-first sequence of the items of a forest model.
pub open spec fn forest_dfs<V>(nodes: Seq<SpecNode<V>>) -> Seq<V>
    decreases nodes,
{
    if nodes.len() == 0 {
        Seq::empty()
    } else {
        node_dfs(nodes[0]) + forest_dfs(nodes.drop_first())
    }
}

/// Depth-first sequence of one node's items.
pub open spec fn node_dfs<V>(n: SpecNode<V>) -> Seq<V>
    decreases n,
{
    seq![n.item] + match n.children {
        Option::None => Seq::empty(),
        Option::Some(cs) => forest_dfs(cs),
    }
}

impl<T: TreeItem> TreeNode<T> {
    /// Wraps each item in a childless node, keeping order.
    pub fn init_tree(items: Vec<T>) -> (r: Vec<TreeNode<T>>)
        ensures
            r@.len() == items@.len(),
            forall|i: int| 0 <= i < r@.len() ==> #[trigger] r@[i].item == items@[i],
            forall|i: int| 0 <= i < r@.len() ==> (#[trigger] r@[i].children) is None,
    {
        let mut tree_items: Vec<TreeNode<T>> = Vec::new();
        let mut items = items;
        let ghost all = items@;
        let mut n = items.len();
        while n > 0
            invariant
                n == items@.len(),
                tree_items@.len() + n == all.len(),
                items@ == all.subrange(tree_items@.len() as int, all.len() as int),
                forall|i: int|
                    0 <= i < tree_items@.len() ==> #[trigger] tree_items@[i].item == all[i],
                forall|i: int|
                    0 <= i < tree_items@.len() ==> (#[trigger] tree_items@[i].children) is None,
            decreases n,
        {
            let item = items.remove(0);
            proof {
                let k = tree_items@.len() as int;
                assert(all.subrange(k, all.len() as int)[0] == all[k]);
                assert(items@ =~= all.subrange(k + 1, all.len() as int));
            }
            let tree = TreeNode { item, children: None };
            tree_items.push(tree);
            n = items.len();
        }
        tree_items
    }

    /// One builder level: a node per item of `tree_items` whose parent key
    /// equals `parent_key`, with its children assembled recursively from the
    /// full list under the item's own key.
    pub fn set_tree(tree_items: &Vec<TreeNode<T>>, parent_key: &String) -> (r: Vec<TreeNode<T>>)
        requires
            wf_items::<T>(items_view(tree_items@)),
        ensures
            forest_view(r@) == spec_forest::<T>(items_view(tree_items@), 0, parent_key@),
        decreases forest_measure::<T>(items_view(tree_items@), parent_key@),
    {
        let ghost views = items_view(tree_items@);
        let mut trees: Vec<TreeNode<T>> = Vec::new();
        let n = tree_items.len();
        let mut j: usize = 0;
        while j < n
            invariant
                0 <= j <= n,
                n == tree_items@.len(),
                views == items_view(tree_items@),
                wf_items::<T>(views),
                forest_view(trees@) + spec_forest::<T>(views, j as int, parent_key@)
                    == spec_forest::<T>(views, 0, parent_key@),
            decreases n - j,
        {
            let node = &tree_items[j];
            let pk_j = node.item.parent_key();
            if pk_j.eq(parent_key) {
                let child_key = node.item.key();
                proof {
                    assert(views[j as int] == tree_items@[j as int].item@);
                    lemma_key_le_max::<T>(views, j as int);
                }
                let children = Self::set_tree(tree_items, &child_key);
                let new_node = TreeNode { item: node.item.dup(), children: Some(children) };
                proof {
                    let sn = SpecNode {
                        item: views[j as int],
                        children: Some(spec_forest::<T>(views, 0, T::spec_key(views[j as int]))),
                    };
                    assert(node_view(new_node) =~= sn);
                    assert(trees@.push(new_node).drop_last() =~= trees@);
                    assert(trees@.push(new_node).last() == new_node);
                    assert(forest_view(trees@.push(new_node)) == forest_view(trees@).push(
                        node_view(new_node),
                    ));
                    assert(spec_forest::<T>(views, j as int, parent_key@) == seq![sn]
                        + spec_forest::<T>(views, j + 1, parent_key@));
                    assert(forest_view(trees@).push(node_view(new_node)) + spec_forest::<T>(
                        views,
                        j + 1,
                        parent_key@,
                    ) =~= forest_view(trees@) + spec_forest::<T>(views, j as int, parent_key@));
                }
                trees.push(new_node);
            } else {
                proof {
                    assert(views[j as int] == tree_items@[j as int].item@);
                    assert(spec_forest::<T>(views, j as int, parent_key@) == spec_forest::<T>(
                        views,
                        j + 1,
                        parent_key@,
                    ));
                }
            }
            j += 1;
        }
        proof {
            assert(spec_forest::<T>(views, n as int, parent_key@) == Seq::<
                SpecNode<T::V>,
            >::empty());
            assert(forest_view(trees@) + Seq::<SpecNode<T::V>>::empty() =~= forest_view(trees@));
        }
        trees
    }

    /// Assembles the forest of `items` under the root sentinel `parent_key`.
    pub fn build_tree(items: Vec<T>, parent_key: String) -> (r: Vec<TreeNode<T>>)
        requires
            wf_items::<T>(items@.map_values(|t: T| t@)),
        ensures
            forest_view(r@) == spec_forest::<T>(items@.map_values(|t: T| t@), 0, parent_key@),
    {
        let ghost models = items@.map_values(|t: T| t@);
        let tree_items = Self::init_tree(items);
        proof {
            assert(items_view(tree_items@) =~= models);
        }
        Self::set_tree(&tree_items, &parent_key)
    }
}

/// The parent chain of `v` resolves to `root`: either directly, or through
/// some item whose key is `v`'s parent key and whose own chain resolves.
pub open spec fn resolves<T: TreeItem>(items: Seq<T::V>, v: T::V, root: Seq<char>) -> bool
    decreases T::spec_parent_key(v).len()
        when wf_items::<T>(items)
        via resolves_decreases::<T>
{
    ||| T::spec_parent_key(v) == root
    ||| exists|j: int|
        0 <= j < items.len() && (#[trigger] T::spec_key(items[j])) == T::spec_parent_key(v)
            && resolves::<T>(items, items[j], root)
}

#[via_fn]
proof fn resolves_decreases<T: TreeItem>(items: Seq<T::V>, v: T::V, root: Seq<char>) {
    assert forall|j: int|
        0 <= j < items.len() && T::spec_key(items[j]) == T::spec_parent_key(v) implies T::spec_parent_key(
        items[j],
    ).len() < T::spec_parent_key(v).len() by {
        assert(wf_item::<T>(items[j]));
    }
}

/// Depth-first item sequence that the builder reaches from `items[i..]`
/// under target key `pk`.
pub open spec fn flat<T: TreeItem>(items: Seq<T::V>, i: int, pk: Seq<char>) -> Seq<T::V>
    decreases forest_measure::<T>(items, pk), items.len() - i
        when wf_items::<T>(items)
        via flat_decreases::<T>
{
    if i < 0 || i >= items.len() {
        Seq::empty()
    } else {
        let rest = flat::<T>(items, i + 1, pk);
        if T::spec_parent_key(items[i]) == pk {
            seq![items[i]] + flat::<T>(items, 0, T::spec_key(items[i])) + rest
        } else {
            rest
        }
    }
}

#[via_fn]
proof fn flat_decreases<T: TreeItem>(items: Seq<T::V>, i: int, pk: Seq<char>) {
    if 0 <= i < items.len() {
        if T::spec_parent_key(items[i]) == pk {
            lemma_key_le_max::<T>(items, i);
        }
    }
}

/// The depth-first traversal of the built forest is exactly the reachable
/// item sequence.
pub proof fn lemma_forest_dfs_is_flat<T: TreeItem>(items: Seq<T::V>, i: int, pk: Seq<char>)
    requires
        wf_items::<T>(items),
    ensures
        forest_dfs(spec_forest::<T>(items, i, pk)) == flat::<T>(items, i, pk),
    decreases forest_measure::<T>(items, pk), items.len() - i,
{
    if i < 0 || i >= items.len() {
        assert(forest_dfs(spec_forest::<T>(items, i, pk)) =~= flat::<T>(items, i, pk));
    } else {
        lemma_forest_dfs_is_flat::<T>(items, i + 1, pk);
        if T::spec_parent_key(items[i]) == pk {
            lemma_key_le_max::<T>(items, i);
            lemma_forest_dfs_is_flat::<T>(items, 0, T::spec_key(items[i]));
            let sn = SpecNode {
                item: items[i],
                children: Some(spec_forest::<T>(items, 0, T::spec_key(items[i]))),
            };
            let rest_f = spec_forest::<T>(items, i + 1, pk);
            assert(spec_forest::<T>(items, i, pk) == seq![sn] + rest_f);
            assert((seq![sn] + rest_f)[0] == sn);
            assert((seq![sn] + rest_f).drop_first() =~= rest_f);
            assert(forest_dfs(seq![sn] + rest_f) == node_dfs(sn) + forest_dfs(rest_f));
            assert(node_dfs(sn) == seq![items[i]] + forest_dfs(
                spec_forest::<T>(items, 0, T::spec_key(items[i])),
            ));
            assert(node_dfs(sn) + forest_dfs(rest_f) =~= seq![items[i]] + flat::<T>(
                items,
                0,
                T::spec_key(items[i]),
            ) + flat::<T>(items, i + 1, pk));
        }
    }
}

/// Membership distributes over concatenation.
proof fn lemma_concat_contains<A>(a: Seq<A>, b: Seq<A>, x: A)
    ensures
        (a + b).contains(x) <==> a.contains(x) || b.contains(x),
{
    if (a + b).contains(x) {
        let k = choose|k: int| 0 <= k < (a + b).len() && (a + b)[k] == x;
        if k < a.len() {
            assert(a[k] == x);
        } else {
            assert(b[k - a.len()] == x);
        }
    }
    if a.contains(x) {
        let k = choose|k: int| 0 <= k < a.len() && a[k] == x;
        assert((a + b)[k] == x);
    }
    if b.contains(x) {
        let k = choose|k: int| 0 <= k < b.len() && b[k] == x;
        assert((a + b)[a.len() + k] == x);
    }
}

/// Every reachable item is an input item whose chain resolves to the target.
pub proof fn lemma_flat_sub<T: TreeItem>(items: Seq<T::V>, i: int, pk: Seq<char>)
    requires
        wf_items::<T>(items),
    ensures
        forall|x: T::V|
            #[trigger] flat::<T>(items, i, pk).contains(x) ==> items.contains(x) && resolves::<T>(
                items,
                x,
                pk,
            ),
    decreases forest_measure::<T>(items, pk), items.len() - i,
{
    if i < 0 || i >= items.len() {
    } else {
        lemma_flat_sub::<T>(items, i + 1, pk);
        if T::spec_parent_key(items[i]) == pk {
            lemma_key_le_max::<T>(items, i);
            let ki = T::spec_key(items[i]);
            lemma_flat_sub::<T>(items, 0, ki);
            let head = seq![items[i]];
            let sub = flat::<T>(items, 0, ki);
            let rest = flat::<T>(items, i + 1, pk);
            assert(flat::<T>(items, i, pk) == head + sub + rest);
            assert forall|x: T::V| #[trigger] flat::<T>(items, i, pk).contains(x) implies items
                .contains(x) && resolves::<T>(items, x, pk) by {
                lemma_concat_contains(head + sub, rest, x);
                lemma_concat_contains(head, sub, x);
                if head.contains(x) {
                    assert(head[0] == items[i]);
                    assert(x == items[i]);
                    assert(items.contains(x));
                } else if sub.contains(x) {
                    lemma_resolves_step::<T>(items, x, i, pk);
                }
            }
        } else {
            assert(flat::<T>(items, i, pk) == flat::<T>(items, i + 1, pk));
        }
    }
}

/// Chains concatenate: if `x` resolves to the key of `items[j]`, and the
/// parent key of `items[j]` is `pk`, then `x` resolves to `pk`.
pub proof fn lemma_resolves_step<T: TreeItem>(items: Seq<T::V>, x: T::V, j: int, pk: Seq<char>)
    requires
        wf_items::<T>(items),
        0 <= j < items.len(),
        T::spec_parent_key(items[j]) == pk,
        resolves::<T>(items, x, T::spec_key(items[j])),
    ensures
        resolves::<T>(items, x, pk),
    decreases T::spec_parent_key(x).len(),
{
    let kj = T::spec_key(items[j]);
    if T::spec_parent_key(x) == kj {
        assert(resolves::<T>(items, items[j], pk));
    } else {
        let m = choose|m: int|
            0 <= m < items.len() && T::spec_key(items[m]) == T::spec_parent_key(x) && resolves::<T>(
                items,
                items[m],
                kj,
            );
        assert(wf_item::<T>(items[m]));
        lemma_resolves_step::<T>(items, items[m], j, pk);
    }
}

/// Length along a chain: the parent key of a resolving item is at least as
/// long as the target, and equal in length only when equal outright.
pub proof fn lemma_resolves_length<T: TreeItem>(items: Seq<T::V>, x: T::V, pk: Seq<char>)
    requires
        wf_items::<T>(items),
        resolves::<T>(items, x, pk),
    ensures
        T::spec_parent_key(x).len() >= pk.len(),
        T::spec_parent_key(x).len() == pk.len() ==> T::spec_parent_key(x) == pk,
    decreases T::spec_parent_key(x).len(),
{
    if T::spec_parent_key(x) == pk {
    } else {
        let m = choose|m: int|
            0 <= m < items.len() && T::spec_key(items[m]) == T::spec_parent_key(x) && resolves::<T>(
                items,
                items[m],
                pk,
            );
        assert(wf_item::<T>(items[m]));
        lemma_resolves_length::<T>(items, items[m], pk);
    }
}

/// Keys are pairwise distinct.
pub open spec fn distinct_keys<T: TreeItem>(items: Seq<T::V>) -> bool {
    forall|i: int, j: int|
        0 <= i < j < items.len() ==> (#[trigger] T::spec_key(items[i])) != (#[trigger] T::spec_key(
            items[j],
        ))
}

proof fn lemma_distinct_values<T: TreeItem>(items: Seq<T::V>)
    requires
        distinct_keys::<T>(items),
    ensures
        forall|i: int, j: int| 0 <= i < j < items.len() ==> items[i] != items[j],
{
    assert forall|i: int, j: int| 0 <= i < j < items.len() implies items[i] != items[j] by {
        assert(T::spec_key(items[i]) != T::spec_key(items[j]));
    }
}

/// Under distinct keys the ancestor chain of `x` is linear: if `x` resolves
/// to two different targets, an item keyed by one of them resolves to the
/// other.
proof fn lemma_resolves_linear<T: TreeItem>(
    items: Seq<T::V>,
    x: T::V,
    q1: Seq<char>,
    q2: Seq<char>,
)
    requires
        wf_items::<T>(items),
        distinct_keys::<T>(items),
        resolves::<T>(items, x, q1),
        resolves::<T>(items, x, q2),
        q1 != q2,
    ensures
        (exists|j: int|
            0 <= j < items.len() && (#[trigger] T::spec_key(items[j])) == q1 && resolves::<T>(
                items,
                items[j],
                q2,
            )) || (exists|j: int|
            0 <= j < items.len() && (#[trigger] T::spec_key(items[j])) == q2 && resolves::<T>(
                items,
                items[j],
                q1,
            )),
    decreases T::spec_parent_key(x).len(),
{
    let p = T::spec_parent_key(x);
    if p == q1 {
        // p != q2, so the q2 chain goes through some item keyed p == q1
        let m = choose|m: int|
            0 <= m < items.len() && T::spec_key(items[m]) == p && resolves::<T>(items, items[m], q2);
        assert(T::spec_key(items[m]) == q1 && resolves::<T>(items, items[m], q2));
    } else if p == q2 {
        let m = choose|m: int|
            0 <= m < items.len() && T::spec_key(items[m]) == p && resolves::<T>(items, items[m], q1);
        assert(T::spec_key(items[m]) == q2 && resolves::<T>(items, items[m], q1));
    } else {
        let m1 = choose|m: int|
            0 <= m < items.len() && T::spec_key(items[m]) == p && resolves::<T>(items, items[m], q1);
        let m2 = choose|m: int|
            0 <= m < items.len() && T::spec_key(items[m]) == p && resolves::<T>(items, items[m], q2);
        assert(m1 == m2) by {
            if m1 != m2 {
                assert(T::spec_key(items[m1]) != T::spec_key(items[m2]));
            }
        }
        assert(wf_item::<T>(items[m1]));
        lemma_resolves_linear::<T>(items, items[m1], q1, q2);
    }
}

/// Membership in the reachable sequence decomposes: either the item is
/// matched directly at this level, or it lies in the subtree of a matched
/// item.
proof fn lemma_flat_cases<T: TreeItem>(items: Seq<T::V>, i: int, pk: Seq<char>, x: T::V)
    requires
        wf_items::<T>(items),
        flat::<T>(items, i, pk).contains(x),
    ensures
        (T::spec_parent_key(x) == pk && exists|j: int|
            i <= j < items.len() && items[j] == x) || (exists|j: int|
            i <= j < items.len() && T::spec_parent_key(#[trigger] items[j]) == pk && resolves::<T>(
                items,
                x,
                T::spec_key(items[j]),
            )),
    decreases items.len() - i,
{
    if i < 0 || i >= items.len() {
        assert(false);
    } else {
        let rest = flat::<T>(items, i + 1, pk);
        if T::spec_parent_key(items[i]) == pk {
            let ki = T::spec_key(items[i]);
            let head = seq![items[i]];
            let sub = flat::<T>(items, 0, ki);
            assert(flat::<T>(items, i, pk) == head + sub + rest);
            lemma_concat_contains(head + sub, rest, x);
            lemma_concat_contains(head, sub, x);
            if head.contains(x) {
                assert(head[0] == items[i]);
                assert(items[i] == x);
            } else if sub.contains(x) {
                lemma_flat_sub::<T>(items, 0, ki);
            } else {
                lemma_flat_cases::<T>(items, i + 1, pk, x);
            }
        } else {
            assert(flat::<T>(items, i, pk) == rest);
            lemma_flat_cases::<T>(items, i + 1, pk, x);
        }
    }
}

/// A directly matched item occurs in the reachable sequence.
proof fn lemma_direct_in_flat<T: TreeItem>(items: Seq<T::V>, i: int, l: int, pk: Seq<char>)
    requires
        wf_items::<T>(items),
        0 <= i <= l < items.len(),
        T::spec_parent_key(items[l]) == pk,
    ensures
        flat::<T>(items, i, pk).contains(items[l]),
    decreases items.len() - i,
{
    let rest = flat::<T>(items, i + 1, pk);
    if T::spec_parent_key(items[i]) == pk {
        let head = seq![items[i]];
        let sub = flat::<T>(items, 0, T::spec_key(items[i]));
        assert(flat::<T>(items, i, pk) == head + sub + rest);
        lemma_concat_contains(head + sub, rest, items[l]);
        lemma_concat_contains(head, sub, items[l]);
        if i == l {
            assert(head[0] == items[l]);
            assert(head.contains(items[l]));
        } else {
            lemma_direct_in_flat::<T>(items, i + 1, l, pk);
        }
    } else {
        assert(flat::<T>(items, i, pk) == rest);
        assert(i != l);
        lemma_direct_in_flat::<T>(items, i + 1, l, pk);
    }
}

/// Subtrees are closed under membership: everything reachable from the key
/// of a reachable item is itself reachable.
proof fn lemma_subtree_closed<T: TreeItem>(
    items: Seq<T::V>,
    i: int,
    pk: Seq<char>,
    u: T::V,
    w: T::V,
)
    requires
        wf_items::<T>(items),
        flat::<T>(items, i, pk).contains(u),
        flat::<T>(items, 0, T::spec_key(u)).contains(w),
    ensures
        flat::<T>(items, i, pk).contains(w),
    decreases forest_measure::<T>(items, pk), items.len() - i,
{
    if i < 0 || i >= items.len() {
        assert(false);
    } else {
        let rest = flat::<T>(items, i + 1, pk);
        if T::spec_parent_key(items[i]) == pk {
            lemma_key_le_max::<T>(items, i);
            let ki = T::spec_key(items[i]);
            let head = seq![items[i]];
            let sub = flat::<T>(items, 0, ki);
            assert(flat::<T>(items, i, pk) == head + sub + rest);
            lemma_concat_contains(head + sub, rest, u);
            lemma_concat_contains(head, sub, u);
            lemma_concat_contains(head + sub, rest, w);
            lemma_concat_contains(head, sub, w);
            if head.contains(u) {
                assert(head[0] == items[i]);
                assert(u == items[i]);
                assert(sub == flat::<T>(items, 0, T::spec_key(u)));
                assert(sub.contains(w));
            } else if sub.contains(u) {
                lemma_subtree_closed::<T>(items, 0, ki, u, w);
            } else {
                lemma_subtree_closed::<T>(items, i + 1, pk, u, w);
            }
        } else {
            assert(flat::<T>(items, i, pk) == rest);
            lemma_subtree_closed::<T>(items, i + 1, pk, u, w);
        }
    }
}

/// Every input item whose chain resolves to the target is reachable.
pub proof fn lemma_resolves_in_flat<T: TreeItem>(items: Seq<T::V>, x: T::V, pk: Seq<char>)
    requires
        wf_items::<T>(items),
        items.contains(x),
        resolves::<T>(items, x, pk),
    ensures
        flat::<T>(items, 0, pk).contains(x),
    decreases T::spec_parent_key(x).len(),
{
    let l = choose|l: int| 0 <= l < items.len() && items[l] == x;
    if T::spec_parent_key(x) == pk {
        lemma_direct_in_flat::<T>(items, 0, l, pk);
    } else {
        let m = choose|m: int|
            0 <= m < items.len() && T::spec_key(items[m]) == T::spec_parent_key(x) && resolves::<T>(
                items,
                items[m],
                pk,
            );
        assert(wf_item::<T>(items[m]));
        lemma_resolves_in_flat::<T>(items, items[m], pk);
        lemma_direct_in_flat::<T>(items, 0, l, T::spec_key(items[m]));
        lemma_subtree_closed::<T>(items, 0, pk, items[m], x);
    }
}

/// Under distinct keys no item is reached twice.
proof fn lemma_flat_count<T: TreeItem>(items: Seq<T::V>, i: int, pk: Seq<char>)
    requires
        wf_items::<T>(items),
        distinct_keys::<T>(items),
    ensures
        forall|x: T::V| #[trigger] flat::<T>(items, i, pk).to_multiset().count(x) <= 1,
    decreases forest_measure::<T>(items, pk), items.len() - i,
{
    broadcast use vstd::seq_lib::group_to_multiset_ensures;

    lemma_distinct_values::<T>(items);
    if i < 0 || i >= items.len() {
    } else {
        let rest = flat::<T>(items, i + 1, pk);
        lemma_flat_count::<T>(items, i + 1, pk);
        if T::spec_parent_key(items[i]) != pk {
            assert(flat::<T>(items, i, pk) == rest);
        }
        if T::spec_parent_key(items[i]) == pk {
            lemma_key_le_max::<T>(items, i);
            let ki = T::spec_key(items[i]);
            let sub = flat::<T>(items, 0, ki);
            lemma_flat_count::<T>(items, 0, ki);
            let head = seq![items[i]];
            assert(flat::<T>(items, i, pk) == head + sub + rest);
            vstd::seq_lib::lemma_multiset_commutative(head + sub, rest);
            vstd::seq_lib::lemma_multiset_commutative(head, sub);
            assert forall|x: T::V| #[trigger] flat::<T>(items, i, pk).to_multiset().count(x)
                <= 1 by {
                let c1 = head.to_multiset().count(x);
                let c2 = sub.to_multiset().count(x);
                let c3 = rest.to_multiset().count(x);
                assert(flat::<T>(items, i, pk).to_multiset().count(x) == c1 + c2 + c3);
                assert(head =~= Seq::empty().push(items[i]));
                assert(head.to_multiset() =~= Multiset::empty().insert(items[i]));
                assert(c1 <= 1);
                if c1 > 0 && c2 > 0 {
                    assert(x == items[i]);
                    assert(sub.contains(x));
                    lemma_flat_sub::<T>(items, 0, ki);
                    lemma_resolves_length::<T>(items, x, ki);
                    assert(wf_item::<T>(items[i]));
                    assert(false);
                }
                if c1 > 0 && c3 > 0 {
                    assert(x == items[i]);
                    assert(rest.contains(x));
                    lemma_flat_cases::<T>(items, i + 1, pk, x);
                    if T::spec_parent_key(x) == pk && exists|j: int|
                        i + 1 <= j < items.len() && items[j] == x {
                        let j = choose|j: int| i + 1 <= j < items.len() && items[j] == x;
                        assert(items[i] != items[j]);
                        assert(false);
                    } else {
                        let j = choose|j: int|
                            i + 1 <= j < items.len() && T::spec_parent_key(#[trigger] items[j])
                                == pk && resolves::<T>(items, x, T::spec_key(items[j]));
                        lemma_resolves_length::<T>(items, x, T::spec_key(items[j]));
                        assert(wf_item::<T>(items[j]));
                        assert(false);
                    }
                }
                if c2 > 0 && c3 > 0 {
                    assert(sub.contains(x));
                    assert(rest.contains(x));
                    lemma_flat_sub::<T>(items, 0, ki);
                    assert(resolves::<T>(items, x, ki));
                    lemma_flat_cases::<T>(items, i + 1, pk, x);
                    if T::spec_parent_key(x) == pk && exists|j: int|
                        i + 1 <= j < items.len() && items[j] == x {
                        lemma_resolves_length::<T>(items, x, ki);
                        assert(wf_item::<T>(items[i]));
                        assert(false);
                    } else {
                        let j = choose|j: int|
                            i + 1 <= j < items.len() && T::spec_parent_key(#[trigger] items[j])
                                == pk && resolves::<T>(items, x, T::spec_key(items[j]));
                        let kj = T::spec_key(items[j]);
                        assert(ki != kj);
                        lemma_resolves_linear::<T>(items, x, ki, kj);
                        if exists|m: int|
                            0 <= m < items.len() && (#[trigger] T::spec_key(items[m])) == ki
                                && resolves::<T>(items, items[m], kj) {
                            let m = choose|m: int|
                                0 <= m < items.len() && (#[trigger] T::spec_key(items[m])) == ki
                                    && resolves::<T>(items, items[m], kj);
                            assert(m == i) by {
                                if m != i {
                                    assert(T::spec_key(items[m]) != T::spec_key(items[i]));
                                }
                            }
                            lemma_resolves_length::<T>(items, items[i], kj);
                            assert(wf_item::<T>(items[j]));
                            assert(false);
                        } else {
                            let m = choose|m: int|
                                0 <= m < items.len() && (#[trigger] T::spec_key(items[m])) == kj
                                    && resolves::<T>(items, items[m], ki);
                            assert(m == j) by {
                                if m != j {
                                    assert(T::spec_key(items[m]) != T::spec_key(items[j]));
                                }
                            }
                            lemma_resolves_length::<T>(items, items[j], ki);
                            assert(wf_item::<T>(items[i]));
                            assert(false);
                        }
                    }
                }
            }
        }
    }
}

/// The depth-first traversal of the built forest is a bijection with the
/// reachable input: it lists exactly the input items whose parent chain
/// resolves to the root sentinel, each exactly once; items with no
/// resolvable chain are silently absent.
pub proof fn lemma_forest_bijection<T: TreeItem>(items: Seq<T::V>, root: Seq<char>)
    requires
        wf_items::<T>(items),
        distinct_keys::<T>(items),
    ensures
        forest_dfs(spec_forest::<T>(items, 0, root)) == flat::<T>(items, 0, root),
        forall|x: T::V|
            #[trigger] flat::<T>(items, 0, root).contains(x) <==> items.contains(x)
                && resolves::<T>(items, x, root),
        flat::<T>(items, 0, root).no_duplicates(),
{
    broadcast use vstd::seq_lib::group_to_multiset_ensures;

    lemma_forest_dfs_is_flat::<T>(items, 0, root);
    lemma_flat_sub::<T>(items, 0, root);
    assert forall|x: T::V| items.contains(x) && resolves::<T>(items, x, root) implies #[trigger] flat::<
        T,
    >(items, 0, root).contains(x) by {
        lemma_resolves_in_flat::<T>(items, x, root);
    }
    lemma_flat_count::<T>(items, 0, root);
    let f = flat::<T>(items, 0, root);
    assert forall|x: T::V| f.to_multiset().contains(x) implies f.to_multiset().count(x) == 1 by {
        assert(f.to_multiset().count(x) >= 1);
    }
    f.lemma_multiset_has_no_duplicates_conv();
}

/// Filtering keeps only elements of the sequence.
proof fn lemma_filter_sub<A>(s: Seq<A>, pred: spec_fn(A) -> bool)
    ensures
        forall|x: A| #[trigger] s.filter(pred).contains(x) ==> s.contains(x),
    decreases s.len(),
{
    reveal(Seq::filter);
    if s.len() > 0 {
        lemma_filter_sub(s.drop_last(), pred);
        assert forall|x: A| #[trigger] s.filter(pred).contains(x) implies s.contains(x) by {
            let rest = s.drop_last().filter(pred);
            let w = choose|w: int| 0 <= w < s.filter(pred).len() && s.filter(pred)[w] == x;
            if w < rest.len() {
                assert(rest[w] == x);
                assert(rest.contains(x));
                assert(s.drop_last().contains(x));
                let u = choose|u: int| 0 <= u < s.len() - 1 && s.drop_last()[u] == x;
                assert(s[u] == x);
            } else {
                assert(s[s.len() - 1] == x);
            }
        }
    }
}

/// Filtering a duplicate-free sequence leaves it duplicate-free.
proof fn lemma_filter_no_dup<A>(s: Seq<A>, pred: spec_fn(A) -> bool)
    requires
        s.no_duplicates(),
    ensures
        s.filter(pred).no_duplicates(),
    decreases s.len(),
{
    reveal(Seq::filter);
    if s.len() > 0 {
        assert(s.drop_last().no_duplicates());
        lemma_filter_no_dup(s.drop_last(), pred);
        lemma_filter_sub(s.drop_last(), pred);
        let rest = s.drop_last().filter(pred);
        if pred(s.last()) {
            assert forall|i: int, j: int|
                0 <= i < rest.push(s.last()).len() && 0 <= j < rest.push(s.last()).len() && i
                    != j implies rest.push(s.last())[i] != rest.push(s.last())[j] by {
                if i < rest.len() && j < rest.len() {
                } else {
                    let k = if i < rest.len() {
                        i
                    } else {
                        j
                    };
                    if rest[k] == s.last() {
                        assert(rest.contains(rest[k]));
                        assert(s.drop_last().contains(s.last()));
                        let u = choose|u: int|
                            0 <= u < s.len() - 1 && s.drop_last()[u] == s.last();
                        assert(s[u] == s[s.len() - 1]);
                    }
                }
            }
        }
    }
}

/// Exact permutation form of the bijection: the depth-first traversal of
/// the built forest is a permutation of the subsequence of input items
/// whose parent chains resolve to the root sentinel.
pub proof fn lemma_forest_dfs_permutation<T: TreeItem>(items: Seq<T::V>, root: Seq<char>)
    requires
        wf_items::<T>(items),
        distinct_keys::<T>(items),
    ensures
        flat::<T>(items, 0, root).to_multiset() == items.filter(
            |v: T::V| resolves::<T>(items, v, root),
        ).to_multiset(),
{
    broadcast use vstd::seq_lib::group_to_multiset_ensures;

    let f = flat::<T>(items, 0, root);
    let pred = |v: T::V| resolves::<T>(items, v, root);
    let b = items.filter(pred);
    lemma_forest_bijection::<T>(items, root);
    lemma_distinct_values::<T>(items);
    assert(items.no_duplicates());
    lemma_filter_no_dup(items, pred);
    lemma_filter_sub(items, pred);
    f.lemma_multiset_has_no_duplicates();
    b.lemma_multiset_has_no_duplicates();
    assert forall|x: T::V| #[trigger] b.contains(x) implies items.contains(x) && resolves::<T>(
        items,
        x,
        root,
    ) by {
        let w = choose|w: int| 0 <= w < b.len() && b[w] == x;
        items.lemma_filter_pred(pred, w);
    }
    assert forall|x: T::V| items.contains(x) && resolves::<T>(items, x, root) implies #[trigger] b
        .contains(x) by {
        let w = choose|w: int| 0 <= w < items.len() && items[w] == x;
        items.lemma_filter_contains(pred, w);
    }
    assert forall|x: T::V| #[trigger] f.to_multiset().count(x) == b.to_multiset().count(x) by {
        if f.contains(x) {
            assert(b.contains(x));
            assert(f.to_multiset().count(x) == 1 && b.to_multiset().count(x) == 1);
        } else {
            assert(!b.contains(x));
            assert(f.to_multiset().count(x) == 0 && b.to_multiset().count(x) == 0);
        }
    }
    assert(f.to_multiset() =~= b.to_multiset());
}

/// The builder is deterministic: two forests that both satisfy the builder
/// contract for the same items and sentinel are structurally identical.
pub proof fn lemma_build_deterministic<T: TreeItem>(
    a: Seq<TreeNode<T>>,
    b: Seq<TreeNode<T>>,
    items: Seq<T::V>,
    root: Seq<char>,
)
    requires
        forest_view(a) == spec_forest::<T>(items, 0, root),
        forest_view(b) == spec_forest::<T>(items, 0, root),
    ensures
        forest_view(a) == forest_view(b),
{
}

} // verus!
