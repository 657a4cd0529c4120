//! The comment forest: flat rows of one post rebuilt into trees. Rows are
//! taken oldest first; a row whose `parent_id` names no row in the set is
//! treated as a root rather than dropped. Rows caught in a parent cycle
//! (storage corruption) are attached under the cycle member that sorts
//! first, which also becomes a root: nothing is dropped and nothing loops
//! forever.

use vstd::prelude::*;

verus! {

/// One stored comment row.
pub struct Comment {
    pub id: u128,
    pub post_id: u128,
    pub user_id: u128,
    pub parent_id: Option<u128>,
    pub body: String,
    pub created_at: i64,
}

impl Clone for Comment {
    fn clone(&self) -> (r: Self)
        ensures
            r == *self,
    {
        Comment {
            id: self.id,
            post_id: self.post_id,
            user_id: self.user_id,
            parent_id: self.parent_id,
            body: self.body.clone(),
            created_at: self.created_at,
        }
    }
}

/// One node of the rebuilt forest: a comment row with its children, oldest
/// first, each child's `parent_id` naming this node.
pub struct CommentNode {
    pub id: u128,
    pub post_id: u128,
    pub user_id: u128,
    pub parent_id: Option<u128>,
    pub body: String,
    pub created_at: i64,
    pub children: Vec<CommentNode>,
}

/// No two rows share an id.
pub open spec fn unique_comment_ids(s: Seq<Comment>) -> bool {
    forall|i: int, j: int| 0 <= i < j < s.len() ==> (#[trigger] s[i]).id != (#[trigger] s[j]).id
}

/// True when some row carries this id.
pub open spec fn id_present(s: Seq<Comment>, id: u128) -> bool {
    exists|i: int| 0 <= i < s.len() && (#[trigger] s[i]).id == id
}

/// A row is a root when it has no parent, or its parent id names no row in
/// the set (a dangling reference, kept as a root by policy).
pub open spec fn is_root_row(s: Seq<Comment>, c: Comment) -> bool {
    match c.parent_id {
        None => true,
        Some(pid) => !id_present(s, pid),
    }
}

/// Strictly earlier in creation order, ties broken by id.
pub open spec fn comment_lt(a: Comment, b: Comment) -> bool {
    a.created_at < b.created_at || (a.created_at == b.created_at && a.id < b.id)
}

/// Ascending creation order, ties allowed.
pub open spec fn sorted_comments_asc(s: Seq<Comment>) -> bool {
    forall|i: int, j: int| 0 <= i < j < s.len() ==> !comment_lt(#[trigger] s[j], #[trigger] s[i])
}

/// The node carries exactly the fields of one row of the set.
pub open spec fn node_matches_row(rows: Seq<Comment>, n: CommentNode) -> bool {
    exists|k: int|
        0 <= k < rows.len() && (#[trigger] rows[k]).id == n.id && rows[k].post_id == n.post_id
            && rows[k].user_id == n.user_id && rows[k].parent_id == n.parent_id && rows[k].body
            == n.body && rows[k].created_at == n.created_at
}

/// Siblings stand in strictly ascending creation order (ids break ties).
pub open spec fn nodes_sorted_asc(f: Seq<CommentNode>) -> bool {
    forall|i: int, j: int|
        0 <= i < j < f.len() ==> (#[trigger] f[i]).created_at < (#[trigger] f[j]).created_at || (
        f[i].created_at == f[j].created_at && f[i].id < f[j].id)
}

/// Every node of the forest carries the fields of a row of the set, its
/// children all name it as parent, and siblings stand oldest first.
pub open spec fn forest_nodes_ok(rows: Seq<Comment>, f: Seq<CommentNode>) -> bool
    decreases f,
{
    forall|i: int| 0 <= i < f.len() ==> node_ok(rows, #[trigger] f[i])
}

pub open spec fn node_ok(rows: Seq<Comment>, n: CommentNode) -> bool
    decreases n,
{
    &&& node_matches_row(rows, n)
    &&& (forall|i: int|
        0 <= i < n.children@.len() ==> (#[trigger] n.children@[i]).parent_id == Some(n.id))
    &&& nodes_sorted_asc(n.children@)
    &&& forest_nodes_ok(rows, n.children@)
}

/// All ids of the forest, in depth-first order.
pub open spec fn forest_ids(f: Seq<CommentNode>) -> Seq<u128>
    decreases f,
{
    if f.len() == 0 {
        Seq::empty()
    } else {
        seq![f[0].id] + forest_ids(f[0].children@) + forest_ids(f.drop_first())
    }
}

/// The ids of one node's subtree.
pub open spec fn node_ids(n: CommentNode) -> Seq<u128>
    decreases n,
{
    seq![n.id] + forest_ids(n.children@)
}

/// Appending a tree appends its subtree ids.
pub proof fn lemma_forest_ids_push(f: Seq<CommentNode>, n: CommentNode)
    ensures
        forest_ids(f.push(n)) == forest_ids(f) + node_ids(n),
    decreases f,
{
    if f.len() == 0 {
        assert(f.push(n).drop_first() =~= Seq::<CommentNode>::empty());
        assert(f.push(n)[0] == n);
        assert(forest_ids(Seq::<CommentNode>::empty()) =~= Seq::<u128>::empty());
        assert(forest_ids(f.push(n)) =~= forest_ids(f) + node_ids(n));
    } else {
        assert(f.push(n).drop_first() =~= f.drop_first().push(n));
        assert(f.push(n)[0] == f[0]);
        lemma_forest_ids_push(f.drop_first(), n);
        assert(forest_ids(f.push(n)) == seq![f[0].id] + forest_ids(f[0].children@) + forest_ids(
            f.drop_first().push(n),
        ));
        assert(forest_ids(f.push(n)) =~= forest_ids(f) + node_ids(n));
    }
}

/// How many slots are still unused.
pub open spec fn count_false(u: Seq<bool>) -> nat
    decreases u.len(),
{
    if u.len() == 0 {
        0
    } else {
        count_false(u.drop_last()) + if u.last() {
            0nat
        } else {
            1nat
        }
    }
}

/// Marking one unused slot used lowers the count by one.
pub proof fn lemma_count_false_set(u: Seq<bool>, k: int)
    requires
        0 <= k < u.len(),
        !u[k],
    ensures
        count_false(u.update(k, true)) == count_false(u) - 1,
    decreases u.len(),
{
    if k == u.len() - 1 {
        assert(u.update(k, true).drop_last() =~= u.drop_last());
    } else {
        assert(u.update(k, true).drop_last() =~= u.drop_last().update(k, true));
        assert(u.update(k, true).last() == u.last());
        lemma_count_false_set(u.drop_last(), k);
    }
}

/// Every used slot's children are used: no used row still has an unattached
/// child, except under the excluded slots (the ancestors still being
/// built).
pub open spec fn children_attached(rows: Seq<Comment>, u: Seq<bool>, k: int) -> bool {
    forall|m: int|
        0 <= m < rows.len() && (#[trigger] rows[m]).parent_id == Some(rows[k].id) ==> u[m]
}

pub open spec fn used_closed_except(rows: Seq<Comment>, u: Seq<bool>, ex: Set<int>) -> bool {
    forall|k: int|
        0 <= k < rows.len() && #[trigger] u[k] && !ex.contains(k) ==> children_attached(rows, u, k)
}

/// Builds the subtree of row `i`, attaching every still-unused row whose
/// parent id is this row's id, depth first, oldest first.
fn build_node(rows: &Vec<Comment>, i: usize, used: &mut Vec<bool>, Ghost(ex): Ghost<Set<int>>) -> (
    node: CommentNode)
    requires
        sorted_comments_asc(rows@),
        unique_comment_ids(rows@),
        old(used)@.len() == rows@.len(),
        i < rows@.len(),
        old(used)@[i as int],
        used_closed_except(rows@, old(used)@, ex.insert(i as int)),
    ensures
        final(used)@.len() == rows@.len(),
        (forall|k: int| 0 <= k < rows@.len() && old(used)@[k] ==> #[trigger] final(used)@[k]),
        used_closed_except(rows@, final(used)@, ex),
        node_ok(rows@, node),
        node.id == rows@[i as int].id,
        node.created_at == rows@[i as int].created_at,
        node_ids(node).no_duplicates(),
        node_ids(node).len() == 1 + count_false(old(used)@) - count_false(final(used)@),
        (forall|x: u128|
            node_ids(node).contains(x) ==> exists|k: int|
                0 <= k < rows@.len() && (#[trigger] rows@[k]).id == x && final(used)@[k] && (k
                    == i || !old(used)@[k])),
        (forall|k: int|
            0 <= k < rows@.len() && !old(used)@[k] && #[trigger] final(used)@[k]
                ==> !is_root_row(rows@, rows@[k])),
    decreases count_false(old(used)@),
{
    let ghost u0 = used@;
    let n = rows.len();
    let mut children: Vec<CommentNode> = Vec::new();
    let mut j: usize = 0;
    while j < n
        invariant
            n == rows@.len(),
            sorted_comments_asc(rows@),
            unique_comment_ids(rows@),
            used@.len() == rows@.len(),
            i < rows@.len(),
            used@[i as int],
            u0[i as int],
            u0 == old(used)@,
            count_false(used@) <= count_false(u0),
            (forall|k: int| 0 <= k < rows@.len() && u0[k] ==> #[trigger] used@[k]),
            used_closed_except(rows@, used@, ex.insert(i as int)),
            (forall|k: int|
                0 <= k < rows@.len() && !u0[k] && #[trigger] used@[k] ==> !is_root_row(
                    rows@,
                    rows@[k],
                )),
            forest_nodes_ok(rows@, children@),
            nodes_sorted_asc(children@),
            (forall|c: int|
                0 <= c < children@.len() ==> (#[trigger] children@[c]).parent_id == Some(
                    rows@[i as int].id,
                )),
            forest_ids(children@).no_duplicates(),
            forest_ids(children@).len() == count_false(u0) - count_false(used@),
            (forall|x: u128|
                forest_ids(children@).contains(x) ==> exists|k: int|
                    0 <= k < rows@.len() && (#[trigger] rows@[k]).id == x && used@[k]
                        && !u0[k]),
            (forall|m: int|
                0 <= m < j && (#[trigger] rows@[m]).parent_id == Some(rows@[i as int].id)
                    ==> used@[m]),
            (forall|c: int|
                0 <= c < children@.len() ==> exists|m: int|
                    0 <= m < j && (#[trigger] children@[c]).id == rows@[m].id
                        && children@[c].created_at == rows@[m].created_at),
        decreases n - j,
    {
        let is_child = match rows[j].parent_id {
            Some(pid) => pid == rows[i].id,
            None => false,
        };
        if is_child {
            let already = used[j];
            if !already {
                let ghost u_before = used@;
                used.set(j, true);
                proof {
                    assert(used@ =~= u_before.update(j as int, true));
                    lemma_count_false_set(u_before, j as int);
                    assert(used_closed_except(rows@, used@, ex.insert(i as int).insert(j as int)))
                        by {
                        assert forall|k: int|
                            0 <= k < rows@.len() && #[trigger] used@[k] && !ex.insert(
                                i as int,
                            ).insert(j as int).contains(k) implies children_attached(
                            rows@,
                            used@,
                            k,
                        ) by {
                            assert(u_before[k]);
                            assert(children_attached(rows@, u_before, k));
                            assert forall|m: int|
                                0 <= m < rows@.len() && (#[trigger] rows@[m]).parent_id == Some(
                                    rows@[k].id,
                                ) implies used@[m] by {
                                assert(u_before[m]);
                            }
                        }
                    }
                }
                proof {
                    assert(id_present(rows@, rows@[i as int].id));
                    assert(!is_root_row(rows@, rows@[j as int]));
                }
                let child = build_node(rows, j, used, Ghost(ex.insert(i as int)));
                let ghost ids_before = forest_ids(children@);
                let ghost u_mid = used@;
                proof {
                    lemma_forest_ids_push(children@, child);
                }
                children.push(child);
                proof {
                    assert(children@.drop_last() =~= children@.subrange(
                        0,
                        children@.len() - 1,
                    ));
                    assert(forest_ids(children@) == ids_before + node_ids(child));
                    assert forall|x: u128| forest_ids(children@).contains(x) implies exists|
                        k: int,
                    |
                        0 <= k < rows@.len() && (#[trigger] rows@[k]).id == x && used@[k]
                            && !u0[k] by {
                        if ids_before.contains(x) {
                            let k = choose|k: int|
                                0 <= k < rows@.len() && (#[trigger] rows@[k]).id == x
                                    && u_before[k] && !u0[k];
                            assert(rows@[k].id == x && used@[k] && !u0[k]);
                        } else {
                            assert(node_ids(child).contains(x));
                            let k = choose|k: int|
                                0 <= k < rows@.len() && (#[trigger] rows@[k]).id == x && u_mid[k]
                                    && (k == j || !u_before.update(j as int, true)[k]);
                            assert(rows@[k].id == x && used@[k] && !u0[k]);
                        }
                    }
                    assert(forest_ids(children@).no_duplicates()) by {
                        assert forall|a: int, b: int|
                            0 <= a < b < forest_ids(children@).len() implies forest_ids(
                            children@,
                        )[a] != forest_ids(children@)[b] by {
                            let all = forest_ids(children@);
                            if b < ids_before.len() {
                                assert(ids_before.no_duplicates());
                                assert(all[a] == ids_before[a] && all[b] == ids_before[b]);
                            } else if a >= ids_before.len() {
                                assert(node_ids(child).no_duplicates());
                                assert(all[a] == node_ids(child)[a - ids_before.len()]);
                                assert(all[b] == node_ids(child)[b - ids_before.len()]);
                            } else {
                                assert(all[a] == ids_before[a]);
                                assert(all[b] == node_ids(child)[b - ids_before.len()]);
                                assert(ids_before.contains(all[a]));
                                assert(node_ids(child).contains(all[b]));
                                let ka = choose|k: int|
                                    0 <= k < rows@.len() && (#[trigger] rows@[k]).id == all[a]
                                        && u_before[k] && !u0[k];
                                let kb = choose|k: int|
                                    0 <= k < rows@.len() && (#[trigger] rows@[k]).id == all[b]
                                        && u_mid[k] && (k == j || !u_before.update(
                                        j as int,
                                        true,
                                    )[k]);
                                assert(u_before[ka]);
                                assert(kb == j || !u_before[kb]);
                                assert(!u_before[j as int]);
                                assert(ka != kb);
                            }
                        }
                    }
                    assert(nodes_sorted_asc(children@)) by {
                        assert forall|a: int, b: int|
                            0 <= a < b < children@.len() implies (
                        #[trigger] children@[a]).created_at < (#[trigger] children@[b]).created_at
                            || (children@[a].created_at == children@[b].created_at
                            && children@[a].id < children@[b].id) by {
                            if b == children@.len() - 1 {
                                let m = choose|m: int|
                                    0 <= m < j && (#[trigger] children@[a]).id == rows@[m].id
                                        && children@[a].created_at == rows@[m].created_at;
                                assert(!comment_lt(rows@[j as int], rows@[m]));
                                assert(rows@[m].id != rows@[j as int].id);
                            }
                        }
                    }
                }
            }
        }
        j = j + 1;
    }
    let row = &rows[i];
    let node = CommentNode {
        id: row.id,
        post_id: row.post_id,
        user_id: row.user_id,
        parent_id: row.parent_id,
        body: row.body.clone(),
        children,
    created_at: row.created_at,
    };
    proof {
        assert(node_ids(node) =~= seq![node.id] + forest_ids(node.children@));
        assert(node_ids(node).no_duplicates()) by {
            assert forall|b: int|
                1 <= b < node_ids(node).len() implies node_ids(node)[b] != node.id by {
                let ids = forest_ids(node.children@);
                assert(node_ids(node)[b] == ids[b - 1]);
                assert(ids.contains(ids[b - 1]));
                let k = choose|k: int|
                    0 <= k < rows@.len() && (#[trigger] rows@[k]).id == ids[b - 1] && used@[k]
                        && !u0[k];
                assert(k != i);
            }
        }
        assert forall|x: u128| node_ids(node).contains(x) implies exists|k: int|
            0 <= k < rows@.len() && (#[trigger] rows@[k]).id == x && used@[k] && (k == i as int
                || !u0[k]) by {
            if x == node.id {
                assert(rows@[i as int].id == x && used@[i as int]);
            } else {
                assert(node_ids(node)[0] == node.id);
                let b = choose|b: int| 0 <= b < node_ids(node).len() && node_ids(node)[b] == x;
                assert(forest_ids(node.children@).contains(x));
            }
        }
        assert(used_closed_except(rows@, used@, ex)) by {
            assert forall|k: int|
                0 <= k < rows@.len() && #[trigger] used@[k] && !ex.contains(k) implies
                children_attached(rows@, used@, k) by {
                if k != i as int {
                    assert(used_closed_except(rows@, used@, ex.insert(i as int)));
                }
            }
        }
        assert(node_matches_row(rows@, node)) by {
            assert(rows@[i as int].id == node.id && rows@[i as int].post_id == node.post_id
                && rows@[i as int].user_id == node.user_id && rows@[i as int].parent_id
                == node.parent_id && rows@[i as int].body == node.body
                && rows@[i as int].created_at == node.created_at);
        }
    }
    node
}

/// Two sequences with the same multiset of rows present the same ids.
proof fn lemma_id_present_permutes(s: Seq<Comment>, t: Seq<Comment>, id: u128)
    requires
        s.to_multiset() == t.to_multiset(),
        id_present(s, id),
    ensures
        id_present(t, id),
{
    broadcast use vstd::seq_lib::group_to_multiset_ensures;

    let i = choose|i: int| 0 <= i < s.len() && (#[trigger] s[i]).id == id;
    assert(s.contains(s[i]));
    assert(t.to_multiset().count(s[i]) > 0);
    assert(t.contains(s[i]));
    let j = choose|j: int| 0 <= j < t.len() && t[j] == s[i];
    assert(t[j].id == id);
}

/// Root status only looks at the set of ids, so it survives reordering.
proof fn lemma_is_root_permutes(s: Seq<Comment>, t: Seq<Comment>, c: Comment)
    requires
        s.to_multiset() == t.to_multiset(),
    ensures
        is_root_row(s, c) == is_root_row(t, c),
{
    match c.parent_id {
        None => {},
        Some(pid) => {
            if id_present(s, pid) {
                lemma_id_present_permutes(s, t, pid);
            }
            if id_present(t, pid) {
                lemma_id_present_permutes(t, s, pid);
            }
        },
    }
}

/// Pairwise-distinct ids survive reordering.
proof fn lemma_unique_comment_ids_permutes(s: Seq<Comment>, t: Seq<Comment>)
    requires
        unique_comment_ids(s),
        s.to_multiset() == t.to_multiset(),
    ensures
        unique_comment_ids(t),
{
    broadcast use vstd::seq_lib::group_to_multiset_ensures;

    assert forall|a: int, b: int| 0 <= a < b < t.len() implies (#[trigger] t[a]).id != (
    #[trigger] t[b]).id by {
        if t[a] == t[b] {
            assert(t.remove(a).to_multiset() =~= t.to_multiset().remove(t[a]));
            assert(t.remove(a)[b - 1] == t[b]);
            assert(t.remove(a).contains(t[b]));
            assert(t.to_multiset().remove(t[a]).count(t[b]) > 0);
            assert(s.to_multiset().count(t[a]) >= 2);
            assert(s.contains(t[a]));
            let i = choose|i: int| 0 <= i < s.len() && s[i] == t[a];
            assert(s.remove(i).to_multiset() =~= s.to_multiset().remove(s[i]));
            assert(s.remove(i).to_multiset().count(t[a]) > 0);
            assert(s.remove(i).contains(t[a]));
            let j0 = choose|j0: int| 0 <= j0 < s.remove(i).len() && s.remove(i)[j0] == t[a];
            let j = if j0 < i {
                j0
            } else {
                j0 + 1
            };
            assert(s[j] == t[a] && j != i);
        } else {
            assert(t.contains(t[a]) && t.contains(t[b]));
            assert(s.to_multiset().count(t[a]) > 0 && s.to_multiset().count(t[b]) > 0);
            assert(s.contains(t[a]) && s.contains(t[b]));
            let i = choose|i: int| 0 <= i < s.len() && s[i] == t[a];
            let j = choose|j: int| 0 <= j < s.len() && s[j] == t[b];
            assert(i != j);
        }
    }
}

/// Node contents and the parent/order discipline only look at which rows
/// exist, so they survive reordering of the row set.
proof fn lemma_forest_ok_permutes(s: Seq<Comment>, t: Seq<Comment>, f: Seq<CommentNode>)
    requires
        s.to_multiset() == t.to_multiset(),
        forest_nodes_ok(s, f),
    ensures
        forest_nodes_ok(t, f),
    decreases f,
{
    broadcast use vstd::seq_lib::group_to_multiset_ensures;

    assert forall|i: int| 0 <= i < f.len() implies node_ok(t, #[trigger] f[i]) by {
        assert(node_ok(s, f[i]));
        assert(node_matches_row(t, f[i])) by {
            let k = choose|k: int|
                0 <= k < s.len() && (#[trigger] s[k]).id == f[i].id && s[k].post_id
                    == f[i].post_id && s[k].user_id == f[i].user_id && s[k].parent_id
                    == f[i].parent_id && s[k].body == f[i].body && s[k].created_at
                    == f[i].created_at;
            assert(s.contains(s[k]));
            assert(s.to_multiset().count(s[k]) > 0);
            assert(t.to_multiset().count(s[k]) > 0);
            assert(t.contains(s[k]));
            let m = choose|m: int| 0 <= m < t.len() && t[m] == s[k];
        }
        lemma_forest_ok_permutes(s, t, f[i].children@);
    }
}

/// Insertion sort into ascending creation order; the rows are a permutation
/// of the input.
fn sort_comments_asc_exec(v: &mut Vec<Comment>)
    ensures
        final(v)@.to_multiset() == old(v)@.to_multiset(),
        final(v)@.len() == old(v)@.len(),
        sorted_comments_asc(final(v)@),
{
    let ghost s0 = v@;
    if v.len() <= 1 {
        return ;
    }
    let mut i: usize = 1;
    while i < v.len()
        invariant
            1 <= i <= v@.len(),
            v@.len() == s0.len(),
            v@.to_multiset() == s0.to_multiset(),
            sorted_comments_asc(v@.take(i as int)),
        decreases v@.len() - i,
    {
        let ghost before = v@;
        let x = v.remove(i);
        assert(v@.take(i as int) =~= before.take(i as int));
        let mut j: usize = 0;
        while j < i && !(x.created_at < v[j].created_at || (x.created_at == v[j].created_at
            && x.id < v[j].id))
            invariant
                0 <= j <= i,
                i < before.len(),
                v@ == before.remove(i as int),
                x == before[i as int],
                (forall|k: int| 0 <= k < j ==> !comment_lt(x, #[trigger] v@[k])),
            decreases i - j,
        {
            j = j + 1;
        }
        let ghost mid = v@;
        v.insert(j, x);
        proof {
            broadcast use vstd::seq_lib::group_to_multiset_ensures;

            assert(v@.take(i + 1 as int) =~= mid.take(i as int).insert(j as int, x));
            assert(v@.to_multiset() =~= s0.to_multiset()) by {
                assert(mid.to_multiset().insert(x) =~= before.to_multiset());
            }
            assert(sorted_comments_asc(v@.take(i + 1 as int))) by {
                let t = v@.take(i + 1 as int);
                assert forall|a: int, b: int| 0 <= a < b < t.len() implies !comment_lt(
                    #[trigger] t[b],
                    #[trigger] t[a],
                ) by {
                    let pre = mid.take(i as int);
                    assert(sorted_comments_asc(pre));
                    if a < j && b < j {
                        assert(t[a] == pre[a] && t[b] == pre[b]);
                    } else if a < j && b == j {
                        assert(t[a] == pre[a] && t[b] == x);
                    } else if a < j && b > j {
                        assert(t[a] == pre[a] && t[b] == pre[b - 1]);
                    } else if a == j && b > j {
                        assert(t[a] == x && t[b] == pre[b - 1]);
                        if j < i {
                            assert(comment_lt(x, pre[j as int]));
                            if b - 1 > j {
                                assert(!comment_lt(pre[b - 1], pre[j as int]));
                            }
                        }
                    } else {
                        assert(a > j && b > j);
                        assert(t[a] == pre[a - 1] && t[b] == pre[b - 1]);
                    }
                }
            }
        }
        i = i + 1;
    }
    proof {
        assert(v@.take(v@.len() as int) =~= v@);
    }
}

/// True when the row the node was built from is a root of the set.
pub open spec fn node_is_root(rows: Seq<Comment>, n: CommentNode) -> bool {
    match n.parent_id {
        None => true,
        Some(pid) => !id_present(rows, pid),
    }
}

/// The parent chain of `c` reaches a root of the set within `fuel` steps.
pub open spec fn chain_reaches_root(rows: Seq<Comment>, c: Comment, fuel: nat) -> bool
    decreases fuel,
{
    ||| is_root_row(rows, c)
    ||| (fuel > 0 && exists|m: int|
        0 <= m < rows.len() && Some((#[trigger] rows[m]).id) == c.parent_id && chain_reaches_root(
            rows,
            rows[m],
            (fuel - 1) as nat,
        ))
}

/// Integrity of the stored forest: every row's parent chain terminates at a
/// root within the set (no cycles).
pub open spec fn comments_well_formed(rows: Seq<Comment>) -> bool {
    forall|k: int|
        0 <= k < rows.len() ==> chain_reaches_root(rows, #[trigger] rows[k], rows.len())
}

/// Reachability survives reordering of the row set.
proof fn lemma_chain_permutes(s: Seq<Comment>, t: Seq<Comment>, c: Comment, fuel: nat)
    requires
        s.to_multiset() == t.to_multiset(),
        chain_reaches_root(s, c, fuel),
    ensures
        chain_reaches_root(t, c, fuel),
    decreases fuel,
{
    broadcast use vstd::seq_lib::group_to_multiset_ensures;

    if is_root_row(s, c) {
        lemma_is_root_permutes(s, t, c);
    } else {
        let m = choose|m: int|
            0 <= m < s.len() && Some((#[trigger] s[m]).id) == c.parent_id && chain_reaches_root(
                s,
                s[m],
                (fuel - 1) as nat,
            );
        lemma_chain_permutes(s, t, s[m], (fuel - 1) as nat);
        assert(s.contains(s[m]));
        assert(s.to_multiset().count(s[m]) > 0);
        assert(t.to_multiset().count(s[m]) > 0);
        assert(t.contains(s[m]));
        let m2 = choose|m2: int| 0 <= m2 < t.len() && t[m2] == s[m];
        assert(Some(t[m2].id) == c.parent_id);
    }
}

/// Once every root is used and the used set is closed under attachment,
/// every row whose chain reaches a root is used.
proof fn lemma_reachable_used(rows: Seq<Comment>, u: Seq<bool>, k: int, fuel: nat)
    requires
        unique_comment_ids(rows),
        u.len() == rows.len(),
        used_closed_except(rows, u, Set::empty()),
        (forall|m: int| 0 <= m < rows.len() && is_root_row(rows, #[trigger] rows[m]) ==> u[m]),
        0 <= k < rows.len(),
        chain_reaches_root(rows, rows[k], fuel),
    ensures
        u[k],
    decreases fuel,
{
    if is_root_row(rows, rows[k]) {
    } else {
        let m = choose|m: int|
            0 <= m < rows.len() && Some((#[trigger] rows[m]).id) == rows[k].parent_id
                && chain_reaches_root(rows, rows[m], (fuel - 1) as nat);
        lemma_reachable_used(rows, u, m, (fuel - 1) as nat);
        assert(!Set::<int>::empty().contains(m));
        assert(children_attached(rows, u, m));
    }
}

/// No slot is unused exactly when every slot is used.
proof fn lemma_count_false_zero(u: Seq<bool>)
    ensures
        (count_false(u) == 0 <==> (forall|k: int| 0 <= k < u.len() ==> u[k])),
    decreases u.len(),
{
    if u.len() > 0 {
        lemma_count_false_zero(u.drop_last());
        assert(forall|k: int| 0 <= k < u.len() - 1 ==> u.drop_last()[k] == u[k]);
        if count_false(u) == 0 {
            assert forall|k: int| 0 <= k < u.len() implies u[k] by {
                if k < u.len() - 1 {
                    assert(u.drop_last()[k]);
                }
            }
        }
    }
}

/// True when some row of the set carries id `pid`.
fn id_present_exec(rows: &Vec<Comment>, pid: u128) -> (r: bool)
    ensures
        r == id_present(rows@, pid),
{
    let n = rows.len();
    for i in 0..n
        invariant
            n == rows@.len(),
            (forall|j: int| 0 <= j < i ==> (#[trigger] rows@[j]).id != pid),
    {
        if rows[i].id == pid {
            return true;
        }
    }
    false
}


/// Appending a freshly built subtree keeps the forest's ids distinct and
/// keeps every id witnessed by a used row: the old ids were used before the
/// build, the new subtree's ids were not (bar the new root itself).
proof fn lemma_forest_push_ids(
    srows: Seq<Comment>,
    ids_before: Seq<u128>,
    node: CommentNode,
    all: Seq<u128>,
    u_before: Seq<bool>,
    u_now: Seq<bool>,
    i: int,
)
    requires
        unique_comment_ids(srows),
        u_before.len() == srows.len(),
        u_now.len() == srows.len(),
        0 <= i < srows.len(),
        !u_before[i],
        all == ids_before + node_ids(node),
        ids_before.no_duplicates(),
        node_ids(node).no_duplicates(),
        (forall|k: int| 0 <= k < srows.len() && u_before.update(i, true)[k] ==> #[trigger] u_now[k]),
        (forall|x: u128|
            ids_before.contains(x) ==> exists|k: int|
                0 <= k < srows.len() && (#[trigger] srows[k]).id == x && u_before[k]),
        (forall|x: u128|
            node_ids(node).contains(x) ==> exists|k: int|
                0 <= k < srows.len() && (#[trigger] srows[k]).id == x && u_now[k] && (k == i
                    || !u_before.update(i, true)[k])),
    ensures
        all.no_duplicates(),
        (forall|x: u128|
            all.contains(x) ==> exists|k: int|
                0 <= k < srows.len() && (#[trigger] srows[k]).id == x && u_now[k]),
{
    assert forall|x: u128| all.contains(x) implies exists|k: int|
        0 <= k < srows.len() && (#[trigger] srows[k]).id == x && u_now[k] by {
        let b = choose|b: int| 0 <= b < all.len() && all[b] == x;
        if b < ids_before.len() {
            assert(ids_before.contains(x));
            let k = choose|k: int|
                0 <= k < srows.len() && (#[trigger] srows[k]).id == x && u_before[k];
            assert(u_before.update(i, true)[k]);
            assert(srows[k].id == x && u_now[k]);
        } else {
            assert(node_ids(node).contains(x));
        }
    }
    assert forall|a: int, b: int| 0 <= a < b < all.len() implies all[a] != all[b] by {
        if b < ids_before.len() {
            assert(all[a] == ids_before[a] && all[b] == ids_before[b]);
        } else if a >= ids_before.len() {
            assert(all[a] == node_ids(node)[a - ids_before.len()]);
            assert(all[b] == node_ids(node)[b - ids_before.len()]);
        } else {
            assert(all[a] == ids_before[a]);
            assert(all[b] == node_ids(node)[b - ids_before.len()]);
            assert(ids_before.contains(all[a]));
            assert(node_ids(node).contains(all[b]));
            let ka = choose|k: int|
                0 <= k < srows.len() && (#[trigger] srows[k]).id == all[a] && u_before[k];
            let kb = choose|k: int|
                0 <= k < srows.len() && (#[trigger] srows[k]).id == all[b] && u_now[k] && (k == i
                    || !u_before.update(i, true)[k]);
            assert(kb == i || !u_before[kb]);
            assert(ka != kb);
        }
    }
}

/// Rebuilds the forest from the flat rows of one post: rows are ordered
/// oldest first (ids break ties), each non-root row hangs under the row its
/// `parent_id` names, a dangling `parent_id` makes a root, and on corrupt,
/// cyclic data every row still appears exactly once and the builder
/// terminates.
#[verifier::rlimit(100)]
pub fn build_forest(rows: &Vec<Comment>) -> (forest: Vec<CommentNode>)
    requires
        unique_comment_ids(rows@),
    ensures
        forest_nodes_ok(rows@, forest@),
        forest_ids(forest@).no_duplicates(),
        forest_ids(forest@).len() == rows@.len(),
        (forall|x: u128| forest_ids(forest@).contains(x) ==> id_present(rows@, x)),
        (forall|k: int|
            0 <= k < rows@.len() && is_root_row(rows@, #[trigger] rows@[k]) ==> exists|r: int|
                0 <= r < forest@.len() && (#[trigger] forest@[r]).id == rows@[k].id),
        (comments_well_formed(rows@) ==> (forall|r: int|
            0 <= r < forest@.len() ==> node_is_root(rows@, #[trigger] forest@[r]))),
        (comments_well_formed(rows@) ==> nodes_sorted_asc(forest@)),
{
    let n = rows.len();
    let mut srows: Vec<Comment> = Vec::new();
    for idx in 0..n
        invariant
            n == rows@.len(),
            srows@ =~= rows@.take(idx as int),
    {
        srows.push(rows[idx].clone());
        proof {
            assert(srows@ =~= rows@.take(idx + 1 as int));
        }
    }
    proof {
        assert(srows@ =~= rows@);
    }
    sort_comments_asc_exec(&mut srows);
    proof {
        lemma_unique_comment_ids_permutes(rows@, srows@);
    }
    let mut used: Vec<bool> = Vec::new();
    let mut t: usize = 0;
    while t < n
        invariant
            t <= n,
            used@.len() == t,
            count_false(used@) == t,
            (forall|k: int| 0 <= k < t ==> !(#[trigger] used@[k])),
        decreases n - t,
    {
        let ghost ub = used@;
        used.push(false);
        proof {
            assert(used@.drop_last() =~= ub);
        }
        t = t + 1;
    }
    let mut forest: Vec<CommentNode> = Vec::new();
    let ghost mut rsrc: Seq<int> = Seq::empty();
    for i in 0..n
        invariant
            n == rows@.len(),
            n == srows@.len(),
            used@.len() == n,
            sorted_comments_asc(srows@),
            unique_comment_ids(srows@),
            srows@.to_multiset() == rows@.to_multiset(),
            used_closed_except(srows@, used@, Set::empty()),
            (forall|m: int|
                0 <= m < n && #[trigger] used@[m] ==> (!is_root_row(srows@, srows@[m]) || exists|
                    r: int,
                |
                    0 <= r < forest@.len() && (#[trigger] forest@[r]).id == srows@[m].id)),
            (forall|m: int|
                0 <= m < i && is_root_row(srows@, #[trigger] srows@[m]) ==> used@[m]),
            forest_nodes_ok(srows@, forest@),
            forest_ids(forest@).no_duplicates(),
            forest_ids(forest@).len() == n - count_false(used@),
            (forall|x: u128|
                forest_ids(forest@).contains(x) ==> exists|k: int|
                    0 <= k < n && (#[trigger] srows@[k]).id == x && used@[k]),
            (forall|r: int| 0 <= r < forest@.len() ==> node_is_root(srows@, #[trigger] forest@[r])),
            rsrc.len() == forest@.len(),
            (forall|r: int|
                0 <= r < rsrc.len() ==> 0 <= #[trigger] rsrc[r] < i && srows@[rsrc[r]].id
                    == forest@[r].id && srows@[rsrc[r]].created_at == forest@[r].created_at),
            (forall|a: int, b: int| 0 <= a < b < rsrc.len() ==> #[trigger] rsrc[a] < #[trigger] rsrc[b]),
    {
        let root_here = match srows[i].parent_id {
            None => true,
            Some(pid) => !id_present_exec(&srows, pid),
        };
        let already = used[i];
        if root_here && !already {
            let ghost u_before = used@;
            let ghost f_before = forest@;
            let ghost ids_before = forest_ids(forest@);
            used.set(i, true);
            proof {
                assert(used@ =~= u_before.update(i as int, true));
                lemma_count_false_set(u_before, i as int);
            }
            let node = build_node(&srows, i, &mut used, Ghost(Set::empty()));
            proof {
                lemma_forest_ids_push(forest@, node);
            }
            forest.push(node);
            proof {
                rsrc = rsrc.push(i as int);
                assert(forest@.drop_last() =~= f_before);
                assert(forest@[f_before.len() as int] == node);
                assert(forest_ids(forest@) == ids_before + node_ids(node));
                lemma_forest_push_ids(
                    srows@,
                    ids_before,
                    node,
                    forest_ids(forest@),
                    u_before,
                    used@,
                    i as int,
                );
                assert forall|r: int|
                    0 <= r < rsrc.len() implies 0 <= #[trigger] rsrc[r] < i + 1
                    && srows@[rsrc[r]].id == forest@[r].id && srows@[rsrc[r]].created_at
                    == forest@[r].created_at by {
                    if r < rsrc.len() - 1 {
                        assert(forest@[r] == f_before[r]);
                    }
                }
            }
        }
        proof {
            assert forall|m: int|
                0 <= m < i + 1 && is_root_row(srows@, #[trigger] srows@[m]) implies used@[m] by {}
        }
    }
    let ghost u1 = used@;
    let ghost f1 = forest@;
    let ghost rsrc1 = rsrc;
    let mut i2: usize = 0;
    while i2 < n
        invariant
            n == rows@.len(),
            n == srows@.len(),
            used@.len() == n,
            sorted_comments_asc(srows@),
            unique_comment_ids(srows@),
            srows@.to_multiset() == rows@.to_multiset(),
            used_closed_except(srows@, used@, Set::empty()),
            (forall|m: int| 0 <= m < n && u1[m] ==> #[trigger] used@[m]),
            (forall|m: int|
                0 <= m < n && #[trigger] used@[m] ==> (!is_root_row(srows@, srows@[m]) || exists|
                    r: int,
                |
                    0 <= r < forest@.len() && (#[trigger] forest@[r]).id == srows@[m].id)),
            (forall|m: int|
                0 <= m < n && is_root_row(srows@, #[trigger] srows@[m]) ==> used@[m]),
            (forall|m: int| 0 <= m < i2 ==> #[trigger] used@[m]),
            forest_nodes_ok(srows@, forest@),
            forest_ids(forest@).no_duplicates(),
            forest_ids(forest@).len() == n - count_false(used@),
            (forall|x: u128|
                forest_ids(forest@).contains(x) ==> exists|k: int|
                    0 <= k < n && (#[trigger] srows@[k]).id == x && used@[k]),
            (count_false(u1) == 0 ==> forest@ == f1 && used@ == u1),
            f1.len() <= forest@.len(),
            (forall|r: int|
                0 <= r < f1.len() ==> #[trigger] forest@[r] == f1[r]),
        decreases n - i2,
    {
        let already2 = used[i2];
        if !already2 {
            let ghost u_before = used@;
            let ghost f_before = forest@;
            let ghost ids_before = forest_ids(forest@);
            used.set(i2, true);
            proof {
                assert(used@ =~= u_before.update(i2 as int, true));
                lemma_count_false_set(u_before, i2 as int);
                lemma_count_false_zero(u1);
                assert(count_false(u1) != 0);
            }
            let node = build_node(&srows, i2, &mut used, Ghost(Set::empty()));
            proof {
                lemma_forest_ids_push(forest@, node);
            }
            forest.push(node);
            proof {
                assert(forest@.drop_last() =~= f_before);
                assert(forest_ids(forest@) == ids_before + node_ids(node));
                lemma_forest_push_ids(
                    srows@,
                    ids_before,
                    node,
                    forest_ids(forest@),
                    u_before,
                    used@,
                    i2 as int,
                );
            }
        }
        i2 = i2 + 1;
    }
    proof {
        lemma_count_false_zero(used@);
        assert(count_false(used@) == 0);
        assert(forest_ids(forest@).len() == rows@.len());
        lemma_forest_ok_permutes(srows@, rows@, forest@);
        assert forall|x: u128| forest_ids(forest@).contains(x) implies id_present(rows@, x) by {
            let k = choose|k: int| 0 <= k < n && (#[trigger] srows@[k]).id == x && used@[k];
            lemma_id_present_permutes(srows@, rows@, x);
        }
        broadcast use vstd::seq_lib::group_to_multiset_ensures;

        assert forall|k: int|
            0 <= k < rows@.len() && is_root_row(rows@, #[trigger] rows@[k]) implies exists|r: int|
            0 <= r < forest@.len() && (#[trigger] forest@[r]).id == rows@[k].id by {
            lemma_is_root_permutes(rows@, srows@, rows@[k]);
            assert(rows@.contains(rows@[k]));
            assert(rows@.to_multiset().count(rows@[k]) > 0);
            assert(srows@.to_multiset().count(rows@[k]) > 0);
            assert(srows@.contains(rows@[k]));
            let m = choose|m: int| 0 <= m < srows@.len() && srows@[m] == rows@[k];
            assert(is_root_row(srows@, srows@[m]));
            assert(used@[m]);
            let r = choose|r: int|
                0 <= r < forest@.len() && (#[trigger] forest@[r]).id == srows@[m].id;
        }
        if comments_well_formed(rows@) {
            assert forall|k: int| 0 <= k < n implies #[trigger] u1[k] by {
                assert(srows@.contains(srows@[k]));
                assert(srows@.to_multiset().count(srows@[k]) > 0);
                assert(rows@.to_multiset().count(srows@[k]) > 0);
                assert(rows@.contains(srows@[k]));
                let j = choose|j: int| 0 <= j < rows@.len() && rows@[j] == srows@[k];
                assert(chain_reaches_root(rows@, rows@[j], rows@.len()));
                lemma_chain_permutes(rows@, srows@, srows@[k], rows@.len());
                lemma_reachable_used(srows@, u1, k, rows@.len());
            }
            lemma_count_false_zero(u1);
            assert(forest@ == f1);
            assert forall|r: int|
                0 <= r < forest@.len() implies node_is_root(rows@, #[trigger] forest@[r]) by {
                assert(node_is_root(srows@, f1[r]));
                match forest@[r].parent_id {
                    None => {},
                    Some(pid) => {
                        if id_present(rows@, pid) {
                            lemma_id_present_permutes(rows@, srows@, pid);
                        }
                    },
                }
            }
            assert(nodes_sorted_asc(forest@)) by {
                assert forall|a: int, b: int|
                    0 <= a < b < forest@.len() implies (#[trigger] forest@[a]).created_at < (
                #[trigger] forest@[b]).created_at || (forest@[a].created_at
                    == forest@[b].created_at && forest@[a].id < forest@[b].id) by {
                    assert(forest@[a] == f1[a] && forest@[b] == f1[b]);
                    let ma = rsrc1[a];
                    let mb = rsrc1[b];
                    assert(ma < mb);
                    assert(!comment_lt(srows@[mb], srows@[ma]));
                    assert(srows@[ma].id != srows@[mb].id);
                }
            }
        }
    }
    forest
}
} // verus!
