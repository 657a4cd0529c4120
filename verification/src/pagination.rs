//! Keyset pagination over posts: the NEW ordering `(created_at DESC, id
//! DESC)` and the TOP ordering `(score DESC, created_at DESC, id DESC)`.
//! The trailing `id` component makes both orders total over distinct posts,
//! which is what keeps page boundaries from skipping or repeating rows. A
//! cursor is the key tuple of the last returned row and is used only as an
//! exclusive bound.

use vstd::prelude::*;

verus! {

use vstd::seq_lib::group_to_multiset_ensures;
use crate::error::AppError;
use crate::posts::Post;

broadcast use group_to_multiset_ensures;

/// Cursor for the NEW ordering: the `(created_at, id)` pair of the last row.
#[derive(Clone, Copy, PartialEq, Eq, Structural)]
pub struct NewKey {
    pub created_at: i64,
    pub id: u128,
}

/// Cursor for the TOP ordering: the `(score, created_at, id)` triple of the
/// last row.
#[derive(Clone, Copy, PartialEq, Eq, Structural)]
pub struct TopKey {
    pub score: i64,
    pub created_at: i64,
    pub id: u128,
}

pub open spec fn spec_new_key(p: Post) -> NewKey {
    NewKey { created_at: p.created_at, id: p.id }
}

pub open spec fn spec_top_key(p: Post) -> TopKey {
    TopKey { score: p.score, created_at: p.created_at, id: p.id }
}

/// Strictly later in the NEW listing: smaller `(created_at, id)` pair.
pub open spec fn new_lt(a: NewKey, b: NewKey) -> bool {
    a.created_at < b.created_at || (a.created_at == b.created_at && a.id < b.id)
}

/// Strictly later in the TOP listing: smaller `(score, created_at, id)`
/// triple.
pub open spec fn top_lt(a: TopKey, b: TopKey) -> bool {
    ||| a.score < b.score
    ||| (a.score == b.score && a.created_at < b.created_at)
    ||| (a.score == b.score && a.created_at == b.created_at && a.id < b.id)
}

/// A row is in the window of a NEW cursor when it lies strictly after it;
/// with no cursor the window is everything.
pub open spec fn in_new_window(after: Option<NewKey>, p: Post) -> bool {
    match after {
        None => true,
        Some(c) => new_lt(spec_new_key(p), c),
    }
}

pub open spec fn in_top_window(after: Option<TopKey>, p: Post) -> bool {
    match after {
        None => true,
        Some(c) => top_lt(spec_top_key(p), c),
    }
}

/// Descending NEW order, ties allowed: no earlier row is strictly later in
/// the listing than a later one.
pub open spec fn sorted_new_desc(s: Seq<Post>) -> bool {
    forall|i: int, j: int|
        0 <= i < j < s.len() ==> !new_lt(spec_new_key(#[trigger] s[i]), spec_new_key(#[trigger] s[j]))
}

pub open spec fn sorted_top_desc(s: Seq<Post>) -> bool {
    forall|i: int, j: int|
        0 <= i < j < s.len() ==> !top_lt(spec_top_key(#[trigger] s[i]), spec_top_key(#[trigger] s[j]))
}

/// No two rows share an id.
pub open spec fn unique_ids(s: Seq<Post>) -> bool {
    forall|i: int, j: int| 0 <= i < j < s.len() ==> (#[trigger] s[i]).id != (#[trigger] s[j]).id
}

pub(crate) fn new_lt_exec(a: &Post, b: &Post) -> (r: bool)
    ensures
        r == new_lt(spec_new_key(*a), spec_new_key(*b)),
{
    a.created_at < b.created_at || (a.created_at == b.created_at && a.id < b.id)
}

pub(crate) fn top_lt_exec(a: &Post, b: &Post) -> (r: bool)
    ensures
        r == top_lt(spec_top_key(*a), spec_top_key(*b)),
{
    a.score < b.score || (a.score == b.score && (a.created_at < b.created_at || (a.created_at
        == b.created_at && a.id < b.id)))
}

/// Two sequences with the same multiset of rows have the same ids; if one
/// has pairwise-distinct ids, so has the other.
proof fn lemma_unique_ids_preserved(s: Seq<Post>, t: Seq<Post>)
    requires
        unique_ids(s),
        s.to_multiset() == t.to_multiset(),
    ensures
        unique_ids(t),
{
    assert forall|a: int, b: int| 0 <= a < b < t.len() implies (#[trigger] t[a]).id != (
    #[trigger] t[b]).id by {
        if t[a] == t[b] {
            assert(t.remove(a).to_multiset() =~= t.to_multiset().remove(t[a]));
            assert(t.remove(a)[b - 1] == t[b]);
            assert(t.remove(a).contains(t[b]));
            assert(t.to_multiset().remove(t[a]).count(t[b]) > 0);
            assert(s.to_multiset().count(t[a]) >= 2);
            assert(s.contains(t[a]));
            let i = choose|i: int| 0 <= i < s.len() && s[i] == t[a];
            assert(s.remove(i).to_multiset() =~= s.to_multiset().remove(s[i]));
            assert(s.remove(i).to_multiset().count(t[a]) > 0);
            assert(s.remove(i).contains(t[a]));
            let j0 = choose|j0: int| 0 <= j0 < s.remove(i).len() && s.remove(i)[j0] == t[a];
            let j = if j0 < i {
                j0
            } else {
                j0 + 1
            };
            assert(s[j] == t[a] && j != i);
        } else {
            assert(t.contains(t[a]) && t.contains(t[b]));
            assert(s.to_multiset().count(t[a]) > 0 && s.to_multiset().count(t[b]) > 0);
            assert(s.contains(t[a]) && s.contains(t[b]));
            let i = choose|i: int| 0 <= i < s.len() && s[i] == t[a];
            let j = choose|j: int| 0 <= j < s.len() && s[j] == t[b];
            assert(i != j);
        }
    }
}

/// Insertion sort into descending NEW order; the rows are a permutation of
/// the input.
fn sort_new_desc_exec(v: &mut Vec<Post>)
    ensures
        final(v)@.to_multiset() == old(v)@.to_multiset(),
        final(v)@.len() == old(v)@.len(),
        sorted_new_desc(final(v)@),
{
    let ghost s0 = v@;
    if v.len() <= 1 {
        return ;
    }
    let mut i: usize = 1;
    while i < v.len()
        invariant
            1 <= i <= v@.len(),
            v@.len() == s0.len(),
            v@.to_multiset() == s0.to_multiset(),
            sorted_new_desc(v@.take(i as int)),
        decreases v@.len() - i,
    {
        let ghost before = v@;
        let x = v.remove(i);
        assert(v@.take(i as int) =~= before.take(i as int));
        let mut j: usize = 0;
        while j < i && !new_lt_exec(&v[j], &x)
            invariant
                0 <= j <= i,
                i < before.len(),
                v@ == before.remove(i as int),
                forall|k: int|
                    0 <= k < j ==> !new_lt(spec_new_key(#[trigger] v@[k]), spec_new_key(x)),
            decreases i - j,
        {
            j = j + 1;
        }
        let ghost mid = v@;
        v.insert(j, x);
        proof {
            assert(v@.take(i + 1 as int) =~= mid.take(i as int).insert(j as int, x));
            assert(v@.to_multiset() =~= s0.to_multiset()) by {
                assert(mid.to_multiset().insert(x) =~= before.to_multiset());
            }
            assert(sorted_new_desc(v@.take(i + 1 as int))) by {
                let t = v@.take(i + 1 as int);
                assert forall|a: int, b: int| 0 <= a < b < t.len() implies !new_lt(
                    spec_new_key(#[trigger] t[a]),
                    spec_new_key(#[trigger] t[b]),
                ) by {
                    let pre = mid.take(i as int);
                    assert(sorted_new_desc(pre));
                    if a < j && b < j {
                        assert(t[a] == pre[a] && t[b] == pre[b]);
                    } else if a < j && b == j {
                        assert(t[a] == pre[a] && t[b] == x);
                    } else if a < j && b > j {
                        assert(t[a] == pre[a] && t[b] == pre[b - 1]);
                    } else if a == j && b > j {
                        assert(t[a] == x && t[b] == pre[b - 1]);
                        if j < i {
                            assert(new_lt(spec_new_key(pre[j as int]), spec_new_key(x)));
                            if b - 1 > j {
                                assert(!new_lt(
                                    spec_new_key(pre[j as int]),
                                    spec_new_key(pre[b - 1]),
                                ));
                            }
                        }
                    } else {
                        assert(a > j && b > j);
                        assert(t[a] == pre[a - 1] && t[b] == pre[b - 1]);
                    }
                }
            }
        }
        i = i + 1;
    }
    proof {
        assert(v@.take(v@.len() as int) =~= v@);
    }
}


/// The keyset page contract for the NEW ordering: `items` is the strictly
/// descending prefix of the cursor's window, cut at `limit`; every window
/// row missing from a full page ranks strictly below the page's last row;
/// `next` is `None` exactly when the page came up short, else the key of the
/// last row.
pub open spec fn is_new_page(
    posts: Seq<Post>,
    after: Option<NewKey>,
    limit: int,
    items: Seq<Post>,
    next: Option<NewKey>,
) -> bool {
    &&& items.len() <= limit
    &&& (forall|i: int, j: int|
        0 <= i < j < items.len() ==> new_lt(
            spec_new_key(#[trigger] items[j]),
            spec_new_key(#[trigger] items[i]),
        ))
    &&& (forall|i: int|
        0 <= i < items.len() ==> posts.contains(#[trigger] items[i]) && in_new_window(
            after,
            items[i],
        ))
    &&& (forall|k: int|
        0 <= k < posts.len() && in_new_window(after, #[trigger] posts[k]) ==> items.contains(
            posts[k],
        ) || (items.len() == limit && new_lt(spec_new_key(posts[k]), spec_new_key(items.last()))))
    &&& (items.len() < limit <==> next is None)
    &&& (items.len() == limit ==> next == Some(spec_new_key(items.last())))
}

/// What a NEW listing call returns: the page and the cursor for the next
/// one, or the rejection.
pub type PageNewResult = Result<(Vec<Post>, Option<NewKey>), AppError>;

/// One page of the NEW listing: rows strictly after `after` (all rows when
/// `after` is `None`), newest first, at most `limit` of them, with the
/// cursor for the next page. A non-positive `limit` is rejected.
pub fn page_new(posts: &Vec<Post>, after: Option<NewKey>, limit: i64) -> (r: PageNewResult)
    requires
        unique_ids(posts@),
    ensures
        r is Err <==> limit <= 0,
        r matches Err(e) ==> e is Validation,
        r matches Ok(pr) ==> is_new_page(posts@, after, limit as int, pr.0@, pr.1),
{
    if limit <= 0 {
        return Err(AppError::validation("Limit must be greater than 0".to_owned()));
    }
    let mut win: Vec<Post> = Vec::new();
    let ghost mut srcs: Seq<int> = Seq::empty();
    let n = posts.len();
    for idx in 0..n
        invariant
            n == posts@.len(),
            unique_ids(posts@),
            unique_ids(win@),
            srcs.len() == win@.len(),
            (forall|i: int|
                0 <= i < srcs.len() ==> 0 <= #[trigger] srcs[i] < idx && posts@[srcs[i]]
                    == win@[i]),
            (forall|i: int| 0 <= i < win@.len() ==> in_new_window(after, #[trigger] win@[i])),
            (forall|k: int|
                0 <= k < idx && in_new_window(after, #[trigger] posts@[k]) ==> win@.contains(
                    posts@[k],
                )),
    {
        let keep = match &after {
            None => true,
            Some(c) => posts[idx].created_at < c.created_at || (posts[idx].created_at
                == c.created_at && posts[idx].id < c.id),
        };
        if keep {
            let ghost w0 = win@;
            win.push(posts[idx].clone());
            proof {
                srcs = srcs.push(idx as int);
                assert(win@[w0.len() as int] == posts@[idx as int]);
                assert(forall|i: int| 0 <= i < w0.len() ==> win@[i] == w0[i]);
                assert forall|a: int, b: int| 0 <= a < b < win@.len() implies (
                #[trigger] win@[a]).id != (#[trigger] win@[b]).id by {
                    assert(posts@[srcs[a]] == win@[a] && posts@[srcs[b]] == win@[b]);
                    assert(srcs[a] < srcs[b] || srcs[b] < srcs[a] || srcs[a] == srcs[b]);
                    if srcs[a] != srcs[b] {
                    } else {
                        assert(win@[a] == win@[b]);
                        assert(srcs[a] < idx && srcs[b] == idx || b < w0.len());
                        if b == w0.len() {
                            assert(srcs[b] == idx && srcs[a] < idx);
                        }
                    }
                }
                assert(win@.contains(posts@[idx as int]));
            }
        }
    }
    let ghost unsorted = win@;
    sort_new_desc_exec(&mut win);
    proof {
        lemma_unique_ids_preserved(unsorted, win@);
        assert forall|i: int| 0 <= i < win@.len() implies (exists|k: int|
            0 <= k < posts@.len() && posts@[k] == #[trigger] win@[i]) && in_new_window(
            after,
            win@[i],
        ) by {
            assert(win@.contains(win@[i]));
            assert(unsorted.to_multiset().count(win@[i]) > 0);
            assert(unsorted.contains(win@[i]));
            let m = choose|m: int| 0 <= m < unsorted.len() && unsorted[m] == win@[i];
            let k = srcs[m];
            assert(0 <= k < posts@.len() && posts@[k] == win@[i]);
        }
        assert forall|k: int|
            0 <= k < posts@.len() && in_new_window(after, #[trigger] posts@[k]) implies
            win@.contains(posts@[k]) by {
            assert(unsorted.contains(posts@[k]));
            assert(win@.to_multiset().count(posts@[k]) > 0);
        }
    }
    let ghost sorted_all = win@;
    let lim_u: u64 = limit as u64;
    if (win.len() as u64) > lim_u {
        proof {
            assert(limit as int <= win@.len());
        }
        win.truncate(limit as usize);
        proof {
            assert(win@ =~= sorted_all.take(limit as int));
        }
    } else {
        proof {
            assert(win@ =~= sorted_all.take(win@.len() as int));
        }
    }
    let next: Option<NewKey> = if win.len() as u64 == lim_u {
        let last = &win[win.len() - 1];
        Some(NewKey { created_at: last.created_at, id: last.id })
    } else {
        None
    };
    proof {
        let items = win@;
        assert forall|i: int, j: int| 0 <= i < j < items.len() implies new_lt(
            spec_new_key(#[trigger] items[j]),
            spec_new_key(#[trigger] items[i]),
        ) by {
            assert(items[i] == sorted_all[i] && items[j] == sorted_all[j]);
            assert(!new_lt(spec_new_key(sorted_all[i]), spec_new_key(sorted_all[j])));
            assert(sorted_all[i].id != sorted_all[j].id);
        }
        assert forall|k: int|
            0 <= k < posts@.len() && in_new_window(after, #[trigger] posts@[k]) implies items.contains(
            posts@[k],
        ) || (items.len() == limit && new_lt(
            spec_new_key(posts@[k]),
            spec_new_key(items.last()),
        )) by {
            assert(sorted_all.contains(posts@[k]));
            let m = choose|m: int| 0 <= m < sorted_all.len() && sorted_all[m] == posts@[k];
            if m < items.len() {
                assert(items[m] == sorted_all[m]);
                assert(items.contains(posts@[k]));
            } else {
                assert(items.len() == limit);
                let lastpos = items.len() - 1;
                assert(items.last() == sorted_all[lastpos]);
                assert(!new_lt(spec_new_key(sorted_all[lastpos]), spec_new_key(sorted_all[m])));
                assert(sorted_all[lastpos].id != sorted_all[m].id);
            }
        }
    }
    Ok((win, next))
}
/// Insertion sort into descending TOP order; the rows are a permutation of
/// the input.
fn sort_top_desc_exec(v: &mut Vec<Post>)
    ensures
        final(v)@.to_multiset() == old(v)@.to_multiset(),
        final(v)@.len() == old(v)@.len(),
        sorted_top_desc(final(v)@),
{
    let ghost s0 = v@;
    if v.len() <= 1 {
        return ;
    }
    let mut i: usize = 1;
    while i < v.len()
        invariant
            1 <= i <= v@.len(),
            v@.len() == s0.len(),
            v@.to_multiset() == s0.to_multiset(),
            sorted_top_desc(v@.take(i as int)),
        decreases v@.len() - i,
    {
        let ghost before = v@;
        let x = v.remove(i);
        assert(v@.take(i as int) =~= before.take(i as int));
        let mut j: usize = 0;
        while j < i && !top_lt_exec(&v[j], &x)
            invariant
                0 <= j <= i,
                i < before.len(),
                v@ == before.remove(i as int),
                forall|k: int|
                    0 <= k < j ==> !top_lt(spec_top_key(#[trigger] v@[k]), spec_top_key(x)),
            decreases i - j,
        {
            j = j + 1;
        }
        let ghost mid = v@;
        v.insert(j, x);
        proof {
            assert(v@.take(i + 1 as int) =~= mid.take(i as int).insert(j as int, x));
            assert(v@.to_multiset() =~= s0.to_multiset()) by {
                assert(mid.to_multiset().insert(x) =~= before.to_multiset());
            }
            assert(sorted_top_desc(v@.take(i + 1 as int))) by {
                let t = v@.take(i + 1 as int);
                assert forall|a: int, b: int| 0 <= a < b < t.len() implies !top_lt(
                    spec_top_key(#[trigger] t[a]),
                    spec_top_key(#[trigger] t[b]),
                ) by {
                    let pre = mid.take(i as int);
                    assert(sorted_top_desc(pre));
                    if a < j && b < j {
                        assert(t[a] == pre[a] && t[b] == pre[b]);
                    } else if a < j && b == j {
                        assert(t[a] == pre[a] && t[b] == x);
                    } else if a < j && b > j {
                        assert(t[a] == pre[a] && t[b] == pre[b - 1]);
                    } else if a == j && b > j {
                        assert(t[a] == x && t[b] == pre[b - 1]);
                        if j < i {
                            assert(top_lt(spec_top_key(pre[j as int]), spec_top_key(x)));
                            if b - 1 > j {
                                assert(!top_lt(
                                    spec_top_key(pre[j as int]),
                                    spec_top_key(pre[b - 1]),
                                ));
                            }
                        }
                    } else {
                        assert(a > j && b > j);
                        assert(t[a] == pre[a - 1] && t[b] == pre[b - 1]);
                    }
                }
            }
        }
        i = i + 1;
    }
    proof {
        assert(v@.take(v@.len() as int) =~= v@);
    }
}


/// The keyset page contract for the TOP ordering: `items` is the strictly
/// descending prefix of the cursor's window, cut at `limit`; every window
/// row missing from a full page ranks strictly below the page's last row;
/// `next` is `None` exactly when the page came up short, else the key of the
/// last row.
pub open spec fn is_top_page(
    posts: Seq<Post>,
    after: Option<TopKey>,
    limit: int,
    items: Seq<Post>,
    next: Option<TopKey>,
) -> bool {
    &&& items.len() <= limit
    &&& (forall|i: int, j: int|
        0 <= i < j < items.len() ==> top_lt(
            spec_top_key(#[trigger] items[j]),
            spec_top_key(#[trigger] items[i]),
        ))
    &&& (forall|i: int|
        0 <= i < items.len() ==> posts.contains(#[trigger] items[i]) && in_top_window(
            after,
            items[i],
        ))
    &&& (forall|k: int|
        0 <= k < posts.len() && in_top_window(after, #[trigger] posts[k]) ==> items.contains(
            posts[k],
        ) || (items.len() == limit && top_lt(spec_top_key(posts[k]), spec_top_key(items.last()))))
    &&& (items.len() < limit <==> next is None)
    &&& (items.len() == limit ==> next == Some(spec_top_key(items.last())))
}

/// What a TOP listing call returns: the page and the cursor for the next
/// one, or the rejection.
pub type PageTopResult = Result<(Vec<Post>, Option<TopKey>), AppError>;

/// One page of the TOP listing: rows strictly after `after` (all rows when
/// `after` is `None`), newest first, at most `limit` of them, with the
/// cursor for the next page. A non-positive `limit` is rejected.
pub fn page_top(posts: &Vec<Post>, after: Option<TopKey>, limit: i64) -> (r: PageTopResult)
    requires
        unique_ids(posts@),
    ensures
        r is Err <==> limit <= 0,
        r matches Err(e) ==> e is Validation,
        r matches Ok(pr) ==> is_top_page(posts@, after, limit as int, pr.0@, pr.1),
{
    if limit <= 0 {
        return Err(AppError::validation("Limit must be greater than 0".to_owned()));
    }
    let mut win: Vec<Post> = Vec::new();
    let ghost mut srcs: Seq<int> = Seq::empty();
    let n = posts.len();
    for idx in 0..n
        invariant
            n == posts@.len(),
            unique_ids(posts@),
            unique_ids(win@),
            srcs.len() == win@.len(),
            (forall|i: int|
                0 <= i < srcs.len() ==> 0 <= #[trigger] srcs[i] < idx && posts@[srcs[i]]
                    == win@[i]),
            (forall|i: int| 0 <= i < win@.len() ==> in_top_window(after, #[trigger] win@[i])),
            (forall|k: int|
                0 <= k < idx && in_top_window(after, #[trigger] posts@[k]) ==> win@.contains(
                    posts@[k],
                )),
    {
        let keep = match &after {
            None => true,
            Some(c) => posts[idx].score < c.score || (posts[idx].score == c.score
                && (posts[idx].created_at < c.created_at || (posts[idx].created_at == c.created_at
                && posts[idx].id < c.id))),
        };
        if keep {
            let ghost w0 = win@;
            win.push(posts[idx].clone());
            proof {
                srcs = srcs.push(idx as int);
                assert(win@[w0.len() as int] == posts@[idx as int]);
                assert(forall|i: int| 0 <= i < w0.len() ==> win@[i] == w0[i]);
                assert forall|a: int, b: int| 0 <= a < b < win@.len() implies (
                #[trigger] win@[a]).id != (#[trigger] win@[b]).id by {
                    assert(posts@[srcs[a]] == win@[a] && posts@[srcs[b]] == win@[b]);
                    assert(srcs[a] < srcs[b] || srcs[b] < srcs[a] || srcs[a] == srcs[b]);
                    if srcs[a] != srcs[b] {
                    } else {
                        assert(win@[a] == win@[b]);
                        assert(srcs[a] < idx && srcs[b] == idx || b < w0.len());
                        if b == w0.len() {
                            assert(srcs[b] == idx && srcs[a] < idx);
                        }
                    }
                }
                assert(win@.contains(posts@[idx as int]));
            }
        }
    }
    let ghost unsorted = win@;
    sort_top_desc_exec(&mut win);
    proof {
        lemma_unique_ids_preserved(unsorted, win@);
        assert forall|i: int| 0 <= i < win@.len() implies (exists|k: int|
            0 <= k < posts@.len() && posts@[k] == #[trigger] win@[i]) && in_top_window(
            after,
            win@[i],
        ) by {
            assert(win@.contains(win@[i]));
            assert(unsorted.to_multiset().count(win@[i]) > 0);
            assert(unsorted.contains(win@[i]));
            let m = choose|m: int| 0 <= m < unsorted.len() && unsorted[m] == win@[i];
            let k = srcs[m];
            assert(0 <= k < posts@.len() && posts@[k] == win@[i]);
        }
        assert forall|k: int|
            0 <= k < posts@.len() && in_top_window(after, #[trigger] posts@[k]) implies
            win@.contains(posts@[k]) by {
            assert(unsorted.contains(posts@[k]));
            assert(win@.to_multiset().count(posts@[k]) > 0);
        }
    }
    let ghost sorted_all = win@;
    let lim_u: u64 = limit as u64;
    if (win.len() as u64) > lim_u {
        proof {
            assert(limit as int <= win@.len());
        }
        win.truncate(limit as usize);
        proof {
            assert(win@ =~= sorted_all.take(limit as int));
        }
    } else {
        proof {
            assert(win@ =~= sorted_all.take(win@.len() as int));
        }
    }
    let next: Option<TopKey> = if win.len() as u64 == lim_u {
        let last = &win[win.len() - 1];
        Some(TopKey { score: last.score, created_at: last.created_at, id: last.id })
    } else {
        None
    };
    proof {
        let items = win@;
        assert forall|i: int, j: int| 0 <= i < j < items.len() implies top_lt(
            spec_top_key(#[trigger] items[j]),
            spec_top_key(#[trigger] items[i]),
        ) by {
            assert(items[i] == sorted_all[i] && items[j] == sorted_all[j]);
            assert(!top_lt(spec_top_key(sorted_all[i]), spec_top_key(sorted_all[j])));
            assert(sorted_all[i].id != sorted_all[j].id);
        }
        assert forall|k: int|
            0 <= k < posts@.len() && in_top_window(after, #[trigger] posts@[k]) implies items.contains(
            posts@[k],
        ) || (items.len() == limit && top_lt(
            spec_top_key(posts@[k]),
            spec_top_key(items.last()),
        )) by {
            assert(sorted_all.contains(posts@[k]));
            let m = choose|m: int| 0 <= m < sorted_all.len() && sorted_all[m] == posts@[k];
            if m < items.len() {
                assert(items[m] == sorted_all[m]);
                assert(items.contains(posts@[k]));
            } else {
                assert(items.len() == limit);
                let lastpos = items.len() - 1;
                assert(items.last() == sorted_all[lastpos]);
                assert(!top_lt(spec_top_key(sorted_all[lastpos]), spec_top_key(sorted_all[m])));
                assert(sorted_all[lastpos].id != sorted_all[m].id);
            }
        }
    }
    Ok((win, next))
}

/// Law: when the second TOP page is fetched with the cursor the first one
/// returned, every row of the second page ranks strictly below every row of
/// the first, whatever rows were inserted in between.
pub proof fn lemma_top_pages_key_disjoint(
    s1: Seq<Post>,
    s2: Seq<Post>,
    after: Option<TopKey>,
    limit: int,
    items1: Seq<Post>,
    k: TopKey,
    items2: Seq<Post>,
    next2: Option<TopKey>,
)
    requires
        is_top_page(s1, after, limit, items1, Some(k)),
        is_top_page(s2, Some(k), limit, items2, next2),
    ensures
        (forall|i: int, j: int|
            0 <= i < items1.len() && 0 <= j < items2.len() ==> top_lt(
                spec_top_key(#[trigger] items2[j]),
                spec_top_key(#[trigger] items1[i]),
            )),
{
    assert(items1.len() == limit);
    assert(k == spec_top_key(items1.last()));
    assert forall|i: int, j: int|
        0 <= i < items1.len() && 0 <= j < items2.len() implies top_lt(
        spec_top_key(#[trigger] items2[j]),
        spec_top_key(#[trigger] items1[i]),
    ) by {
        assert(in_top_window(Some(k), items2[j]));
        if i < items1.len() - 1 {
            assert(top_lt(spec_top_key(items1[items1.len() - 1]), spec_top_key(items1[i])));
        } else {
            assert(items1[i] == items1.last());
        }
    }
}

/// Law: a row never appears in two consecutive TOP pages: the second page,
/// fetched with the first page's cursor, repeats none of its rows.
pub proof fn lemma_top_pages_no_repeat(
    s1: Seq<Post>,
    s2: Seq<Post>,
    after: Option<TopKey>,
    limit: int,
    items1: Seq<Post>,
    k: TopKey,
    items2: Seq<Post>,
    next2: Option<TopKey>,
)
    requires
        is_top_page(s1, after, limit, items1, Some(k)),
        is_top_page(s2, Some(k), limit, items2, next2),
    ensures
        (forall|x: Post| items1.contains(x) ==> !(#[trigger] items2.contains(x))),
{
    lemma_top_pages_key_disjoint(s1, s2, after, limit, items1, k, items2, next2);
    assert forall|x: Post| items1.contains(x) implies !(#[trigger] items2.contains(x)) by {
        if items2.contains(x) {
            let i = choose|i: int| 0 <= i < items1.len() && items1[i] == x;
            let j = choose|j: int| 0 <= j < items2.len() && items2[j] == x;
            assert(top_lt(spec_top_key(items2[j]), spec_top_key(items1[i])));
        }
    }
}

/// Law: a row present in the dataset of both fetches and lying in the first
/// page's window is never skipped: it is on one of the two pages, or still
/// ranks below the second page's last row and so belongs to a later page.
pub proof fn lemma_top_pages_no_skip(
    s1: Seq<Post>,
    s2: Seq<Post>,
    after: Option<TopKey>,
    limit: int,
    items1: Seq<Post>,
    k: TopKey,
    items2: Seq<Post>,
    next2: Option<TopKey>,
    x: Post,
)
    requires
        is_top_page(s1, after, limit, items1, Some(k)),
        is_top_page(s2, Some(k), limit, items2, next2),
        s1.contains(x),
        s2.contains(x),
        in_top_window(after, x),
    ensures
        items1.contains(x) || items2.contains(x) || (items2.len() == limit && top_lt(
            spec_top_key(x),
            spec_top_key(items2.last()),
        )),
{
    let i = choose|i: int| 0 <= i < s1.len() && s1[i] == x;
    assert(in_top_window(after, s1[i]));
    if !items1.contains(x) {
        assert(items1.len() == limit && top_lt(spec_top_key(x), spec_top_key(items1.last())));
        assert(k == spec_top_key(items1.last()));
        let j = choose|j: int| 0 <= j < s2.len() && s2[j] == x;
        assert(in_top_window(Some(k), s2[j]));
    }
}
/// Law: when the second NEW page is fetched with the cursor the first one
/// returned, every row of the second page ranks strictly below every row of
/// the first, whatever rows were inserted in between.
pub proof fn lemma_new_pages_key_disjoint(
    s1: Seq<Post>,
    s2: Seq<Post>,
    after: Option<NewKey>,
    limit: int,
    items1: Seq<Post>,
    k: NewKey,
    items2: Seq<Post>,
    next2: Option<NewKey>,
)
    requires
        is_new_page(s1, after, limit, items1, Some(k)),
        is_new_page(s2, Some(k), limit, items2, next2),
    ensures
        (forall|i: int, j: int|
            0 <= i < items1.len() && 0 <= j < items2.len() ==> new_lt(
                spec_new_key(#[trigger] items2[j]),
                spec_new_key(#[trigger] items1[i]),
            )),
{
    assert(items1.len() == limit);
    assert(k == spec_new_key(items1.last()));
    assert forall|i: int, j: int|
        0 <= i < items1.len() && 0 <= j < items2.len() implies new_lt(
        spec_new_key(#[trigger] items2[j]),
        spec_new_key(#[trigger] items1[i]),
    ) by {
        assert(in_new_window(Some(k), items2[j]));
        if i < items1.len() - 1 {
            assert(new_lt(spec_new_key(items1[items1.len() - 1]), spec_new_key(items1[i])));
        } else {
            assert(items1[i] == items1.last());
        }
    }
}

/// Law: a row never appears in two consecutive NEW pages: the second page,
/// fetched with the first page's cursor, repeats none of its rows.
pub proof fn lemma_new_pages_no_repeat(
    s1: Seq<Post>,
    s2: Seq<Post>,
    after: Option<NewKey>,
    limit: int,
    items1: Seq<Post>,
    k: NewKey,
    items2: Seq<Post>,
    next2: Option<NewKey>,
)
    requires
        is_new_page(s1, after, limit, items1, Some(k)),
        is_new_page(s2, Some(k), limit, items2, next2),
    ensures
        (forall|x: Post| items1.contains(x) ==> !(#[trigger] items2.contains(x))),
{
    lemma_new_pages_key_disjoint(s1, s2, after, limit, items1, k, items2, next2);
    assert forall|x: Post| items1.contains(x) implies !(#[trigger] items2.contains(x)) by {
        if items2.contains(x) {
            let i = choose|i: int| 0 <= i < items1.len() && items1[i] == x;
            let j = choose|j: int| 0 <= j < items2.len() && items2[j] == x;
            assert(new_lt(spec_new_key(items2[j]), spec_new_key(items1[i])));
        }
    }
}

/// Law: a row present in the dataset of both fetches and lying in the first
/// page's window is never skipped: it is on one of the two pages, or still
/// ranks below the second page's last row and so belongs to a later page.
pub proof fn lemma_new_pages_no_skip(
    s1: Seq<Post>,
    s2: Seq<Post>,
    after: Option<NewKey>,
    limit: int,
    items1: Seq<Post>,
    k: NewKey,
    items2: Seq<Post>,
    next2: Option<NewKey>,
    x: Post,
)
    requires
        is_new_page(s1, after, limit, items1, Some(k)),
        is_new_page(s2, Some(k), limit, items2, next2),
        s1.contains(x),
        s2.contains(x),
        in_new_window(after, x),
    ensures
        items1.contains(x) || items2.contains(x) || (items2.len() == limit && new_lt(
            spec_new_key(x),
            spec_new_key(items2.last()),
        )),
{
    let i = choose|i: int| 0 <= i < s1.len() && s1[i] == x;
    assert(in_new_window(after, s1[i]));
    if !items1.contains(x) {
        assert(items1.len() == limit && new_lt(spec_new_key(x), spec_new_key(items1.last())));
        assert(k == spec_new_key(items1.last()));
        let j = choose|j: int| 0 <= j < s2.len() && s2[j] == x;
        assert(in_new_window(Some(k), s2[j]));
    }
}
} // verus!
