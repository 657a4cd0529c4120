//! The vote ledger: at most one live vote per `(user, post)` pair, a
//! three-way state machine (insert, flip, retract), and the aggregate score
//! of a post as the sum of its live votes.

use vstd::prelude::*;

verus! {

/// A live vote. `value` is `+1` or `-1`; absence of a record means "no vote".
#[derive(Clone, Copy, PartialEq, Eq, Structural)]
pub struct Vote {
    pub user_id: u128,
    pub post_id: u128,
    pub value: i8,
}

/// True when a live vote by `u` on `p` is in the ledger.
pub open spec fn has_vote(s: Seq<Vote>, u: u128, p: u128) -> bool {
    exists|i: int| 0 <= i < s.len() && (#[trigger] s[i]).user_id == u && s[i].post_id == p
}

/// Well-formed ledger: one vote per `(user, post)` pair, values `+1`/`-1`.
pub open spec fn votes_wf(s: Seq<Vote>) -> bool {
    &&& forall|i: int, j: int|
        0 <= i < j < s.len() ==> ((#[trigger] s[i]).user_id != (#[trigger] s[j]).user_id
            || s[i].post_id != s[j].post_id)
    &&& forall|i: int| 0 <= i < s.len() ==> ((#[trigger] s[i]).value == 1 || s[i].value == -1)
}

/// The live vote of `u` on `p`: `Some(value)` or `None`. Well-defined on a
/// well-formed ledger, where the matching record is unique.
pub open spec fn vote_state(s: Seq<Vote>, u: u128, p: u128) -> Option<int> {
    if has_vote(s, u, p) {
        let i = choose|i: int|
            0 <= i < s.len() && (#[trigger] s[i]).user_id == u && s[i].post_id == p;
        Some(s[i].value as int)
    } else {
        None
    }
}

/// The aggregate score of post `p`: the sum of its live vote values.
pub open spec fn sum_votes(s: Seq<Vote>, p: u128) -> int
    decreases s.len(),
{
    if s.len() == 0 {
        0
    } else {
        sum_votes(s.drop_last(), p) + if s.last().post_id == p {
            s.last().value as int
        } else {
            0
        }
    }
}

/// The vote record after one cast: no record inserts, the same value
/// retracts, the opposite value flips.
pub open spec fn next_vote_state(prev: Option<int>, v: int) -> Option<int> {
    match prev {
        None => Some(v),
        Some(w) => if w == v {
            None
        } else {
            Some(v)
        },
    }
}

/// The score change one cast produces: `v` on insert, `-v` on retract,
/// `2 * v` on flip.
pub open spec fn vote_delta(prev: Option<int>, v: int) -> int {
    match prev {
        None => v,
        Some(w) => if w == v {
            -v
        } else {
            2 * v
        },
    }
}

/// `new` is the ledger after `u` casts `v` on `p` over `old`: the pair's
/// record steps through the state machine, every other pair is untouched,
/// and every post's sum moves by exactly the delta of this cast.
pub open spec fn vote_applied(old: Seq<Vote>, new: Seq<Vote>, u: u128, p: u128, v: int) -> bool {
    &&& votes_wf(new)
    &&& vote_state(new, u, p) == next_vote_state(vote_state(old, u, p), v)
    &&& forall|u2: u128, p2: u128|
        (u2 != u || p2 != p) ==> #[trigger] vote_state(new, u2, p2) == vote_state(old, u2, p2)
    &&& forall|q: u128|
        #[trigger] sum_votes(new, q) == sum_votes(old, q) + if q == p {
            vote_delta(vote_state(old, u, p), v)
        } else {
            0
        }
}

/// On a well-formed ledger, any record matching `(u, p)` gives the pair's
/// vote state.
pub proof fn lemma_vote_state_unique(s: Seq<Vote>, u: u128, p: u128, i: int)
    requires
        votes_wf(s),
        0 <= i < s.len(),
        s[i].user_id == u,
        s[i].post_id == p,
    ensures
        vote_state(s, u, p) == Some(s[i].value as int),
{
    assert(has_vote(s, u, p));
    let j = choose|j: int| 0 <= j < s.len() && (#[trigger] s[j]).user_id == u && s[j].post_id == p;
    if i < j {
        assert(s[i].user_id != s[j].user_id || s[i].post_id != s[j].post_id);
    } else if j < i {
        assert(s[j].user_id != s[i].user_id || s[j].post_id != s[i].post_id);
    }
}

/// Appending a record adds its value to its post's sum and no other.
pub proof fn lemma_sum_push(s: Seq<Vote>, r: Vote, q: u128)
    ensures
        sum_votes(s.push(r), q) == sum_votes(s, q) + if r.post_id == q {
            r.value as int
        } else {
            0
        },
{
    assert(s.push(r).drop_last() =~= s);
}

/// Removing the record at `i` subtracts its value from its post's sum and no
/// other.
pub proof fn lemma_sum_remove(s: Seq<Vote>, i: int, q: u128)
    requires
        0 <= i < s.len(),
    ensures
        sum_votes(s.remove(i), q) == sum_votes(s, q) - if s[i].post_id == q {
            s[i].value as int
        } else {
            0
        },
    decreases s.len(),
{
    if i == s.len() - 1 {
        assert(s.remove(i) =~= s.drop_last());
    } else {
        assert(s.remove(i).drop_last() =~= s.drop_last().remove(i));
        assert(s.remove(i).last() == s.last());
        lemma_sum_remove(s.drop_last(), i, q);
    }
}

/// Overwriting the record at `i` moves its old post's sum down by the old
/// value and the new post's sum up by the new one.
pub proof fn lemma_sum_update(s: Seq<Vote>, i: int, r: Vote, q: u128)
    requires
        0 <= i < s.len(),
    ensures
        sum_votes(s.update(i, r), q) == sum_votes(s, q) - (if s[i].post_id == q {
            s[i].value as int
        } else {
            0
        }) + (if r.post_id == q {
            r.value as int
        } else {
            0
        }),
    decreases s.len(),
{
    if i == s.len() - 1 {
        assert(s.update(i, r).drop_last() =~= s.drop_last());
        assert(s.update(i, r).last() == r);
    } else {
        assert(s.update(i, r).drop_last() =~= s.drop_last().update(i, r));
        assert(s.update(i, r).last() == s.last());
        lemma_sum_update(s.drop_last(), i, r, q);
    }
}

/// A post no vote names has sum zero.
pub proof fn lemma_sum_zero_when_absent(s: Seq<Vote>, q: u128)
    requires
        forall|i: int| 0 <= i < s.len() ==> (#[trigger] s[i]).post_id != q,
    ensures
        sum_votes(s, q) == 0,
    decreases s.len(),
{
    if s.len() > 0 {
        lemma_sum_zero_when_absent(s.drop_last(), q);
    }
}

/// Finds the index of the live vote of `u` on `p`, if one is in the ledger.
pub(crate) fn find_vote_idx(votes: &Vec<Vote>, u: u128, p: u128) -> (r: Option<usize>)
    ensures
        match r {
            Some(i) => i < votes@.len() && votes@[i as int].user_id == u && votes@[i as int].post_id
                == p,
            None => !has_vote(votes@, u, p),
        },
{
    let n = votes.len();
    for i in 0..n
        invariant
            n == votes@.len(),
            forall|j: int| 0 <= j < i ==> !((#[trigger] votes@[j]).user_id == u && votes@[j].post_id == p),
    {
        if votes[i].user_id == u && votes[i].post_id == p {
            return Some(i);
        }
    }
    None
}

/// Applies one cast to the ledger: insert on no record, retract on the same
/// value, flip on the opposite one.
pub(crate) fn apply_vote(votes: &mut Vec<Vote>, user_id: u128, post_id: u128, value: i8)
    requires
        votes_wf(old(votes)@),
        value == 1 || value == -1,
        old(votes)@.len() < 0x7fff_ffff_ffff_ffff,
    ensures
        vote_applied(old(votes)@, final(votes)@, user_id, post_id, value as int),
        final(votes)@.len() <= old(votes)@.len() + 1,
        (forall|k: int|
            0 <= k < final(votes)@.len() ==> old(votes)@.contains(#[trigger] final(votes)@[k]) || (
            final(votes)@[k].user_id == user_id && final(votes)@[k].post_id == post_id)),
{
    let ghost s0 = votes@;
    match find_vote_idx(votes, user_id, post_id) {
        None => {
            let r = Vote { user_id, post_id, value };
            votes.push(r);
            proof {
                assert forall|q: u128| #[trigger]
                    sum_votes(votes@, q) == sum_votes(s0, q) + if q == post_id {
                        vote_delta(vote_state(s0, user_id, post_id), value as int)
                    } else {
                        0
                    } by {
                    lemma_sum_push(s0, r, q);
                }
                assert(votes_wf(votes@)) by {
                    assert(forall|i: int|
                        0 <= i < s0.len() ==> votes@[i] == s0[i]);
                }
                lemma_vote_state_unique(votes@, user_id, post_id, s0.len() as int);
                assert forall|k: int|
                    0 <= k < votes@.len() implies s0.contains(#[trigger] votes@[k]) || (
                votes@[k].user_id == user_id && votes@[k].post_id == post_id) by {
                    if k < s0.len() {
                        assert(s0[k] == votes@[k]);
                    }
                }
                assert forall|u2: u128, p2: u128| (u2 != user_id || p2 != post_id) implies #[trigger]
                    vote_state(votes@, u2, p2) == vote_state(s0, u2, p2) by {
                    assert forall|k: int|
                        0 <= k < s0.len() && (#[trigger] s0[k]).user_id == u2 && s0[k].post_id
                            == p2 implies exists|j: int|
                        0 <= j < votes@.len() && #[trigger] votes@[j] == s0[k] by {
                        assert(votes@[k] == s0[k]);
                    }
                    assert forall|j: int|
                        0 <= j < votes@.len() && (#[trigger] votes@[j]).user_id == u2
                            && votes@[j].post_id == p2 implies exists|k: int|
                        0 <= k < s0.len() && #[trigger] s0[k] == votes@[j] by {
                        assert(s0[j] == votes@[j]);
                    }
                    lemma_state_frame(s0, votes@, u2, p2);
                }
            }
        },
        Some(i) => {
            proof {
                lemma_vote_state_unique(s0, user_id, post_id, i as int);
            }
            if votes[i].value == value {
                // Same value cast again: retract the vote.
                votes.remove(i);
                proof {
                    assert forall|q: u128| #[trigger]
                        sum_votes(votes@, q) == sum_votes(s0, q) + if q == post_id {
                            vote_delta(vote_state(s0, user_id, post_id), value as int)
                        } else {
                            0
                        } by {
                        lemma_sum_remove(s0, i as int, q);
                    }
                    assert(votes_wf(votes@)) by {
                        assert(forall|k: int|
                            0 <= k < votes@.len() ==> votes@[k] == (if k < i {
                                s0[k]
                            } else {
                                s0[k + 1]
                            }));
                    }
                    assert forall|k: int|
                        0 <= k < votes@.len() implies s0.contains(#[trigger] votes@[k]) || (
                    votes@[k].user_id == user_id && votes@[k].post_id == post_id) by {
                        if k < i {
                            assert(s0[k] == votes@[k]);
                        } else {
                            assert(s0[k + 1] == votes@[k]);
                        }
                    }
                    assert(!has_vote(votes@, user_id, post_id)) by {
                        if has_vote(votes@, user_id, post_id) {
                            let k = choose|k: int|
                                0 <= k < votes@.len() && (#[trigger] votes@[k]).user_id == user_id
                                    && votes@[k].post_id == post_id;
                            let k0 = if k < i {
                                k
                            } else {
                                k + 1
                            };
                            assert(s0[k0] == votes@[k]);
                            assert(s0[i as int].user_id == user_id && s0[i as int].post_id
                                == post_id);
                        }
                    }
                    assert forall|u2: u128, p2: u128| (u2 != user_id || p2 != post_id) implies
                        #[trigger] vote_state(votes@, u2, p2) == vote_state(s0, u2, p2) by {
                        assert forall|k: int|
                            0 <= k < s0.len() && (#[trigger] s0[k]).user_id == u2 && s0[k].post_id
                                == p2 implies exists|j: int|
                            0 <= j < votes@.len() && #[trigger] votes@[j] == s0[k] by {
                            if k < i {
                                assert(votes@[k] == s0[k]);
                            } else {
                                assert(k > i);
                                assert(votes@[k - 1] == s0[k]);
                            }
                        }
                        assert forall|j: int|
                            0 <= j < votes@.len() && (#[trigger] votes@[j]).user_id == u2
                                && votes@[j].post_id == p2 implies exists|k: int|
                            0 <= k < s0.len() && #[trigger] s0[k] == votes@[j] by {
                            if j < i {
                                assert(s0[j] == votes@[j]);
                            } else {
                                assert(s0[j + 1] == votes@[j]);
                            }
                        }
                        lemma_state_frame(s0, votes@, u2, p2);
                    }
                }
            } else {
                // Opposite value: flip the vote in place.
                let r = Vote { user_id, post_id, value };
                votes.remove(i);
                votes.insert(i, r);
                proof {
                    assert(votes@ =~= s0.update(i as int, r));
                    assert forall|q: u128| #[trigger]
                        sum_votes(votes@, q) == sum_votes(s0, q) + if q == post_id {
                            vote_delta(vote_state(s0, user_id, post_id), value as int)
                        } else {
                            0
                        } by {
                        lemma_sum_update(s0, i as int, r, q);
                    }
                    assert(votes_wf(votes@)) by {
                        assert(forall|k: int|
                            0 <= k < votes@.len() && k != i ==> votes@[k] == s0[k]);
                    }
                    lemma_vote_state_unique(votes@, user_id, post_id, i as int);
                    assert forall|k: int|
                        0 <= k < votes@.len() implies s0.contains(#[trigger] votes@[k]) || (
                    votes@[k].user_id == user_id && votes@[k].post_id == post_id) by {
                        if k != i {
                            assert(s0[k] == votes@[k]);
                        }
                    }
                    assert forall|u2: u128, p2: u128| (u2 != user_id || p2 != post_id) implies
                        #[trigger] vote_state(votes@, u2, p2) == vote_state(s0, u2, p2) by {
                        assert forall|k: int|
                            0 <= k < s0.len() && (#[trigger] s0[k]).user_id == u2 && s0[k].post_id
                                == p2 implies exists|j: int|
                            0 <= j < votes@.len() && #[trigger] votes@[j] == s0[k] by {
                            assert(k != i);
                            assert(votes@[k] == s0[k]);
                        }
                        assert forall|j: int|
                            0 <= j < votes@.len() && (#[trigger] votes@[j]).user_id == u2
                                && votes@[j].post_id == p2 implies exists|k: int|
                            0 <= k < s0.len() && #[trigger] s0[k] == votes@[j] by {
                            assert(j != i);
                            assert(s0[j] == votes@[j]);
                        }
                        lemma_state_frame(s0, votes@, u2, p2);
                    }
                }
            }
        },
    }
}

/// Two ledgers that agree on which records match `(u2, p2)` agree on that
/// pair's state: used to frame the untouched pairs across one cast.
proof fn lemma_state_frame(a: Seq<Vote>, b: Seq<Vote>, u2: u128, p2: u128)
    requires
        forall|i: int|
            0 <= i < a.len() && (#[trigger] a[i]).user_id == u2 && a[i].post_id == p2
                ==> exists|j: int|
                0 <= j < b.len() && #[trigger] b[j] == a[i],
        forall|j: int|
            0 <= j < b.len() && (#[trigger] b[j]).user_id == u2 && b[j].post_id == p2
                ==> exists|i: int|
                0 <= i < a.len() && #[trigger] a[i] == b[j],
        votes_wf(a),
        votes_wf(b),
    ensures
        vote_state(a, u2, p2) == vote_state(b, u2, p2),
{
    if has_vote(a, u2, p2) {
        let i = choose|i: int|
            0 <= i < a.len() && (#[trigger] a[i]).user_id == u2 && a[i].post_id == p2;
        let j = choose|j: int| 0 <= j < b.len() && #[trigger] b[j] == a[i];
        lemma_vote_state_unique(a, u2, p2, i);
        lemma_vote_state_unique(b, u2, p2, j);
    } else if has_vote(b, u2, p2) {
        let j = choose|j: int|
            0 <= j < b.len() && (#[trigger] b[j]).user_id == u2 && b[j].post_id == p2;
        let i = choose|i: int| 0 <= i < a.len() && #[trigger] a[i] == b[j];
        assert(has_vote(a, u2, p2));
    }
}

/// Recomputes the authoritative score of `p`: the sum of its live votes.
pub(crate) fn compute_score(votes: &Vec<Vote>, p: u128) -> (r: i64)
    requires
        votes_wf(votes@),
        votes@.len() < 0x8000_0000_0000_0000,
    ensures
        r as int == sum_votes(votes@, p),
{
    let n = votes.len();
    let mut acc: i64 = 0;
    for i in 0..n
        invariant
            n == votes@.len(),
            n < 0x8000_0000_0000_0000,
            votes_wf(votes@),
            acc as int == sum_votes(votes@.take(i as int), p),
            -(i as int) <= acc as int <= i as int,
    {
        proof {
            assert(votes@.take(i + 1).drop_last() =~= votes@.take(i as int));
            assert(votes@.take(i + 1).last() == votes@[i as int]);
        }
        if votes[i].post_id == p {
            acc = acc + votes[i].value as i64;
        }
    }
    proof {
        assert(votes@.take(n as int) =~= votes@);
    }
    acc
}


/// Law: on a fresh `(user, post)` pair, casting `+1` twice first inserts
/// (delta `+1`) and then retracts (delta `-1`), leaving no live vote and the
/// baseline score.
pub proof fn lemma_double_upvote_retracts(
    s0: Seq<Vote>,
    s1: Seq<Vote>,
    s2: Seq<Vote>,
    u: u128,
    p: u128,
)
    requires
        votes_wf(s0),
        vote_state(s0, u, p) is None,
        vote_applied(s0, s1, u, p, 1),
        vote_applied(s1, s2, u, p, 1),
    ensures
        sum_votes(s1, p) == sum_votes(s0, p) + 1,
        sum_votes(s2, p) == sum_votes(s1, p) - 1,
        sum_votes(s2, p) == sum_votes(s0, p),
        vote_state(s2, u, p) is None,
{
}

/// Law: on a fresh `(user, post)` pair, `+1` then `-1` flips the vote for a
/// net delta of `-2`, and a further `-1` retracts it, returning the score to
/// the baseline.
pub proof fn lemma_flip_then_retract(
    s0: Seq<Vote>,
    s1: Seq<Vote>,
    s2: Seq<Vote>,
    s3: Seq<Vote>,
    u: u128,
    p: u128,
)
    requires
        votes_wf(s0),
        vote_state(s0, u, p) is None,
        vote_applied(s0, s1, u, p, 1),
        vote_applied(s1, s2, u, p, -1),
        vote_applied(s2, s3, u, p, -1),
    ensures
        sum_votes(s1, p) == sum_votes(s0, p) + 1,
        sum_votes(s2, p) == sum_votes(s1, p) - 2,
        sum_votes(s3, p) == sum_votes(s2, p) + 1,
        sum_votes(s3, p) == sum_votes(s0, p),
        vote_state(s3, u, p) is None,
{
}

/// One cast in a recorded run: who voted, on which post, with which value.
pub struct CastOp {
    pub user_id: u128,
    pub post_id: u128,
    pub value: int,
}

/// `fin` is reachable from `init` by applying the casts of `ops` in order.
pub open spec fn votes_applied_seq(init: Seq<Vote>, fin: Seq<Vote>, ops: Seq<CastOp>) -> bool
    decreases ops.len(),
{
    if ops.len() == 0 {
        fin == init
    } else {
        exists|mid: Seq<Vote>|
            votes_applied_seq(init, mid, ops.drop_last()) && #[trigger] vote_applied(
                mid,
                fin,
                ops.last().user_id,
                ops.last().post_id,
                ops.last().value,
            )
    }
}

/// The vote state of `(u, p)` after folding the state machine serially over
/// `ops`, starting from `init`.
pub open spec fn pair_state_after(init: Seq<Vote>, ops: Seq<CastOp>, u: u128, p: u128) -> Option<
    int,
>
    decreases ops.len(),
{
    if ops.len() == 0 {
        vote_state(init, u, p)
    } else {
        let prev = pair_state_after(init, ops.drop_last(), u, p);
        if ops.last().user_id == u && ops.last().post_id == p {
            next_vote_state(prev, ops.last().value)
        } else {
            prev
        }
    }
}

/// The total score change of post `q` from folding the state machine
/// serially over `ops`.
pub open spec fn ops_delta(init: Seq<Vote>, ops: Seq<CastOp>, q: u128) -> int
    decreases ops.len(),
{
    if ops.len() == 0 {
        0
    } else {
        ops_delta(init, ops.drop_last(), q) + if ops.last().post_id == q {
            vote_delta(
                pair_state_after(init, ops.drop_last(), ops.last().user_id, ops.last().post_id),
                ops.last().value,
            )
        } else {
            0
        }
    }
}

pub proof fn lemma_votes_serializable(init: Seq<Vote>, fin: Seq<Vote>, ops: Seq<CastOp>)
    requires
        votes_wf(init),
        votes_applied_seq(init, fin, ops),
    ensures
        votes_wf(fin),
        (forall|u: u128, p: u128|
            #![trigger vote_state(fin, u, p)]
            vote_state(fin, u, p) == pair_state_after(init, ops, u, p)),
        (forall|q: u128|
            #![trigger sum_votes(fin, q)]
            sum_votes(fin, q) == sum_votes(init, q) + ops_delta(init, ops, q)),
    decreases ops.len(),
{
    if ops.len() > 0 {
        let mid = (choose|mid: Seq<Vote>|
            votes_applied_seq(init, mid, ops.drop_last()) && #[trigger] vote_applied(
                mid,
                fin,
                ops.last().user_id,
                ops.last().post_id,
                ops.last().value,
            ));
        lemma_votes_serializable(init, mid, ops.drop_last());
    }
}

} // verus!
