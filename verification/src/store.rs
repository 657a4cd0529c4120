//! The in-memory adapter: posts, the vote ledger and the comment rows under
//! one roof, with the store-wide invariant that every post's `score` field
//! is the sum of its live votes and every vote names an existing post.
//! Votes are aggregated by recomputing that sum on every cast, never by
//! incrementing, so the score converges even if earlier updates raced.

use vstd::prelude::*;

verus! {

use crate::comments::{
    Comment, CommentNode, unique_comment_ids, build_forest, forest_nodes_ok, forest_ids,
    id_present, is_root_row, node_is_root, comments_well_formed, nodes_sorted_asc,
};
use crate::error::AppError;
use crate::pagination::{
    NewKey, TopKey, PageNewResult, PageTopResult, page_new, page_top, unique_ids, is_new_page,
    is_top_page, spec_new_key, new_lt, in_new_window,
};
use crate::posts::{Post, CreatePostInput, create_post_ok, check_create_post, update_post_ok,
    check_update_post};
use crate::profanity::{spec_censor, censor};
use crate::text::{contains_seq, lower_of, to_lowercase, str_contains};
use crate::validation::opt_view;
use crate::votes::{
    Vote, votes_wf, sum_votes, vote_state, vote_delta, vote_applied, apply_vote, compute_score,
    lemma_sum_zero_when_absent,
};

/// True when some post carries this id.
pub open spec fn has_post(posts: Seq<Post>, id: u128) -> bool {
    exists|i: int| 0 <= i < posts.len() && (#[trigger] posts[i]).id == id
}

/// Posts, votes and comments held in memory: the test adapter of the
/// storage interface, and the reference model of what the production
/// adapter's transactions must preserve.
pub struct InMemoryStore {
    pub posts: Vec<Post>,
    pub votes: Vec<Vote>,
    pub comments: Vec<Comment>,
}

impl InMemoryStore {
    /// The store invariant: distinct post ids, a well-formed vote ledger of
    /// bounded size, distinct comment ids, every vote on an existing post,
    /// and every post's score equal to the sum of its live votes.
    pub open spec fn wf(&self) -> bool {
        &&& unique_ids(self.posts@)
        &&& votes_wf(self.votes@)
        &&& self.votes@.len() <= 0x7fff_ffff_ffff_ffff
        &&& unique_comment_ids(self.comments@)
        &&& (forall|k: int|
            0 <= k < self.votes@.len() ==> has_post(self.posts@, (#[trigger] self.votes@[k]).post_id))
        &&& (forall|i: int|
            0 <= i < self.posts@.len() ==> (#[trigger] self.posts@[i]).score as int == sum_votes(
                self.votes@,
                self.posts@[i].id,
            ))
    }

    pub fn new() -> (s: Self)
        ensures
            s.wf(),
            s.posts@.len() == 0,
            s.votes@.len() == 0,
            s.comments@.len() == 0,
    {
        InMemoryStore { posts: Vec::new(), votes: Vec::new(), comments: Vec::new() }
    }

    /// The index of the post with this id, if one exists.
    fn find_post_idx(&self, id: u128) -> (r: Option<usize>)
        ensures
            match r {
                Some(i) => i < self.posts@.len() && self.posts@[i as int].id == id,
                None => !has_post(self.posts@, id),
            },
    {
        let n = self.posts.len();
        for i in 0..n
            invariant
                n == self.posts@.len(),
                (forall|j: int| 0 <= j < i ==> (#[trigger] self.posts@[j]).id != id),
        {
            if self.posts[i].id == id {
                return Some(i);
            }
        }
        None
    }

    /// Validates and stores a submission with score zero. The submission is
    /// rejected exactly when a validation rule fails (`Validation`) or the
    /// id is already taken (`Conflict`).
    pub fn create_post(&mut self, user_id: u128, input: CreatePostInput, id: u128, created_at: i64)
        -> (r: Result<Post, AppError>)
        requires
            old(self).wf(),
        ensures
            final(self).wf(),
            final(self).votes@ == old(self).votes@,
            final(self).comments@ == old(self).comments@,
            (r is Ok <==> create_post_ok(input) && !has_post(old(self).posts@, id)),
            (!create_post_ok(input) ==> (r matches Err(e) && e is Validation) && final(self).posts@
                == old(self).posts@),
            (create_post_ok(input) && has_post(old(self).posts@, id) ==> (r matches Err(e)
                && e is Conflict) && final(self).posts@ == old(self).posts@),
            (r matches Ok(p) ==> final(self).posts@ == old(self).posts@.push(p) && p.id == id
                && p.user_id == user_id && p.title == input.title && p.url == input.url && p.body
                == input.body && p.score == 0 && p.created_at == created_at
                && p.short_description == Some(input.short_description)),
    {
        if let Err(e) = check_create_post(&input) {
            return Err(e);
        }
        if self.find_post_idx(id).is_some() {
            return Err(AppError::conflict("post id already taken".to_owned()));
        }
        let post = Post {
            id,
            user_id,
            title: input.title,
            short_description: Some(input.short_description),
            url: input.url,
            body: input.body,
            score: 0,
            created_at,
        };
        let out = post.clone();
        let ghost p0 = self.posts@;
        self.posts.push(post);
        proof {
            assert(forall|i: int| 0 <= i < p0.len() ==> self.posts@[i] == p0[i]);
            assert(self.posts@[p0.len() as int].id == id);
            assert forall|k: int|
                0 <= k < self.votes@.len() implies has_post(
                self.posts@,
                (#[trigger] self.votes@[k]).post_id,
            ) by {
                let j = choose|j: int|
                    0 <= j < p0.len() && (#[trigger] p0[j]).id == self.votes@[k].post_id;
                assert(self.posts@[j].id == self.votes@[k].post_id);
            }
            assert(sum_votes(self.votes@, id) == 0) by {
                assert forall|k: int|
                    0 <= k < self.votes@.len() implies (#[trigger] self.votes@[k]).post_id
                    != id by {
                    if self.votes@[k].post_id == id {
                        let j = choose|j: int|
                            0 <= j < p0.len() && (#[trigger] p0[j]).id == self.votes@[k].post_id;
                    }
                }
                lemma_sum_zero_when_absent(self.votes@, id);
            }
        }
        Ok(out)
    }

    /// Validates and applies an edit to the stored post: title and
    /// descriptive fields change, identity, score and creation instant do
    /// not. Rejected exactly when a rule fails (`Validation`) or no post
    /// carries the id (`NotFound`).
    pub fn update_post(
        &mut self,
        post_id: u128,
        title: &str,
        short_description: &str,
        url: &Option<String>,
        body: &Option<String>,
    ) -> (r: Result<Post, AppError>)
        requires
            old(self).wf(),
        ensures
            final(self).wf(),
            final(self).votes@ == old(self).votes@,
            final(self).comments@ == old(self).comments@,
            (r is Ok <==> update_post_ok(title, opt_view(*url), opt_view(*body)) && has_post(
                old(self).posts@,
                post_id,
            )),
            (!update_post_ok(title, opt_view(*url), opt_view(*body)) ==> (r matches Err(e)
                && e is Validation) && final(self).posts@ == old(self).posts@),
            (update_post_ok(title, opt_view(*url), opt_view(*body)) && !has_post(
                old(self).posts@,
                post_id,
            ) ==> (r matches Err(e) && e is NotFound) && final(self).posts@ == old(self).posts@),
            (r matches Ok(p) ==> p.id == post_id && p.title@ == title@ && (p.short_description
                matches Some(sd) && sd@ == short_description@) && p.url == *url && p.body == *body
                && final(self).posts@.len() == old(self).posts@.len() && (forall|i: int|
                0 <= i < old(self).posts@.len() ==> (#[trigger] final(self).posts@[i]) == (
                if old(self).posts@[i].id == post_id {
                    p
                } else {
                    old(self).posts@[i]
                })) && (exists|i: int|
                0 <= i < old(self).posts@.len() && (#[trigger] old(self).posts@[i]).id == post_id
                    && p.score == old(self).posts@[i].score && p.user_id
                    == old(self).posts@[i].user_id && p.created_at
                    == old(self).posts@[i].created_at)),
    {
        if let Err(e) = check_update_post(title, url, body) {
            return Err(e);
        }
        let idx = match self.find_post_idx(post_id) {
            None => {
                return Err(AppError::not_found("post not found".to_owned()));
            },
            Some(i) => i,
        };
        let ghost p0 = self.posts@;
        let old_post = self.posts.remove(idx);
        let updated = Post {
            id: old_post.id,
            user_id: old_post.user_id,
            title: title.to_owned(),
            short_description: Some(short_description.to_owned()),
            url: match url {
                Some(u) => Some(u.clone()),
                None => None,
            },
            body: match body {
                Some(b) => Some(b.clone()),
                None => None,
            },
            score: old_post.score,
            created_at: old_post.created_at,
        };
        let out = updated.clone();
        self.posts.insert(idx, updated);
        proof {
            assert(self.posts@ =~= p0.update(idx as int, self.posts@[idx as int]));
            assert(forall|i: int|
                0 <= i < p0.len() && i != idx ==> #[trigger] self.posts@[i] == p0[i]);
            assert forall|i: int|
                0 <= i < p0.len() && p0[i].id == post_id implies i == idx as int by {
                if i != idx {
                    assert(p0[i].id != p0[idx as int].id);
                }
            }
            assert forall|k: int|
                0 <= k < self.votes@.len() implies has_post(
                self.posts@,
                (#[trigger] self.votes@[k]).post_id,
            ) by {
                let j = choose|j: int|
                    0 <= j < p0.len() && (#[trigger] p0[j]).id == self.votes@[k].post_id;
                assert(self.posts@[j].id == self.votes@[k].post_id);
            }
        }
        Ok(out)
    }

    /// Applies one cast of `value` by `user_id` on `post_id` and returns
    /// the post's new aggregate score, recomputed as the sum of its live
    /// votes. A value other than `+1`/`-1` is rejected (`Validation`), an
    /// unknown post too (`NotFound`); otherwise the cast inserts, flips or
    /// retracts the pair's vote and every other pair and post is untouched.
    pub fn cast_vote(&mut self, user_id: u128, post_id: u128, value: i16) -> (r: Result<
        i64,
        AppError,
    >)
        requires
            old(self).wf(),
            old(self).votes@.len() < 0x7fff_ffff_ffff_ffff,
        ensures
            final(self).wf(),
            final(self).comments@ == old(self).comments@,
            (r is Ok <==> (value == 1 || value == -1) && has_post(old(self).posts@, post_id)),
            (!(value == 1 || value == -1) ==> (r matches Err(e) && e is Validation)
                && final(self).posts@ == old(self).posts@ && final(self).votes@ == old(
                self,
            ).votes@),
            ((value == 1 || value == -1) && !has_post(old(self).posts@, post_id) ==> (r
                matches Err(e) && e is NotFound) && final(self).posts@ == old(self).posts@
                && final(self).votes@ == old(self).votes@),
            (r matches Ok(sc) ==> vote_applied(
                old(self).votes@,
                final(self).votes@,
                user_id,
                post_id,
                value as int,
            ) && sc as int == sum_votes(final(self).votes@, post_id) && sc as int == sum_votes(
                old(self).votes@,
                post_id,
            ) + vote_delta(vote_state(old(self).votes@, user_id, post_id), value as int)
                && final(self).posts@.len() == old(self).posts@.len() && (forall|i: int|
                0 <= i < old(self).posts@.len() ==> (#[trigger] final(self).posts@[i]) == (
                if old(self).posts@[i].id == post_id {
                    (Post { score: sc, ..old(self).posts@[i] })
                } else {
                    old(self).posts@[i]
                }))),
    {
        if value != 1 && value != -1 {
            return Err(AppError::validation("value must be 1 or -1".to_owned()));
        }
        let idx = match self.find_post_idx(post_id) {
            None => {
                return Err(AppError::not_found("post not found".to_owned()));
            },
            Some(i) => i,
        };
        let ghost v0 = self.votes@;
        let ghost p0 = self.posts@;
        apply_vote(&mut self.votes, user_id, post_id, value as i8);
        let score = compute_score(&self.votes, post_id);
        let old_post = self.posts.remove(idx);
        let updated = Post { score, ..old_post };
        self.posts.insert(idx, updated);
        proof {
            assert(self.posts@ =~= p0.update(idx as int, self.posts@[idx as int]));
            assert(forall|i: int|
                0 <= i < p0.len() && i != idx ==> #[trigger] self.posts@[i] == p0[i]);
            assert forall|i: int|
                0 <= i < p0.len() && p0[i].id == post_id implies i == idx as int by {
                if i != idx {
                    assert(p0[i].id != p0[idx as int].id);
                }
            }
            assert forall|k: int|
                0 <= k < self.votes@.len() implies has_post(
                self.posts@,
                (#[trigger] self.votes@[k]).post_id,
            ) by {
                if v0.contains(self.votes@[k]) {
                    let m = choose|m: int| 0 <= m < v0.len() && v0[m] == self.votes@[k];
                    let j = choose|j: int|
                        0 <= j < p0.len() && (#[trigger] p0[j]).id == v0[m].post_id;
                    assert(self.posts@[j].id == self.votes@[k].post_id);
                } else {
                    assert(self.votes@[k].post_id == post_id);
                    assert(self.posts@[idx as int].id == post_id);
                }
            }
            assert forall|i: int|
                0 <= i < self.posts@.len() implies (#[trigger] self.posts@[i]).score as int
                == sum_votes(self.votes@, self.posts@[i].id) by {
                if i == idx {
                } else {
                    assert(self.posts@[i] == p0[i]);
                    assert(p0[i].id != post_id);
                    assert(sum_votes(self.votes@, p0[i].id) == sum_votes(v0, p0[i].id) + 0);
                }
            }
        }
        Ok(score)
    }

    /// The post's aggregate score: the sum of its live votes. A post no
    /// vote names, existing or not, sums to zero.
    pub fn get_score(&self, post_id: u128) -> (r: Result<i64, AppError>)
        requires
            self.wf(),
        ensures
            (r matches Ok(sc) && sc as int == sum_votes(self.votes@, post_id)),
    {
        Ok(compute_score(&self.votes, post_id))
    }

    /// One page of the NEW listing over the stored posts.
    pub fn list_new(&self, after: Option<NewKey>, limit: i64) -> (r: PageNewResult)
        requires
            self.wf(),
        ensures
            (r is Err <==> limit <= 0),
            (r matches Err(e) ==> e is Validation),
            (r matches Ok(pr) ==> is_new_page(self.posts@, after, limit as int, pr.0@, pr.1)),
    {
        page_new(&self.posts, after, limit)
    }

    /// One page of the TOP listing over the stored posts.
    pub fn list_top(&self, after: Option<TopKey>, limit: i64) -> (r: PageTopResult)
        requires
            self.wf(),
        ensures
            (r is Err <==> limit <= 0),
            (r matches Err(e) ==> e is Validation),
            (r matches Ok(pr) ==> is_top_page(self.posts@, after, limit as int, pr.0@, pr.1)),
    {
        page_top(&self.posts, after, limit)
    }
}


/// The query occurs in the title, compared case-insensitively.
pub open spec fn title_matches(q: Seq<char>, p: Post) -> bool {
    contains_seq(lower_of(p.title@), lower_of(q))
}

/// The keyset page contract of a title search: the NEW-page contract,
/// restricted to the rows whose title matches the query.
pub open spec fn is_search_page(
    posts: Seq<Post>,
    q: Seq<char>,
    after: Option<NewKey>,
    limit: int,
    items: Seq<Post>,
    next: Option<NewKey>,
) -> bool {
    &&& items.len() <= limit
    &&& (forall|i: int, j: int|
        0 <= i < j < items.len() ==> new_lt(
            spec_new_key(#[trigger] items[j]),
            spec_new_key(#[trigger] items[i]),
        ))
    &&& (forall|i: int|
        0 <= i < items.len() ==> posts.contains(#[trigger] items[i]) && in_new_window(
            after,
            items[i],
        ) && title_matches(q, items[i]))
    &&& (forall|k: int|
        0 <= k < posts.len() && in_new_window(after, #[trigger] posts[k]) && title_matches(
            q,
            posts[k],
        ) ==> items.contains(posts[k]) || (items.len() == limit && new_lt(
            spec_new_key(posts[k]),
            spec_new_key(items.last()),
        )))
    &&& (items.len() < limit <==> next is None)
    &&& (items.len() == limit ==> next == Some(spec_new_key(items.last())))
}

/// The comment rows of one post, in storage order.
pub open spec fn post_comments(s: Seq<Comment>, post_id: u128) -> Seq<Comment> {
    s.filter(|c: Comment| c.post_id == post_id)
}

/// True when a comment with this id belongs to this post.
pub open spec fn comment_in_post(s: Seq<Comment>, cid: u128, post_id: u128) -> bool {
    exists|i: int| 0 <= i < s.len() && (#[trigger] s[i]).id == cid && s[i].post_id == post_id
}

/// True when some comment carries this id.
pub open spec fn has_comment(s: Seq<Comment>, id: u128) -> bool {
    exists|i: int| 0 <= i < s.len() && (#[trigger] s[i]).id == id
}

/// The capability interface of comment storage: one production adapter
/// against durable storage, and the in-memory adapter below for tests and
/// as the reference model.
pub trait CommentRepository {
    spec fn repo_inv(&self) -> bool;

    fn create(
        &mut self,
        post_id: u128,
        user_id: u128,
        parent_id: Option<u128>,
        body: &str,
        id: u128,
        created_at: i64,
    ) -> (r: Result<Comment, AppError>)
        requires
            old(self).repo_inv(),
        ensures
            final(self).repo_inv(),
    ;

    fn list_for_post(&self, post_id: u128) -> (rows: Vec<Comment>)
        requires
            self.repo_inv(),
    ;
}

impl InMemoryStore {
    /// One page of the NEW listing restricted to posts whose title
    /// contains the query, compared case-insensitively.
    pub fn search_by_title(&self, query: &str, after: Option<NewKey>, limit: i64) -> (r:
        PageNewResult)
        requires
            self.wf(),
        ensures
            (r is Err <==> limit <= 0),
            (r matches Err(e) ==> e is Validation),
            (r matches Ok(pr) ==> is_search_page(
                self.posts@,
                query@,
                after,
                limit as int,
                pr.0@,
                pr.1,
            )),
    {
        let lower_q = to_lowercase(query);
        let mut matched: Vec<Post> = Vec::new();
        let ghost mut srcs: Seq<int> = Seq::empty();
        let n = self.posts.len();
        for idx in 0..n
            invariant
                n == self.posts@.len(),
                unique_ids(self.posts@),
                unique_ids(matched@),
                lower_q@ == lower_of(query@),
                srcs.len() == matched@.len(),
                (forall|i: int|
                    0 <= i < srcs.len() ==> 0 <= #[trigger] srcs[i] < idx && self.posts@[srcs[i]]
                        == matched@[i]),
                (forall|i: int| 0 <= i < matched@.len() ==> title_matches(query@, #[trigger] matched@[i])),
                (forall|k: int|
                    0 <= k < idx && title_matches(query@, #[trigger] self.posts@[k])
                        ==> matched@.contains(self.posts@[k])),
        {
            let lower_t = to_lowercase(self.posts[idx].title.as_str());
            if str_contains(lower_t.as_str(), lower_q.as_str()) {
                let ghost m0 = matched@;
                matched.push(self.posts[idx].clone());
                proof {
                    srcs = srcs.push(idx as int);
                    assert(matched@[m0.len() as int] == self.posts@[idx as int]);
                    assert(forall|i: int| 0 <= i < m0.len() ==> matched@[i] == m0[i]);
                    assert forall|a: int, b: int| 0 <= a < b < matched@.len() implies (
                    #[trigger] matched@[a]).id != (#[trigger] matched@[b]).id by {
                        assert(self.posts@[srcs[a]] == matched@[a] && self.posts@[srcs[b]]
                            == matched@[b]);
                        if srcs[a] != srcs[b] {
                        } else {
                            if b == m0.len() {
                                assert(srcs[b] == idx && srcs[a] < idx);
                            }
                        }
                    }
                    assert(matched@.contains(self.posts@[idx as int]));
                }
            }
        }
        let r = page_new(&matched, after, limit);
        proof {
            if r is Ok {
                let pr = r->Ok_0;
                let items = pr.0@;
                assert forall|i: int|
                    0 <= i < items.len() implies self.posts@.contains(#[trigger] items[i])
                    && in_new_window(after, items[i]) && title_matches(query@, items[i]) by {
                    assert(matched@.contains(items[i]));
                    let m = choose|m: int| 0 <= m < matched@.len() && matched@[m] == items[i];
                    assert(self.posts@[srcs[m]] == items[i]);
                }
                assert forall|k: int|
                    0 <= k < self.posts@.len() && in_new_window(after, #[trigger] self.posts@[k])
                        && title_matches(query@, self.posts@[k]) implies items.contains(
                    self.posts@[k],
                ) || (items.len() == limit && new_lt(
                    spec_new_key(self.posts@[k]),
                    spec_new_key(items.last()),
                )) by {
                    assert(matched@.contains(self.posts@[k]));
                }
            }
        }
        r
    }

    /// Validates and stores one comment, with banned words starred out.
    /// Rejected exactly when the body length is out of range or the named
    /// parent is not a comment of the same post (`Validation`), or the id
    /// is already taken (`Conflict`).
    pub fn add_comment(
        &mut self,
        post_id: u128,
        user_id: u128,
        parent_id: Option<u128>,
        body: &str,
        id: u128,
        created_at: i64,
    ) -> (r: Result<Comment, AppError>)
        requires
            old(self).wf(),
        ensures
            final(self).wf(),
            final(self).posts@ == old(self).posts@,
            final(self).votes@ == old(self).votes@,
            (r is Ok <==> (1 <= body@.len() <= 10000) && (match parent_id {
                None => true,
                Some(pid) => comment_in_post(old(self).comments@, pid, post_id),
            }) && !has_comment(old(self).comments@, id)),
            (!(1 <= body@.len() <= 10000) ==> (r matches Err(e) && e is Validation)
                && final(self).comments@ == old(self).comments@),
            (r is Err ==> final(self).comments@ == old(self).comments@),
            (r matches Err(e) ==> e is Validation || e is Conflict),
            (r matches Ok(c) ==> final(self).comments@ == old(self).comments@.push(c) && c.id == id
                && c.post_id == post_id && c.user_id == user_id && c.parent_id == parent_id
                && c.body@ == spec_censor(body@) && c.created_at == created_at),
    {
        let blen = body.unicode_len();
        if blen < 1 || blen > 10000 {
            return Err(AppError::validation("comment body length 1..10000".to_owned()));
        }
        if let Some(pid) = parent_id {
            let mut found = false;
            let n = self.comments.len();
            for i in 0..n
                invariant
                    n == self.comments@.len(),
                    found == exists|j: int|
                        0 <= j < i && (#[trigger] self.comments@[j]).id == pid
                            && self.comments@[j].post_id == post_id,
            {
                if self.comments[i].id == pid && self.comments[i].post_id == post_id {
                    found = true;
                }
            }
            if !found {
                return Err(
                    AppError::validation("parent comment not found in this post".to_owned()),
                );
            }
        }
        let mut taken = false;
        let n = self.comments.len();
        for i in 0..n
            invariant
                n == self.comments@.len(),
                taken == exists|j: int| 0 <= j < i && (#[trigger] self.comments@[j]).id == id,
        {
            if self.comments[i].id == id {
                taken = true;
            }
        }
        if taken {
            return Err(AppError::conflict("comment id already taken".to_owned()));
        }
        let stored = Comment {
            id,
            post_id,
            user_id,
            parent_id,
            body: censor(body),
            created_at,
        };
        let out = stored.clone();
        let ghost c0 = self.comments@;
        self.comments.push(stored);
        proof {
            assert(forall|i: int| 0 <= i < c0.len() ==> self.comments@[i] == c0[i]);
            assert forall|a: int, b: int| 0 <= a < b < self.comments@.len() implies (
            #[trigger] self.comments@[a]).id != (#[trigger] self.comments@[b]).id by {
                if b == c0.len() {
                    assert(self.comments@[a] == c0[a]);
                }
            }
        }
        Ok(out)
    }

    /// The comment rows of one post, in storage order.
    pub fn list_comments(&self, post_id: u128) -> (rows: Vec<Comment>)
        requires
            self.wf(),
        ensures
            rows@ == post_comments(self.comments@, post_id),
            unique_comment_ids(rows@),
    {
        let mut rows: Vec<Comment> = Vec::new();
        let ghost mut srcs: Seq<int> = Seq::empty();
        let n = self.comments.len();
        for idx in 0..n
            invariant
                n == self.comments@.len(),
                unique_comment_ids(self.comments@),
                unique_comment_ids(rows@),
                rows@ == post_comments(self.comments@.take(idx as int), post_id),
                srcs.len() == rows@.len(),
                (forall|i: int|
                    0 <= i < srcs.len() ==> 0 <= #[trigger] srcs[i] < idx
                        && self.comments@[srcs[i]] == rows@[i]),
        {
            proof {
                reveal(Seq::filter);
                assert(self.comments@.take(idx + 1 as int).drop_last() =~= self.comments@.take(
                    idx as int,
                ));
                assert(self.comments@.take(idx + 1 as int).last() == self.comments@[idx as int]);
            }
            if self.comments[idx].post_id == post_id {
                let ghost r0 = rows@;
                rows.push(self.comments[idx].clone());
                proof {
                    srcs = srcs.push(idx as int);
                    assert(forall|i: int| 0 <= i < r0.len() ==> rows@[i] == r0[i]);
                    assert(rows@[r0.len() as int] == self.comments@[idx as int]);
                    assert(rows@ =~= post_comments(self.comments@.take(idx + 1 as int), post_id));
                    assert forall|a: int, b: int| 0 <= a < b < rows@.len() implies (
                    #[trigger] rows@[a]).id != (#[trigger] rows@[b]).id by {
                        assert(self.comments@[srcs[a]] == rows@[a] && self.comments@[srcs[b]]
                            == rows@[b]);
                        if srcs[a] == srcs[b] && b == r0.len() {
                            assert(srcs[b] == idx && srcs[a] < idx);
                        }
                    }
                }
            } else {
                proof {
                    assert(rows@ =~= post_comments(self.comments@.take(idx + 1 as int), post_id));
                }
            }
        }
        proof {
            assert(self.comments@.take(n as int) =~= self.comments@);
        }
        rows
    }

    /// The comment forest of one post: the stored rows of that post,
    /// oldest first, rebuilt into trees with every row appearing exactly
    /// once; on intact data the top level is exactly the root rows.
    pub fn comment_forest(&self, post_id: u128) -> (forest: Vec<CommentNode>)
        requires
            self.wf(),
        ensures
            forest_nodes_ok(post_comments(self.comments@, post_id), forest@),
            forest_ids(forest@).no_duplicates(),
            forest_ids(forest@).len() == post_comments(self.comments@, post_id).len(),
            (forall|x: u128|
                forest_ids(forest@).contains(x) ==> id_present(
                    post_comments(self.comments@, post_id),
                    x,
                )),
            (forall|k: int|
                0 <= k < post_comments(self.comments@, post_id).len() && is_root_row(
                    post_comments(self.comments@, post_id),
                    #[trigger] post_comments(self.comments@, post_id)[k],
                ) ==> exists|r: int|
                    0 <= r < forest@.len() && (#[trigger] forest@[r]).id == post_comments(
                        self.comments@,
                        post_id,
                    )[k].id),
            (comments_well_formed(post_comments(self.comments@, post_id)) ==> (forall|r: int|
                0 <= r < forest@.len() ==> node_is_root(
                    post_comments(self.comments@, post_id),
                    #[trigger] forest@[r],
                ))),
            (comments_well_formed(post_comments(self.comments@, post_id)) ==> nodes_sorted_asc(
                forest@,
            )),
    {
        let rows = self.list_comments(post_id);
        build_forest(&rows)
    }
}

impl CommentRepository for InMemoryStore {
    open spec fn repo_inv(&self) -> bool {
        self.wf()
    }

    fn create(
        &mut self,
        post_id: u128,
        user_id: u128,
        parent_id: Option<u128>,
        body: &str,
        id: u128,
        created_at: i64,
    ) -> (r: Result<Comment, AppError>) {
        self.add_comment(post_id, user_id, parent_id, body, id, created_at)
    }

    fn list_for_post(&self, post_id: u128) -> (rows: Vec<Comment>) {
        self.list_comments(post_id)
    }
}
} // verus!
