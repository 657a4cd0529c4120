//! Posts: the record type and the validation rules for submitting and
//! editing a post.

use vstd::prelude::*;

verus! {

use vstd::string::StringSliceAdditionalSpecFns;
use crate::error::AppError;
use crate::profanity::{spec_contains_profanity, contains_profanity};
use crate::text::{trimmed, str_trim};
use crate::validation::{spec_http_url_ok, opt_view, validate_http_url};

/// A stored post. Identifiers and the creation instant are plain integers:
/// `id` carries the 128 bits of the external identifier, `created_at` is a
/// Unix timestamp in seconds. `score` is the aggregate of the live votes.
pub struct Post {
    pub id: u128,
    pub user_id: u128,
    pub title: String,
    pub short_description: Option<String>,
    pub url: Option<String>,
    pub body: Option<String>,
    pub score: i64,
    pub created_at: i64,
}

impl Clone for Post {
    fn clone(&self) -> (r: Self)
        ensures
            r == *self,
    {
        Post {
            id: self.id,
            user_id: self.user_id,
            title: self.title.clone(),
            short_description: match &self.short_description {
                Some(s) => Some(s.clone()),
                None => None,
            },
            url: match &self.url {
                Some(s) => Some(s.clone()),
                None => None,
            },
            body: match &self.body {
                Some(s) => Some(s.clone()),
                None => None,
            },
            score: self.score,
            created_at: self.created_at,
        }
    }
}

/// What a client submits to create a post.
pub struct CreatePostInput {
    pub title: String,
    pub short_description: String,
    pub url: Option<String>,
    pub body: Option<String>,
}

/// Submission titles must run 3 to 300 characters.
pub open spec fn create_title_ok(t: Seq<char>) -> bool {
    3 <= t.len() <= 300
}

/// Edited titles must run 3 to 300 bytes in UTF-8.
pub open spec fn update_title_ok(t: &str) -> bool {
    3 <= t.spec_bytes().len() <= 300
}

/// All the checks a submission must pass: title length, at least one of URL
/// and body, a non-blank body when no URL is given, a well-formed http(s)
/// URL, and no banned word in title or body.
pub open spec fn create_post_ok(input: CreatePostInput) -> bool {
    &&& create_title_ok(input.title@)
    &&& input.url is Some || input.body is Some
    &&& (input.url is None ==> trimmed(input.body->0@).len() > 0)
    &&& spec_http_url_ok(opt_view(input.url))
    &&& !spec_contains_profanity(input.title@)
    &&& (input.body is Some ==> !spec_contains_profanity(input.body->0@))
}

/// The checks an edit must pass: title byte length and at least one of URL
/// and body. Edits deliberately skip the blank-body, URL-scheme and
/// banned-word checks that creation applies; whether that divergence is
/// intended is an open product question, so it is preserved, not repaired.
pub open spec fn update_post_ok(title: &str, url: Option<Seq<char>>, body: Option<Seq<char>>) -> bool {
    &&& update_title_ok(title)
    &&& url is Some || body is Some
}

/// Validates a submission, in the order the service applies the checks.
pub fn check_create_post(input: &CreatePostInput) -> (r: Result<(), AppError>)
    ensures
        r is Ok <==> create_post_ok(*input),
        r matches Err(e) ==> e is Validation,
{
    if input.title.as_str().unicode_len() < 3 || input.title.as_str().unicode_len() > 300 {
        return Err(AppError::validation("title length 3..300".to_owned()));
    }
    let has_url = input.url.is_some();
    let has_body = input.body.is_some();
    if !has_url && !has_body {
        return Err(AppError::validation("Either url or body must be provided".to_owned()));
    }
    if !has_url {
        let blank = match &input.body {
            Some(b) => str_trim(b.as_str()).is_empty(),
            None => true,
        };
        if blank {
            return Err(
                AppError::validation("Body cannot be empty if url is not provided".to_owned()),
            );
        }
    }
    if let Err(e) = validate_http_url(&input.url) {
        return Err(e);
    }
    if contains_profanity(input.title.as_str()) {
        return Err(AppError::validation("Title contains inappropriate language".to_owned()));
    }
    if let Some(b) = &input.body {
        if contains_profanity(b.as_str()) {
            return Err(AppError::validation("Body contains inappropriate language".to_owned()));
        }
    }
    Ok(())
}

/// Validates an edit, in the order the service applies the checks.
pub fn check_update_post(title: &str, url: &Option<String>, body: &Option<String>) -> (r: Result<
    (),
    AppError,
>)
    ensures
        r is Ok <==> update_post_ok(title, opt_view(*url), opt_view(*body)),
        r matches Err(e) ==> e is Validation,
{
    let n = title.as_bytes().len();
    if n < 3 || n > 300 {
        return Err(AppError::validation("Title must be between 3 and 300 characters".to_owned()));
    }
    if url.is_none() && body.is_none() {
        return Err(AppError::validation("Either url or body must be provided".to_owned()));
    }
    Ok(())
}

} // verus!
