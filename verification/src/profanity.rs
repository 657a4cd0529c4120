//! A small, conservative banned-word filter: a lowercase substring check and
//! two star-out sanitizers.

use vstd::prelude::*;

verus! {

use crate::text::{contains_seq, lower_of, replaced, to_lowercase, str_contains, str_replace};

/// The banned-word list. Every listed word is four characters long, so the
/// replacement mask is the constant `"****"`.
pub open spec fn bad_words() -> Seq<Seq<char>> {
    seq!["damn"@, "hell"@, "shit"@, "fuck"@]
}

/// True when the lowercase form of `s` contains a banned word.
pub open spec fn spec_contains_profanity(s: Seq<char>) -> bool {
    exists|i: int| 0 <= i < bad_words().len() && contains_seq(lower_of(s), #[trigger] bad_words()[i])
}

pub fn contains_profanity(s: &str) -> (r: bool)
    ensures
        r == spec_contains_profanity(s@),
{
    let lower = to_lowercase(s);
    let hit = str_contains(lower.as_str(), "damn") || str_contains(lower.as_str(), "hell")
        || str_contains(lower.as_str(), "shit") || str_contains(lower.as_str(), "fuck");
    proof {
        if hit {
            if contains_seq(lower_of(s@), "damn"@) {
                assert(contains_seq(lower_of(s@), bad_words()[0]));
            } else if contains_seq(lower_of(s@), "hell"@) {
                assert(contains_seq(lower_of(s@), bad_words()[1]));
            } else if contains_seq(lower_of(s@), "shit"@) {
                assert(contains_seq(lower_of(s@), bad_words()[2]));
            } else {
                assert(contains_seq(lower_of(s@), bad_words()[3]));
            }
        }
        if spec_contains_profanity(s@) {
            let i = choose|i: int|
                0 <= i < bad_words().len() && contains_seq(lower_of(s@), #[trigger] bad_words()[i]);
            assert(bad_words()[i] == "damn"@ || bad_words()[i] == "hell"@
                || bad_words()[i] == "shit"@ || bad_words()[i] == "fuck"@);
        }
    }
    hit
}

/// One sanitizer pass: star the word out when the lowercase form of the
/// original string contains it.
pub open spec fn sanitize_step(s: Seq<char>, lower0: Seq<char>, w: Seq<char>) -> Seq<char> {
    if contains_seq(lower0, w) {
        replaced(s, w, "****"@)
    } else {
        s
    }
}

/// The result of starring out, in list order, each banned word whose
/// lowercase occurrence was detected in the original string.
pub open spec fn spec_sanitize(s: Seq<char>) -> Seq<char> {
    let l = lower_of(s);
    sanitize_step(sanitize_step(sanitize_step(sanitize_step(s, l, "damn"@), l, "hell"@), l, "shit"@), l, "fuck"@)
}

/// Stars out lowercase occurrences of the banned words. The check is made on
/// the lowercase form of the input, the replacement on the input as given, so
/// capitalised occurrences survive; `censor` handles both cases.
pub fn sanitize(s: String) -> (r: String)
    ensures
        r@ == spec_sanitize(s@),
{
    let lower = to_lowercase(s.as_str());
    let mut out = s;
    if str_contains(lower.as_str(), "damn") {
        out = str_replace(out.as_str(), "damn", "****");
    }
    if str_contains(lower.as_str(), "hell") {
        out = str_replace(out.as_str(), "hell", "****");
    }
    if str_contains(lower.as_str(), "shit") {
        out = str_replace(out.as_str(), "shit", "****");
    }
    if str_contains(lower.as_str(), "fuck") {
        out = str_replace(out.as_str(), "fuck", "****");
    }
    out
}

/// The result of starring out `"damn"` and `"hell"` in both lowercase and
/// uppercase spelling, unconditionally and in that order.
pub open spec fn spec_censor(s: Seq<char>) -> Seq<char> {
    replaced(replaced(replaced(replaced(s, "damn"@, "****"@), "DAMN"@, "****"@), "hell"@, "****"@), "HELL"@, "****"@)
}

/// The comment-body filter: stars out the two-word list in lowercase and
/// uppercase spelling.
pub fn censor(s: &str) -> (r: String)
    ensures
        r@ == spec_censor(s@),
{
    let a = str_replace(s, "damn", "****");
    let b = str_replace(a.as_str(), "DAMN", "****");
    let c = str_replace(b.as_str(), "hell", "****");
    str_replace(c.as_str(), "HELL", "****")
}

} // verus!
