//! Attribute extraction through the `regex` crate.
use vstd::prelude::*;
use crate::strmap::pair_views;

verus! {

#[verifier::external_type_specification]
#[verifier::external_body]
pub struct ExRegexError(regex::Error);

/// The pattern of one attribute, `name="value"`: a run of word characters, `=`, and a
/// non-empty quoted value without quotes inside.
pub open spec fn attribute_pattern() -> Seq<char> {
    seq!['(', '\\', 'w', '+', ')', '=', '"', '(', '[', '^', '"', ']', '+', ')', '"']
}

/// What `regex` yields for `pattern` on `haystack`: for each successive non-overlapping
/// match, the texts of capture groups 1 and 2.
pub uninterp spec fn group_pairs_of(pattern: Seq<char>, haystack: Seq<char>) -> Seq<(Seq<char>, Seq<char>)>;

/// Relies on `regex::Regex::new`, which fails only on an invalid pattern or one over the
/// default size limit, neither of which the attribute pattern is, and on
/// `Regex::captures_iter`, which walks the successive non-overlapping matches. Both groups
/// of the attribute pattern take part in every match, so indexing them does not panic.
#[verifier::external_body]
pub(crate) fn capture_pairs(pattern: &str, haystack: &str) -> (r: Result<Vec<(String, String)>, regex::Error>)
    requires
        pattern@ == attribute_pattern(),
    ensures
        r is Ok,
        r is Ok ==> pair_views(r->Ok_0@) == group_pairs_of(pattern@, haystack@),
{
    let re = regex::Regex::new(pattern)?;
    Ok(re.captures_iter(haystack).map(|c| (c[1].to_string(), c[2].to_string())).collect())
}

/// Runs the attribute pattern over `haystack`.
pub fn attribute_pairs(haystack: &str) -> (r: Option<Vec<(String, String)>>)
    ensures
        r is Some,
        pair_views(r->Some_0@) == group_pairs_of(attribute_pattern(), haystack@),
{
    let pattern: &str = r#"(\w+)="([^"]+)""#;
    proof {
        reveal_strlit(r#"(\w+)="([^"]+)""#);
        assert(pattern@ =~= attribute_pattern());
    }
    match capture_pairs(pattern, haystack) {
        Ok(v) => Some(v),
        Err(_) => None,
    }
}

} // verus!
