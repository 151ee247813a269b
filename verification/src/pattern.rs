//! Regular-expression matching and replacement, through the `regex` crate.
use vstd::prelude::*;

verus! {

/// Whether `pattern` compiles (`regex::Regex::new` succeeds).
pub uninterp spec fn regex_compiles(pattern: Seq<char>) -> bool;

/// For each non-overlapping match of `pattern` in `text`, left to right, the
/// text of capture groups `1..=groups` (empty for a group that did not take
/// part in the match).
pub uninterp spec fn regex_captures(pattern: Seq<char>, text: Seq<char>, groups: nat) -> Seq<Seq<Seq<char>>>;

/// `text` with every non-overlapping match of `pattern` replaced by `replacement`
/// (taken literally when it holds no `$`).
pub uninterp spec fn regex_replaced(pattern: Seq<char>, text: Seq<char>, replacement: Seq<char>) -> Seq<char>;

/// The text of each group of each match.
pub open spec fn captures_view(v: Seq<Vec<String>>) -> Seq<Seq<Seq<char>>> {
    v.map_values(|g: Vec<String>| g@.map_values(|s: String| s@))
}

/// Compiles `pattern` (`regex::Regex::new`) and collects the groups
/// `1..=groups` of every match in `text` (`Regex::captures_iter`), in order.
#[verifier::external_body]
pub(crate) fn captures_all(pattern: &str, text: &str, groups: usize) -> (r: Option<Vec<Vec<String>>>)
    ensures
        r is Some <==> regex_compiles(pattern@),
        r matches Some(v) ==> captures_view(v@) == regex_captures(pattern@, text@, groups as nat),
        r matches Some(v) ==> forall|k: int| 0 <= k < v@.len() ==> (#[trigger] v@[k])@.len() == groups,
{
    let re = regex::Regex::new(pattern).ok()?;
    Some(
        re.captures_iter(text).map(|c| {
            (1..=groups).map(|k| c.get(k).map_or(String::new(), |m| m.as_str().to_string())).collect()
        }).collect(),
    )
}

/// Compiles `pattern` (`regex::Regex::new`) and replaces every match in
/// `text` with `replacement` (`Regex::replace_all`).
#[verifier::external_body]
pub(crate) fn replace_all(pattern: &str, text: &str, replacement: &str) -> (r: Option<String>)
    ensures
        r is Some <==> regex_compiles(pattern@),
        r matches Some(s) ==> s@ == regex_replaced(pattern@, text@, replacement@),
{
    let re = regex::Regex::new(pattern).ok()?;
    Some(re.replace_all(text, replacement).into_owned())
}

} // verus!
