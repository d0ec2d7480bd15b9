//! Group keys: deriving, from a file name, the string that decides which
//! files must be co-located on one volume.
//!
//! The derivation is done by a user-supplied regular expression. The
//! `regex` crate does the matching; what it yields for a given pattern and
//! file name is named by the uninterpreted function [`group_key_of`], and
//! everything the library proves about grouping is stated over that name.

use vstd::prelude::*;
use crate::paths::{file_name_of, file_name_view};

verus! {

#[verifier::external_type_specification]
#[verifier::external_body]
pub struct ExRegex(regex::Regex);

/// The group key that the grouping pattern `pattern` derives from the file
/// name `name`. The key is the first capture group's text when the pattern
/// defines capture groups, otherwise the whole match; it is `None` when
/// `name` does not match the pattern, and also when the pattern defines
/// capture groups but the first one takes no part in the match. It depends
/// on the pattern and the name alone.
pub uninterp spec fn group_key_of(pattern: Seq<char>, name: Seq<char>) -> Option<Seq<char>>;

/// Whether `regex::Regex::new` accepts `pattern` (under its default size
/// limit): a function of the pattern text alone.
pub uninterp spec fn regex_compiles(pattern: Seq<char>) -> bool;

/// A grouping pattern, compiled once and read-only afterwards.
pub struct GroupBy {
    re: regex::Regex,
    pattern: String,
}

impl GroupBy {
    /// The pattern text this value was compiled from.
    pub closed spec fn pattern(&self) -> Seq<char> {
        self.pattern@
    }

    /// Relies on `regex::Regex::new`: whether a pattern compiles is a
    /// function of its text alone (named [`regex_compiles`]); an invalid
    /// pattern, or one over the default size limit, yields `None`.
    #[verifier::external_body]
    pub fn compile(pattern: &str) -> (r: Option<GroupBy>)
        ensures
            r is Some <==> regex_compiles(pattern@),
            r matches Some(g) ==> g.pattern() == pattern@,
    {
        match regex::Regex::new(pattern) {
            Ok(re) => Some(GroupBy { re, pattern: pattern.to_string() }),
            Err(_) => None,
        }
    }

    /// Relies on `regex::Regex::captures`: whether and what `name` matches
    /// is a function of the compiled pattern and of `name` alone. The key
    /// is the first capture group's text when the pattern defines capture
    /// groups, otherwise the whole match; no key comes back when `name`
    /// does not match, nor when the first capture group takes no part in
    /// the match.
    #[verifier::external_body]
    pub fn key_for(&self, name: &str) -> (r: Option<String>)
        ensures
            r is Some <==> group_key_of(self.pattern(), name@) is Some,
            r matches Some(k) ==> group_key_of(self.pattern(), name@) == Some(k@),
    {
        let caps = self.re.captures(name)?;
        let m = if caps.len() > 1 { caps.get(1) } else { caps.get(0) };
        m.map(|g| g.as_str().to_string())
    }
}

/// The group key of a manifest entry: derived from its file name, `None`
/// when the name does not match the pattern.
pub open spec fn spec_group_key(pattern: Seq<char>, relpath: Seq<char>) -> Option<Seq<char>> {
    group_key_of(pattern, file_name_view(relpath))
}

/// Derive the group key of `relpath` from its file name.
pub fn make_group_key(group_by: &GroupBy, relpath: &str) -> (r: Option<String>)
    ensures
        r is Some <==> spec_group_key(group_by.pattern(), relpath@) is Some,
        r matches Some(k) ==> spec_group_key(group_by.pattern(), relpath@) == Some(k@),
{
    let name = file_name_of(relpath);
    group_by.key_for(name.as_str())
}

} // verus!
