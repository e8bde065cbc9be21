//! Shapes and rules for the remote ingestion job.
//!
//! The ingestion collaborator lists a source repository's tree, picks the
//! files that carry layer text, and stores each new layer. The shapes below
//! mirror what that job reads; `layer_file_id` is the rule deciding which
//! tree entries name a layer file and which layer id each one carries.

use vstd::prelude::*;
use vstd::string::StrSliceExecFns;
use crate::text::{
    all_digits, contains_seq, contains_sub, dec_val, ends_with, has_suffix, parse_u32_digits,
    split_char, split_on, trim, trim_spec,
};

verus! {

/// One commit of the source repository, as its host reports it.
#[derive(Debug, PartialEq)]
pub struct GithubCommitDetail {
    pub commit: Commit,
}

/// The commit body carrying the committer.
#[derive(Debug, PartialEq)]
pub struct Commit {
    pub committer: CommitAuthor,
}

/// The committer with the commit's timestamp text.
#[derive(Debug, PartialEq)]
pub struct CommitAuthor {
    pub date: String,
}

/// One tree listing of the source repository.
#[derive(Debug, PartialEq)]
pub struct GithubTree {
    pub tree: Vec<InnerTree>,
}

/// One entry of a tree listing.
#[derive(Debug, PartialEq)]
pub struct InnerTree {
    pub path: String,
    pub url: String,
    pub sha: String,
}

/// The layer id named by a tree entry's path, if the entry is a layer file:
/// the path must end in `.tl`, must not mention `unknown`, and its first
/// `.`-separated piece, trimmed, must be a decimal layer number.
pub open spec fn spec_layer_file_id(path: Seq<char>) -> Option<int> {
    if !has_suffix(path, ".tl"@) || contains_seq(path, "unknown"@) {
        None
    } else {
        let first = trim_spec(split_on(path, '.')[0]);
        if first.len() > 0 && all_digits(first) && dec_val(first) <= u32::MAX {
            Some(dec_val(first))
        } else {
            None
        }
    }
}

/// Decides whether a tree entry's path names a layer file, and which layer
/// id it carries.
pub fn layer_file_id(path: &str) -> (r: Option<u32>)
    ensures
        match r {
            Some(v) => spec_layer_file_id(path@) == Some(v as int),
            None => spec_layer_file_id(path@) is None,
        },
{
    if !ends_with(path, ".tl") || contains_sub(path, "unknown") {
        return None;
    }
    let pieces = split_char(path, '.');
    proof {
        crate::text::lemma_split_on_nonempty(path@, '.');
    }
    let first = trim(pieces[0].as_str());
    parse_u32_digits(first.as_str())
}

} // verus!
