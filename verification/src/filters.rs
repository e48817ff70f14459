//! The walker's filter rules.
//!
//! For every entry the walker meets, `entry_decision` says whether the entry
//! is yielded and whether its children are enumerated.  The rules, in order:
//! a name matching a `force_include` substring is never skipped; a directory
//! whose name contains a `skip_directories` substring is not descended into,
//! though the directory entry itself is still yielded; a file whose name ends
//! with a `skip_extensions` suffix, or contains a `skip_patterns` substring,
//! is excluded; and a directory standing at the maximum depth does not
//! enumerate its children, whatever the rules above said.

use vstd::prelude::*;

use crate::config::Config;
use crate::text::{ends_with, is_substring, str_contains, str_ends_with};

verus! {

/// True when `name` contains some entry of `pats` as a substring.
pub open spec fn matches_any_sub(name: Seq<char>, pats: Seq<String>) -> bool {
    exists|i: int| 0 <= i < pats.len() && is_substring(pats[i]@, name)
}

/// True when `name` ends with some entry of `pats`.
pub open spec fn matches_any_suffix(name: Seq<char>, pats: Seq<String>) -> bool {
    exists|i: int| 0 <= i < pats.len() && ends_with(name, pats[i]@)
}

/// True when the name bypasses every skip rule.
pub open spec fn force_included(name: Seq<char>, cfg: Config) -> bool {
    matches_any_sub(name, cfg.force_include@)
}

/// True when the entry is yielded by the walk.  Directories are always
/// yielded; a file is yielded unless a skip rule matches it and no
/// `force_include` entry does.
pub open spec fn spec_yielded(name: Seq<char>, is_dir: bool, cfg: Config) -> bool {
    if is_dir {
        true
    } else {
        force_included(name, cfg) || !(matches_any_suffix(name, cfg.skip_extensions@)
            || matches_any_sub(name, cfg.skip_patterns@))
    }
}

/// True when the walk enumerates the entry's children: only a directory
/// below the maximum depth, and only if no `skip_directories` entry matches
/// its name or a `force_include` entry overrides the match.
pub open spec fn spec_descend(name: Seq<char>, is_dir: bool, depth: nat, cfg: Config) -> bool {
    is_dir && depth < cfg.max_depth && (force_included(name, cfg) || !matches_any_sub(
        name,
        cfg.skip_directories@,
    ))
}

/// What the walker does with one entry.
#[derive(Debug, Clone, Copy, PartialEq, Eq, Structural)]
pub struct EntryDecision {
    /// The entry itself appears in the walk's output.
    pub yielded: bool,
    /// The entry's children are enumerated.
    pub descend: bool,
}

/// True when `name` contains some entry of `pats` as a substring.
pub fn any_substring_of(name: &str, pats: &Vec<String>) -> (r: bool)
    ensures
        r == matches_any_sub(name@, pats@),
{
    let mut i: usize = 0;
    while i < pats.len()
        invariant
            0 <= i <= pats@.len(),
            forall|k: int| 0 <= k < i ==> !is_substring(pats@[k]@, name@),
        decreases pats@.len() - i,
    {
        if str_contains(name, pats[i].as_str()) {
            return true;
        }
        i = i + 1;
    }
    false
}

/// True when `name` ends with some entry of `pats`.
pub fn any_suffix_of(name: &str, pats: &Vec<String>) -> (r: bool)
    ensures
        r == matches_any_suffix(name@, pats@),
{
    let mut i: usize = 0;
    while i < pats.len()
        invariant
            0 <= i <= pats@.len(),
            forall|k: int| 0 <= k < i ==> !ends_with(name@, pats@[k]@),
        decreases pats@.len() - i,
    {
        if str_ends_with(name, pats[i].as_str()) {
            return true;
        }
        i = i + 1;
    }
    false
}

/// Applies the filter rules to one entry.
pub fn entry_decision(name: &str, is_dir: bool, depth: u64, cfg: &Config) -> (d: EntryDecision)
    ensures
        d.yielded == spec_yielded(name@, is_dir, *cfg),
        d.descend == spec_descend(name@, is_dir, depth as nat, *cfg),
{
    let force = any_substring_of(name, &cfg.force_include);
    let yielded = if is_dir {
        true
    } else {
        force || !(any_suffix_of(name, &cfg.skip_extensions) || any_substring_of(
            name,
            &cfg.skip_patterns,
        ))
    };
    let descend = is_dir && depth < cfg.max_depth && (force || !any_substring_of(
        name,
        &cfg.skip_directories,
    ));
    EntryDecision { yielded, descend }
}

/// A name matching `force_include` is yielded whatever the skip rules say.
pub proof fn lemma_force_include_yielded(name: Seq<char>, is_dir: bool, cfg: Config)
    requires
        force_included(name, cfg),
    ensures
        spec_yielded(name, is_dir, cfg),
{
}

} // verus!
