//! Updating the program in place: which release is asked for, and what is said of the outcome.

use crate::text;
use vstd::prelude::*;
use vstd::string::*;

verus! {

/// The release that an update asks for.
#[derive(Debug)]
pub enum Release {
    /// The one with the tag.
    Tag(String),
    /// The latest, prereleases included.
    LatestMaybePrerelease,
    /// The latest that is no prerelease.
    Latest,
}

/// The release that an update asks for: the one that a tag names, else the latest of the
/// channel.
pub fn requested(next: bool, tag: Option<String>) -> (r: Release)
    ensures
        (match text::opt_view(tag) {
            Some(t) => r matches Release::Tag(s) && s@ == t,
            None => if next {
                r is LatestMaybePrerelease
            } else {
                r is Latest
            },
        }),
{
    match tag {
        Some(t) => Release::Tag(t),
        None => if next {
            Release::LatestMaybePrerelease
        } else {
            Release::Latest
        },
    }
}

/// What is printed of an update, given the version that it installed, where it did.
pub fn outcome_text(new_version: Option<String>) -> (r: String)
    ensures
        r@ == (match text::opt_view(new_version) {
            Some(v) => "updated periodic to "@ + v + "\n"@,
            None => "periodic is already up to date\n"@,
        }),
{
    match new_version {
        Some(v) => {
            let mut r = "updated periodic to ".to_owned();
            r.append(v.as_str());
            r.append("\n");
            r
        },
        None => "periodic is already up to date\n".to_owned(),
    }
}

} // verus!
