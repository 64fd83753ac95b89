//! Joining paths, as texts.

use crate::config;
use crate::text::chars_of;
use vstd::prelude::*;
use vstd::string::*;

verus! {

/// `base` and a relative path `rest` below it, with a slash between them where `base` does not
/// end in one and is not empty.
pub open spec fn joined_path(base: Seq<char>, rest: Seq<char>) -> Seq<char> {
    if base.len() == 0 || base.last() == '/' {
        base + rest
    } else {
        base + "/"@ + rest
    }
}

/// The home directory; empty where there is none.
pub open spec fn home_or_empty(home: Option<Seq<char>>) -> Seq<char> {
    match home {
        Some(h) => h,
        None => Seq::empty(),
    }
}

/// The path of `rest`, which is relative, below `base`.
pub fn path_join(base: &str, rest: &str) -> (r: String)
    ensures
        r@ == joined_path(base@, rest@),
{
    let v = chars_of(base);
    let mut r = base.to_owned();
    if v.len() > 0 && v[v.len() - 1] != '/' {
        r.append("/");
    }
    r.append(rest);
    r
}

pub(crate) fn home_or(home: Option<&str>) -> (r: &str)
    ensures
        r@ == home_or_empty(config::opt_str_view(home)),
{
    match home {
        Some(h) => h,
        None => {
            proof {
                reveal_strlit("");
                assert(""@ =~= Seq::<char>::empty());
            }
            ""
        },
    }
}

} // verus!
