//! Paths as text, joined as `Path::join` joins them on Unix.

use vstd::prelude::*;

use crate::text::push_str;

verus! {

broadcast use vstd::string::group_string_axioms;

/// `base` joined with `rel`: an absolute `rel` replaces `base`; otherwise a `/`
/// separates them unless `base` is empty or already ends with one.
pub open spec fn path_join(base: Seq<char>, rel: Seq<char>) -> Seq<char> {
    if rel.len() > 0 && rel[0] == '/' {
        rel
    } else if base.len() > 0 && base.last() != '/' {
        base + seq!['/'] + rel
    } else {
        base + rel
    }
}

/// Joins `rel` onto the path `base`.
pub fn join(base: &str, rel: &str) -> (p: String)
    ensures
        p@ == path_join(base@, rel@),
{
    let r = crate::text::chars_of(rel);
    if r.len() > 0 && r[0] == '/' {
        return rel.to_string();
    }
    let b = crate::text::chars_of(base);
    let mut p = base.to_string();
    if b.len() > 0 && b[b.len() - 1] != '/' {
        p.push('/');
    }
    push_str(&mut p, rel);
    p
}

} // verus!
