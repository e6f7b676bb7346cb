//! `skills install`: where the bundled Agent Skill goes, and the report.

use vstd::prelude::*;

use crate::paths::{join, path_join};
use crate::text::push_str;

verus! {

broadcast use vstd::string::group_string_axioms;

/// The name of the bundled skill's directory.
pub open spec fn skill_name() -> Seq<char> {
    "neowright"@
}

/// `base/.agents/skills/neowright`.
pub open spec fn skill_dir_spec(base: Seq<char>) -> Seq<char> {
    path_join(path_join(path_join(base, ".agents"@), "skills"@), skill_name())
}

/// The install scope and target directory: the project (`cwd`) with `--local`,
/// otherwise the home directory, which must then be known.
pub fn install_target(local: bool, cwd: Option<&str>, home: Option<&str>) -> (r: Result<
    (String, String),
    String,
>)
    requires
        local ==> cwd is Some,
    ensures
        local ==> (r matches Ok((scope, path)) && scope@ == "local"@ && path@ == skill_dir_spec(
            cwd->0@,
        )),
        !local && home is Some ==> (r matches Ok((scope, path)) && scope@ == "global"@ && path@
            == skill_dir_spec(home->0@)),
        !local && home is None ==> (r matches Err(e) && e@
            == "HOME must be set to install the Neowright Agent Skill globally"@),
{
    let (scope, base) = if local {
        ("local".to_string(), cwd.unwrap())
    } else {
        match home {
            Some(h) => ("global".to_string(), h),
            None => return Err("HOME must be set to install the Neowright Agent Skill globally".to_string()),
        }
    };
    let agents = join(base, ".agents");
    let skills = join(agents.as_str(), "skills");
    Ok((scope, join(skills.as_str(), "neowright")))
}

/// `s[i..j]` is a whole `/`-separated component of `s`.
pub open spec fn is_component(s: Seq<char>, i: int, j: int) -> bool {
    &&& 0 <= i <= j <= s.len()
    &&& (i == 0 || s[i - 1] == '/')
    &&& (j == s.len() || s[j] == '/')
    &&& forall|k: int| i <= k < j ==> s[k] != '/'
}

/// A path the bundled skill may not use: absolute, or climbing out with `..`.
pub open spec fn unsafe_skill_path(s: Seq<char>) -> bool {
    (s.len() > 0 && s[0] == '/') || exists|i: int|
        #![trigger s[i]]
        is_component(s, i, i + 2) && s[i] == '.' && s[i + 1] == '.'
}

/// Refuses an absolute path or one with a `..` component.
pub fn validate_relative_skill_path(path: &str) -> (r: Result<(), String>)
    ensures
        !unsafe_skill_path(path@) ==> r is Ok,
        unsafe_skill_path(path@) ==> (r matches Err(e) && e@
            == "bundled Neowright Agent Skill contains unsafe path `"@ + path@ + "`"@),
{
    let v = crate::text::chars_of(path);
    let n = v.len();
    let mut bad = n > 0 && v[0] == '/';
    let mut i: usize = 0;
    while i < n && !bad
        invariant
            v@ == path@,
            n == v.len(),
            i <= n,
            bad ==> unsafe_skill_path(path@),
            !bad ==> !(n > 0 && v@[0] == '/'),
            !bad ==> forall|a: int|
                #![trigger v@[a]]
                0 <= a < i ==> !(is_component(v@, a, a + 2) && v@[a] == '.' && v@[a + 1] == '.'),
        decreases n - i,
    {
        let at_start = i == 0 || v[i - 1] == '/';
        if at_start && n - i >= 2 && v[i] == '.' && v[i + 1] == '.' && (i + 2 == n || v[i + 2] == '/') {
            assert(is_component(v@, i as int, i + 2));
            bad = true;
        } else {
            assert(!(is_component(v@, i as int, i + 2) && v@[i as int] == '.' && v@[i + 1] == '.'));
        }
        i += 1;
    }
    assert(bad == unsafe_skill_path(path@)) by {
        if !bad {
            assert forall|a: int| #![trigger v@[a]] !(is_component(v@, a, a + 2) && v@[a] == '.' && v@[a + 1] == '.') by {
                if 0 <= a < n {
                } else {
                }
            }
        }
    }
    if bad {
        let mut m = "bundled Neowright Agent Skill contains unsafe path `".to_string();
        push_str(&mut m, path);
        push_str(&mut m, "`");
        return Err(m);
    }
    Ok(())
}

pub open spec fn installed_text(scope: Seq<char>, path: Seq<char>, overwrote: bool) -> Seq<char> {
    "Installed Neowright Agent Skill.\n\n- Scope: `"@ + scope + "`\n- Path: `"@ + path + "`"@ + (
    if overwrote {
        "\n- Overwrote existing skill files"@
    } else {
        Seq::empty()
    })
}

/// The report of an installed skill.
pub fn installed_message(scope: &str, path: &str, overwrote: bool) -> (s: String)
    ensures
        s@ == installed_text(scope@, path@, overwrote),
{
    let mut s = "Installed Neowright Agent Skill.\n\n- Scope: `".to_string();
    push_str(&mut s, scope);
    push_str(&mut s, "`\n- Path: `");
    push_str(&mut s, path);
    push_str(&mut s, "`");
    if overwrote {
        push_str(&mut s, "\n- Overwrote existing skill files");
    }
    assert(s@ =~= installed_text(scope@, path@, overwrote));
    s
}

} // verus!
