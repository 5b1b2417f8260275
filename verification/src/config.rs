//! The files that a walk of a repository never enters, whatever its
//! ignore files say.

use vstd::prelude::*;
use crate::text::concat2;

verus! {

/// Version control, editor, dependency, build-output and cache directories,
/// the index's own directory, and generated bundles.
pub open spec fn always_ignored() -> Seq<Seq<char>> {
    seq![
        ".git"@, ".svn"@, ".hg"@, ".bzr"@, ".idea"@, ".vscode"@, ".vs"@, ".eclipse"@, ".settings"@,
        ".DS_Store"@, "Thumbs.db"@, "node_modules"@, "bower_components"@, "jspm_packages"@,
        "vendor"@, "venv"@, ".venv"@, "env"@, ".env"@, "__pycache__"@, ".pytest_cache"@,
        ".mypy_cache"@, "site-packages"@, ".tox"@, "dist"@, "build"@, "out"@, "output"@, "bin"@,
        "obj"@, "target"@, ".next"@, ".nuxt"@, ".output"@, ".vercel"@, ".netlify"@, ".serverless"@,
        "_build"@, ".parcel-cache"@, ".cache"@, ".turbo"@, "coverage"@, ".nyc_output"@,
        ".gitnexus"@, "*.min.js"@, "*.min.css"@, "*.bundle.js"@, "*.chunk.js"@, "*.map"@,
    ]
}

/// The names and globs that are always ignored (see `always_ignored`).
pub fn always_ignore() -> (r: Vec<&'static str>)
    ensures
        r@.map_values(|p: &str| p@) == always_ignored(),
{
    let r = vec![
        ".git", ".svn", ".hg", ".bzr", ".idea", ".vscode", ".vs", ".eclipse", ".settings",
        ".DS_Store", "Thumbs.db", "node_modules", "bower_components", "jspm_packages", "vendor",
        "venv", ".venv", "env", ".env", "__pycache__", ".pytest_cache", ".mypy_cache",
        "site-packages", ".tox", "dist", "build", "out", "output", "bin", "obj", "target", ".next",
        ".nuxt", ".output", ".vercel", ".netlify", ".serverless", "_build", ".parcel-cache",
        ".cache", ".turbo", "coverage", ".nyc_output", ".gitnexus", "*.min.js", "*.min.css",
        "*.bundle.js", "*.chunk.js", "*.map",
    ];
    assert(r@.map_values(|p: &str| p@) =~= always_ignored());
    r
}

/// An override glob that excludes what `p` matches.
pub open spec fn excluding(p: Seq<char>) -> Seq<char> {
    seq!['!'] + p
}

/// The override globs of a walk: each always-ignored pattern, negated.
pub fn override_globs() -> (r: Vec<String>)
    ensures
        r@.map_values(|g: String| g@) == always_ignored().map_values(|p: Seq<char>| excluding(p)),
{
    let pats = always_ignore();
    let mut r: Vec<String> = Vec::new();
    let mut i: usize = 0;
    proof {
        reveal_strlit("!");
    }
    while i < pats.len()
        invariant
            pats@.map_values(|p: &str| p@) == always_ignored(),
            0 <= i <= pats@.len(),
            "!"@ == seq!['!'],
            r@.map_values(|g: String| g@) == always_ignored().take(i as int).map_values(|p: Seq<char>| excluding(p)),
        decreases pats@.len() - i,
    {
        let ghost before = r@;
        let g = concat2("!", pats[i]);
        r.push(g);
        proof {
            assert(pats@[i as int]@ == always_ignored()[i as int]);
            assert(r@.map_values(|g: String| g@) =~= before.map_values(|g: String| g@).push(excluding(always_ignored()[i as int])));
            assert(always_ignored().take(i + 1).map_values(|p: Seq<char>| excluding(p)) =~= always_ignored().take(i as int).map_values(|p: Seq<char>| excluding(p)).push(excluding(always_ignored()[i as int])));
        }
        i = i + 1;
    }
    proof {
        assert(always_ignored().take(i as int) =~= always_ignored());
    }
    r
}

} // verus!
