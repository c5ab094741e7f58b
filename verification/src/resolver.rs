//! Import resolution: mapping an import path in a source file to a file id,
//! against a caller-supplied listing of the project's files. External
//! package imports resolve to nothing.
use vstd::prelude::*;


verus! {

/// Whether an import path names an external package: it starts with
/// neither a dot, a slash, nor a tilde.
pub open spec fn is_external_spec(p: Seq<char>) -> bool {
    !(p.len() > 0 && (p[0] == '.' || p[0] == '/' || p[0] == '~'))
}

/// Last index of `c` below `k` in `s`, if any.
pub open spec fn last_index(s: Seq<char>, c: char, k: int) -> Option<int>
    decreases k,
{
    if k <= 0 {
        None
    } else if s[k - 1] == c {
        Some(k - 1)
    } else {
        last_index(s, c, k - 1)
    }
}

/// A found last index is in range and carries the character.
pub proof fn lemma_last_index_valid(s: Seq<char>, c: char, k: int)
    requires
        last_index(s, c, k) is Some,
    ensures
        0 <= last_index(s, c, k)->Some_0 < k,
        s[last_index(s, c, k)->Some_0] == c,
    decreases k,
{
    if k > 0 && s[k - 1] != c {
        lemma_last_index_valid(s, c, k - 1);
    }
}

/// The directory part of a path: everything before the last slash, empty
/// without one.
pub open spec fn dir_of(s: Seq<char>) -> Seq<char> {
    match last_index(s, '/', s.len() as int) {
        Some(i) => s.subrange(0, i),
        None => Seq::empty(),
    }
}

/// An import path with every leading "./" removed.
pub open spec fn strip_rel(p: Seq<char>) -> Seq<char>
    decreases p.len(),
{
    if p.len() >= 2 && p[0] == '.' && p[1] == '/' {
        strip_rel(p.skip(2))
    } else {
        p
    }
}

/// The base candidate path of an import: absolute imports resolve against
/// the resolver's base path, relative ones against the source file's
/// directory, joined with the stripped import path.
pub open spec fn base_candidate(p: Seq<char>, src: Seq<char>, base: Seq<char>) -> Seq<char> {
    let root: Seq<char> = if p.len() > 0 && p[0] == '/' {
        base
    } else {
        dir_of(src)
    };
    root + "/"@ + strip_rel(p)
}

/// The `i`-th resolution candidate: the base candidate itself, then the
/// base with each script extension, then an index file under the base with
/// each extension.
pub open spec fn candidate_spec(cand: Seq<char>, i: int) -> Seq<char> {
    if i == 0 {
        cand
    } else if i == 1 {
        cand + ".ts"@
    } else if i == 2 {
        cand + ".tsx"@
    } else if i == 3 {
        cand + ".js"@
    } else if i == 4 {
        cand + ".jsx"@
    } else if i == 5 {
        cand + ".mjs"@
    } else if i == 6 {
        cand + ".cjs"@
    } else if i == 7 {
        cand + "/index.ts"@
    } else if i == 8 {
        cand + "/index.tsx"@
    } else if i == 9 {
        cand + "/index.js"@
    } else if i == 10 {
        cand + "/index.jsx"@
    } else if i == 11 {
        cand + "/index.mjs"@
    } else {
        cand + "/index.cjs"@
    }
}

/// Whether a file listing holds the given path.
pub open spec fn listing_has(files: Seq<String>, c: Seq<char>, k: int) -> bool
    decreases k,
{
    k > 0 && (files[k - 1]@ == c || listing_has(files, c, k - 1))
}

/// The first candidate (by index, from `i` up) present in the listing.
pub open spec fn first_candidate(files: Seq<String>, cand: Seq<char>, i: int) -> Option<Seq<char>>
    decreases 13 - i,
{
    if i >= 13 {
        None
    } else if listing_has(files, candidate_spec(cand, i), files.len() as int) {
        Some(candidate_spec(cand, i))
    } else {
        first_candidate(files, cand, i + 1)
    }
}

/// What an import resolves to: nothing for an external package import,
/// otherwise the first matching candidate under a "file:" scheme.
pub open spec fn resolve_spec(files: Seq<String>, p: Seq<char>, src: Seq<char>, base: Seq<
    char,
>) -> Option<Seq<char>> {
    if is_external_spec(p) {
        None
    } else {
        match first_candidate(files, base_candidate(p, src, base), 0) {
            Some(c) => Some("file:"@ + c),
            None => None,
        }
    }
}

/// Resolves import paths to file ids against a known file listing.
pub struct ImportResolver {
    pub base_path: String,
}

impl ImportResolver {
    /// A resolver rooted at the given project base path.
    pub fn new(base_path: String) -> (r: ImportResolver)
        ensures
            r.base_path == base_path,
    {
        ImportResolver { base_path }
    }

    /// Whether an import names an external package; see
    /// `is_external_spec`.
    pub fn is_external_import(&self, import_path: &String) -> (r: bool)
        ensures
            r == is_external_spec(import_path@),
    {
        let l = import_path.as_str().unicode_len();
        if l == 0 {
            return true;
        }
        let c = import_path.as_str().get_char(0);
        !(c == '.' || c == '/' || c == '~')
    }

    /// Resolve an import written in `source_file` against the files in
    /// `existing_files`; see `resolve_spec` for the exact statement.
    #[verifier::loop_isolation(false)]
    pub fn resolve_import(
        &self,
        import_path: &String,
        source_file: &String,
        existing_files: &Vec<String>,
    ) -> (r: Option<String>)
        ensures
            match r {
                Some(s) => resolve_spec(
                    existing_files@,
                    import_path@,
                    source_file@,
                    self.base_path@,
                ) == Some(s@),
                None => resolve_spec(
                    existing_files@,
                    import_path@,
                    source_file@,
                    self.base_path@,
                ) is None,
            },
    {
        if self.is_external_import(import_path) {
            return None;
        }

        // the source file's directory
        let sl = source_file.as_str().unicode_len();
        let mut slash: Option<usize> = None;
        let mut i: usize = 0;
        while i < sl
            invariant
                i <= sl,
                match slash {
                    Some(j) => last_index(source_file@, '/', i as int) == Some(j as int),
                    None => last_index(source_file@, '/', i as int) is None,
                },
            decreases sl - i,
        {
            if source_file.as_str().get_char(i) == '/' {
                slash = Some(i);
            }
            i = i + 1;
        }
        proof {
            if last_index(source_file@, '/', source_file@.len() as int) is Some {
                lemma_last_index_valid(source_file@, '/', source_file@.len() as int);
            }
        }
        let src_dir: String = match slash {
            Some(j) => String::from_str(source_file.as_str().substring_char(0, j)),
            None => String::new(),
        };

        // strip leading "./" occurrences
        let mut stripped: String = import_path.clone();
        let mut sl2 = stripped.as_str().unicode_len();
        while sl2 >= 2 && stripped.as_str().get_char(0) == '.' && stripped.as_str().get_char(1)
            == '/'
            invariant
                sl2 == stripped@.len(),
                strip_rel(stripped@) == strip_rel(import_path@),
            decreases sl2,
        {
            proof {
                assert(stripped@.skip(2) =~= stripped@.subrange(2, stripped@.len() as int));
            }
            stripped = String::from_str(stripped.as_str().substring_char(2, sl2));
            sl2 = stripped.as_str().unicode_len();
        }

        // root plus separator plus stripped import
        let absolute = {
            let pl = import_path.as_str().unicode_len();
            pl > 0 && import_path.as_str().get_char(0) == '/'
        };
        let mut cand = if absolute {
            self.base_path.clone()
        } else {
            src_dir
        };
        cand.append("/");
        cand.append(stripped.as_str());
        proof {
            assert(cand@ =~= base_candidate(import_path@, source_file@, self.base_path@));
        }

        let mut ci: usize = 0;
        while ci < 13
            invariant
                ci <= 13,
                cand@ == base_candidate(import_path@, source_file@, self.base_path@),
                first_candidate(existing_files@, cand@, 0) == first_candidate(
                    existing_files@,
                    cand@,
                    ci as int,
                ),
            decreases 13 - ci,
        {
            let mut attempt = cand.clone();
            if ci == 1 {
                attempt.append(".ts");
            } else if ci == 2 {
                attempt.append(".tsx");
            } else if ci == 3 {
                attempt.append(".js");
            } else if ci == 4 {
                attempt.append(".jsx");
            } else if ci == 5 {
                attempt.append(".mjs");
            } else if ci == 6 {
                attempt.append(".cjs");
            } else if ci == 7 {
                attempt.append("/index.ts");
            } else if ci == 8 {
                attempt.append("/index.tsx");
            } else if ci == 9 {
                attempt.append("/index.js");
            } else if ci == 10 {
                attempt.append("/index.jsx");
            } else if ci == 11 {
                attempt.append("/index.mjs");
            } else if ci == 12 {
                attempt.append("/index.cjs");
            }
            proof {
                assert(attempt@ =~= candidate_spec(cand@, ci as int));
            }
            let fl = existing_files.len();
            let mut k: usize = 0;
            let mut found = false;
            while k < fl
                invariant
                    k <= fl,
                    found == listing_has(existing_files@, attempt@, k as int),
                decreases fl - k,
            {
                if existing_files[k].eq(&attempt) {
                    found = true;
                }
                k = k + 1;
            }
            if found {
                let mut out = String::from_str("file:");
                out.append(attempt.as_str());
                return Some(out);
            }
            ci = ci + 1;
        }
        None
    }
}

} // verus!
