//! Level-of-detail model: packages, files and functions as a snapshot, and
//! helpers that derive package ids from file paths.
use vstd::prelude::*;

verus! {

/// The level of detail a graph view is rendered at.
#[derive(Debug, Clone, Copy, PartialEq, Eq, Structural)]
pub enum LodLevel {
    L1Packages,
    L2Files,
    L4Functions,
}

impl LodLevel {
    /// The numeric rank of the level: packages one, files two, functions
    /// four.
    pub fn to_number(&self) -> (r: u8)
        ensures
            r == self.spec_number(),
    {
        match self {
            LodLevel::L1Packages => 1,
            LodLevel::L2Files => 2,
            LodLevel::L4Functions => 4,
        }
    }

    pub open spec fn spec_number(self) -> u8 {
        match self {
            LodLevel::L1Packages => 1u8,
            LodLevel::L2Files => 2u8,
            LodLevel::L4Functions => 4u8,
        }
    }
}

/// A package in the snapshot.
#[derive(Debug, Clone)]
pub struct PackageNode {
    pub id: String,
    pub label: String,
    pub file_ids: Vec<String>,
}

/// A file in the snapshot.
#[derive(Debug, Clone)]
pub struct FileNode {
    pub id: String,
    pub label: String,
    pub package_id: Option<String>,
    pub function_ids: Vec<String>,
    pub imports: Vec<String>,
    pub file_path: String,
}

/// A function in the snapshot.
#[derive(Debug, Clone)]
pub struct FunctionNode {
    pub id: String,
    pub label: String,
    pub file_id: String,
    pub calls: Vec<String>,
}

/// A snapshot of parsed data, for persisting and re-serving views.
#[derive(Debug, Clone)]
pub struct GraphSnapshot {
    pub packages: Vec<PackageNode>,
    pub files: Vec<FileNode>,
    pub functions: Vec<FunctionNode>,
}

/// First index of `c` in `s`, if any.
pub open spec fn char_index(s: Seq<char>, c: char, k: int) -> Option<int>
    decreases k,
{
    if k <= 0 {
        None
    } else {
        match char_index(s, c, k - 1) {
            Some(i) => Some(i),
            None => if s[k - 1] == c {
                Some(k - 1)
            } else {
                None
            },
        }
    }
}

/// A found prefix match stays found in longer prefixes.
pub proof fn lemma_char_index_extend(s: Seq<char>, c: char, k1: int, k2: int)
    requires
        0 <= k1 <= k2,
        char_index(s, c, k1) is Some,
    ensures
        char_index(s, c, k2) == char_index(s, c, k1),
    decreases k2,
{
    if k2 > k1 {
        lemma_char_index_extend(s, c, k1, k2 - 1);
    }
}

/// The package id a file path maps to: the path's first directory
/// component under a "pkg." prefix; paths without a directory separator
/// (and missing paths) fall back to the root package.
pub open spec fn derive_package_spec(path: Option<Seq<char>>) -> Seq<char> {
    match path {
        Some(p) => match char_index(p, '/', p.len() as int) {
            Some(i) => "pkg."@ + p.subrange(0, i),
            None => "pkg.root"@,
        },
        None => "pkg.root"@,
    }
}

impl GraphSnapshot {
    /// Derive a package id from a file path; see `derive_package_spec`.
    #[verifier::loop_isolation(false)]
    pub fn derive_package_from_path(path: &Option<String>) -> (r: String)
        ensures
            path is Some ==> r@ == derive_package_spec(Some(path->Some_0@)),
            path is None ==> r@ == "pkg.root"@,
    {
        match path {
            Some(p) => {
                let pl = p.as_str().unicode_len();
                let mut i: usize = 0;
                while i < pl
                    invariant
                        i <= pl,
                        pl == p@.len(),
                        char_index(p@, '/', i as int) is None,
                    decreases pl - i,
                {
                    if p.as_str().get_char(i) == '/' {
                        proof {
                            assert(char_index(p@, '/', i as int + 1) == Some(i as int));
                            lemma_char_index_extend(p@, '/', i as int + 1, p@.len() as int);
                        }
                        let prefix = p.as_str().substring_char(0, i);
                        let mut s = String::from_str("pkg.");
                        s.append(prefix);
                        proof {
                            assert(s@ =~= derive_package_spec(Some(p@)));
                        }
                        return s;
                    }
                    i = i + 1;
                }
                String::from_str("pkg.root")
            },
            None => String::from_str("pkg.root"),
        }
    }

    /// The bare package name of a package id: the id with a leading "pkg."
    /// stripped; ids without that prefix come back unchanged.
    pub fn extract_package_name(pkg_id: &String) -> (r: String)
        ensures
            pkg_id@.len() >= 4 && pkg_id@.subrange(0, 4) == "pkg."@ ==> r@ == pkg_id@.subrange(
                4,
                pkg_id@.len() as int,
            ),
            !(pkg_id@.len() >= 4 && pkg_id@.subrange(0, 4) == "pkg."@) ==> r@ == pkg_id@,
    {
        let l = pkg_id.as_str().unicode_len();
        if l >= 4 {
            let c0 = pkg_id.as_str().get_char(0);
            let c1 = pkg_id.as_str().get_char(1);
            let c2 = pkg_id.as_str().get_char(2);
            let c3 = pkg_id.as_str().get_char(3);
            if c0 == 'p' && c1 == 'k' && c2 == 'g' && c3 == '.' {
                proof {
                    reveal_strlit("pkg.");
                    assert(pkg_id@.subrange(0, 4) =~= "pkg."@);
                }
                return String::from_str(pkg_id.as_str().substring_char(4, l));
            }
            proof {
                reveal_strlit("pkg.");
                assert(pkg_id@.subrange(0, 4) != "pkg."@) by {
                    if pkg_id@.subrange(0, 4) == "pkg."@ {
                        assert(pkg_id@.subrange(0, 4)[0] == 'p');
                        assert(pkg_id@.subrange(0, 4)[1] == 'k');
                        assert(pkg_id@.subrange(0, 4)[2] == 'g');
                        assert(pkg_id@.subrange(0, 4)[3] == '.');
                    }
                }
            }
        }
        pkg_id.clone()
    }
}

} // verus!
