//! File-listing types shared with a front end, and the common-base-path
//! helper a file tree is rooted at.
use vstd::prelude::*;

use crate::resolver::dir_of;
use crate::resolver::last_index;
use crate::resolver::lemma_last_index_valid;

verus! {

/// Summary of one parsing run, as handed to a front end.
#[derive(Debug)]
pub struct ParseResult {
    pub file_count: usize,
    pub node_count: usize,
    pub edge_count: usize,
    pub languages: Vec<String>,
    pub files: Vec<FileNode>,
}

/// One entry of a file tree: a file or directory with optional children.
#[derive(Debug)]
pub struct FileNode {
    pub name: String,
    pub path: String,
    pub node_type: String,
    pub children: Option<Vec<FileNode>>,
    pub size: Option<usize>,
    pub extension: Option<String>,
    pub line_count: Option<usize>,
}

/// Whether `p` lies under directory `c`: an empty directory holds
/// everything, otherwise `c` must be a component-aligned prefix of `p`.
pub open spec fn under_dir(p: Seq<char>, c: Seq<char>) -> bool {
    c.len() == 0 || (c.len() <= p.len() && p.subrange(0, c.len() as int) == c && (p.len()
        == c.len() || p[c.len() as int] == '/'))
}

/// The directory prefix of a non-empty path is strictly shorter.
pub proof fn lemma_dir_of_shorter(s: Seq<char>)
    requires
        s.len() > 0,
    ensures
        dir_of(s).len() < s.len(),
{
    if last_index(s, '/', s.len() as int) is Some {
        lemma_last_index_valid(s, '/', s.len() as int);
    }
}

/// Whether `p` lies under directory `c`, in executable form.
#[verifier::loop_isolation(false)]
pub fn is_under_dir(p: &String, c: &String) -> (r: bool)
    ensures
        r == under_dir(p@, c@),
{
    let cl = c.as_str().unicode_len();
    if cl == 0 {
        return true;
    }
    let pl = p.as_str().unicode_len();
    if cl > pl {
        proof {
            assert(!under_dir(p@, c@));
        }
        return false;
    }
    let mut i: usize = 0;
    while i < cl
        invariant
            i <= cl,
            forall|j: int| 0 <= j < i ==> p@[j] == c@[j],
        decreases cl - i,
    {
        if p.as_str().get_char(i) != c.as_str().get_char(i) {
            proof {
                assert(p@.subrange(0, cl as int) != c@) by {
                    assert(p@.subrange(0, cl as int)[i as int] == p@[i as int]);
                }
            }
            return false;
        }
        i = i + 1;
    }
    proof {
        assert(p@.subrange(0, cl as int) =~= c@);
    }
    pl == cl || p.as_str().get_char(cl) == '/'
}

/// The directory part of a path, in executable form.
#[verifier::loop_isolation(false)]
pub fn path_dir(s: &String) -> (r: String)
    ensures
        r@ == dir_of(s@),
{
    let sl = s.as_str().unicode_len();
    let mut slash: Option<usize> = None;
    let mut i: usize = 0;
    while i < sl
        invariant
            i <= sl,
            match slash {
                Some(j) => last_index(s@, '/', i as int) == Some(j as int),
                None => last_index(s@, '/', i as int) is None,
            },
        decreases sl - i,
    {
        if s.as_str().get_char(i) == '/' {
            slash = Some(i);
        }
        i = i + 1;
    }
    proof {
        if last_index(s@, '/', s@.len() as int) is Some {
            lemma_last_index_valid(s@, '/', s@.len() as int);
        }
    }
    match slash {
        Some(j) => String::from_str(s.as_str().substring_char(0, j)),
        None => String::new(),
    }
}

/// The deepest directory that every path lies under: start from the first
/// path's directory and climb until every path fits; an empty listing has
/// no base.
#[verifier::loop_isolation(false)]
pub fn find_common_base_path(paths: &Vec<String>) -> (r: Option<String>)
    ensures
        r is Some <==> paths@.len() > 0,
        r is Some ==> forall|i: int|
            0 <= i < paths@.len() ==> under_dir((#[trigger] paths@[i])@, r->Some_0@),
{
    if paths.len() == 0 {
        return None;
    }
    let mut common = path_dir(&paths[0]);
    let mut i: usize = 0;
    while i < paths.len()
        invariant
            i <= paths@.len(),
            forall|j: int| 0 <= j < i ==> under_dir((#[trigger] paths@[j])@, common@),
        decreases paths@.len() - i,
    {
        while !is_under_dir(&paths[i], &common)
            invariant
                i < paths@.len(),
                forall|j: int| 0 <= j < i ==> under_dir((#[trigger] paths@[j])@, common@),
            decreases common@.len(),
        {
            proof {
                lemma_dir_of_shorter(common@);
                assert forall|j: int|
                    0 <= j < i implies under_dir((#[trigger] paths@[j])@, dir_of(common@)) by {
                    lemma_under_parent(paths@[j]@, common@);
                }
            }
            common = path_dir(&common);
        }
        i = i + 1;
    }
    Some(common)
}

/// Whatever lies under a directory lies under the directory's parent.
proof fn lemma_under_parent(p: Seq<char>, c: Seq<char>)
    requires
        under_dir(p, c),
    ensures
        under_dir(p, dir_of(c)),
{
    if c.len() > 0 {
        let d = dir_of(c);
        if d.len() > 0 {
            lemma_last_index_valid(c, '/', c.len() as int);
            let k = last_index(c, '/', c.len() as int)->Some_0;
            assert(d == c.subrange(0, k));
            assert(c[k] == '/');
            assert(d.len() == k);
            assert(p.subrange(0, c.len() as int) == c);
            assert forall|j: int| 0 <= j < k implies p[j] == d[j] by {
                assert(p.subrange(0, c.len() as int)[j] == p[j]);
                assert(c.subrange(0, k)[j] == c[j]);
            }
            assert(p.subrange(0, k) =~= d);
            assert(p[k] == c[k]);
        }
    }
}

} // verus!
