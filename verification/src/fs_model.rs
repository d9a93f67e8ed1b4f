//! A value model of the cache's target directory.
//!
//! The expander's effect on disk is stated over this model: a map from
//! slash-separated paths to nodes, held executably as a list of bindings
//! in which a later binding shadows an earlier one.  The model operations
//! — create a directory with its ancestors, write a file, mark a file
//! executable — mirror what the launcher does to the real tree, and the
//! executable operations are proved against them.

use vstd::prelude::*;
use vstd::string::StrSliceExecFns;
use vstd::string::StringExecFns;

verus! {

/// A node of the modeled directory tree.
pub enum FsNode {
    Dir,
    File { data: Vec<u8>, executable: bool },
}

/// The ghost value of a node.
pub enum FsNodeModel {
    Dir,
    File { data: Seq<u8>, executable: bool },
}

impl FsNode {
    pub open spec fn model(self) -> FsNodeModel {
        match self {
            FsNode::Dir => FsNodeModel::Dir,
            FsNode::File { data, executable } => FsNodeModel::File {
                data: data@,
                executable,
            },
        }
    }
}

impl FsNodeModel {
    /// The bytes of a file node; empty for a directory.
    pub open spec fn file_data(self) -> Seq<u8> {
        match self {
            FsNodeModel::File { data, .. } => data,
            FsNodeModel::Dir => Seq::empty(),
        }
    }

    /// Whether this is a file whose execute bit is set.
    pub open spec fn is_executable_file(self) -> bool {
        match self {
            FsNodeModel::File { executable, .. } => executable,
            FsNodeModel::Dir => false,
        }
    }
}

/// The index of the last `/` strictly before `end`, or `-1` if there is
/// none.
pub open spec fn last_slash_before(p: Seq<char>, end: int) -> int
    decreases end,
{
    if end <= 0 {
        -1
    } else if p[end - 1] == '/' {
        end - 1
    } else {
        last_slash_before(p, end - 1)
    }
}

pub proof fn lemma_last_slash_bounds(p: Seq<char>, end: int)
    requires
        end >= 0,
    ensures
        -1 <= last_slash_before(p, end) <= end - 1,
    decreases end,
{
    if end > 0 && p[end - 1] != '/' {
        lemma_last_slash_bounds(p, end - 1);
    }
}

/// The path of the directory containing `p`: everything before the last
/// slash, or the empty path when `p` has no proper parent.
pub open spec fn parent_path(p: Seq<char>) -> Seq<char> {
    let i = last_slash_before(p, p.len() as int);
    if i <= 0 {
        Seq::empty()
    } else {
        p.subrange(0, i)
    }
}

pub proof fn lemma_parent_path_shorter(p: Seq<char>)
    requires
        p.len() > 0,
    ensures
        parent_path(p).len() < p.len(),
{
    lemma_last_slash_bounds(p, p.len() as int);
}

/// Creates the directory at `path` and every missing ancestor, innermost
/// last; fails if any of them already exists as a file.  The empty path
/// is the target directory itself and needs no work.
pub open spec fn mkdir_all(m: Map<Seq<char>, FsNodeModel>, path: Seq<char>) -> Option<
    Map<Seq<char>, FsNodeModel>,
>
    decreases path.len(),
    via mkdir_all_decreases
{
    if path.len() == 0 {
        Some(m)
    } else {
        match mkdir_all(m, parent_path(path)) {
            None => None,
            Some(m1) => {
                if m1.contains_key(path) && !(m1[path] is Dir) {
                    None
                } else {
                    Some(m1.insert(path, FsNodeModel::Dir))
                }
            },
        }
    }
}

#[via_fn]
proof fn mkdir_all_decreases(m: Map<Seq<char>, FsNodeModel>, path: Seq<char>) {
    if path.len() > 0 {
        lemma_parent_path_shorter(path);
    }
}

/// Every path that creating the directory `p` touches: `p` itself and
/// each of its ancestors.
pub open spec fn ancestors(p: Seq<char>) -> Set<Seq<char>>
    decreases p.len(),
    via ancestors_decreases
{
    if p.len() == 0 {
        Set::empty()
    } else {
        ancestors(parent_path(p)).insert(p)
    }
}

#[via_fn]
proof fn ancestors_decreases(p: Seq<char>) {
    if p.len() > 0 {
        lemma_parent_path_shorter(p);
    }
}

/// A successful `mkdir_all` adds exactly the requested path and its
/// ancestors to the tree's paths.
pub proof fn lemma_mkdir_all_domain(m: Map<Seq<char>, FsNodeModel>, p: Seq<char>)
    requires
        mkdir_all(m, p) is Some,
    ensures
        mkdir_all(m, p)->Some_0.dom() =~= m.dom().union(ancestors(p)),
    decreases p.len(),
{
    if p.len() == 0 {
        assert(m.dom().union(Set::empty()) =~= m.dom());
    } else {
        lemma_parent_path_shorter(p);
        lemma_mkdir_all_domain(m, parent_path(p));
    }
}

/// Every member of `ancestors(p)` is no longer than `p`.
pub proof fn lemma_ancestors_len(p: Seq<char>)
    ensures
        forall|q: Seq<char>| #[trigger] ancestors(p).contains(q) ==> q.len() <= p.len(),
    decreases p.len(),
{
    if p.len() > 0 {
        lemma_parent_path_shorter(p);
        lemma_ancestors_len(parent_path(p));
        assert forall|q: Seq<char>| #[trigger] ancestors(p).contains(q) implies q.len()
            <= p.len() by {
            if q != p {
                assert(ancestors(parent_path(p)).contains(q));
            }
        }
    }
}

/// `mkdir_all` touches only the requested path and its ancestors: every
/// other binding keeps its presence and its value.
pub proof fn lemma_mkdir_all_preserves(m: Map<Seq<char>, FsNodeModel>, p: Seq<char>)
    requires
        mkdir_all(m, p) is Some,
    ensures
        forall|q: Seq<char>|
            !(#[trigger] ancestors(p).contains(q)) ==> {
                &&& mkdir_all(m, p)->Some_0.contains_key(q) == m.contains_key(q)
                &&& m.contains_key(q) ==> mkdir_all(m, p)->Some_0[q] == m[q]
            },
    decreases p.len(),
{
    if p.len() > 0 {
        lemma_parent_path_shorter(p);
        lemma_mkdir_all_preserves(m, parent_path(p));
        let m1 = mkdir_all(m, parent_path(p))->Some_0;
        assert forall|q: Seq<char>| !(#[trigger] ancestors(p).contains(q)) implies {
            &&& mkdir_all(m, p)->Some_0.contains_key(q) == m.contains_key(q)
            &&& m.contains_key(q) ==> mkdir_all(m, p)->Some_0[q] == m[q]
        } by {
            assert(!ancestors(parent_path(p)).contains(q));
            assert(q != p);
            assert(mkdir_all(m, p)->Some_0 == m1.insert(p, FsNodeModel::Dir));
        }
    }
}

/// Writes a file at `path`, truncating an existing file; fails if a
/// directory stands there.
pub open spec fn place_file(
    m: Map<Seq<char>, FsNodeModel>,
    path: Seq<char>,
    data: Seq<u8>,
) -> Option<Map<Seq<char>, FsNodeModel>> {
    if m.contains_key(path) && m[path] is Dir {
        None
    } else {
        Some(m.insert(path, FsNodeModel::File { data, executable: false }))
    }
}

/// Writes a file entry as one step: creates the missing parents, then
/// places the file; fails if an ancestor exists as a file or the path
/// itself as a directory.
pub open spec fn file_entry_apply(
    m: Map<Seq<char>, FsNodeModel>,
    path: Seq<char>,
    data: Seq<u8>,
) -> Option<Map<Seq<char>, FsNodeModel>> {
    match mkdir_all(m, parent_path(path)) {
        None => None,
        Some(m1) => place_file(m1, path, data),
    }
}

/// Sets the execute bit of the file at `path`; fails unless a file is
/// there.
pub open spec fn mark_executable(m: Map<Seq<char>, FsNodeModel>, path: Seq<char>) -> Option<
    Map<Seq<char>, FsNodeModel>,
> {
    if m.contains_key(path) && m[path] is File {
        Some(
            m.insert(
                path,
                FsNodeModel::File { data: m[path].file_data(), executable: true },
            ),
        )
    } else {
        None
    }
}

/// The modeled target directory.
pub struct DirTree {
    pub entries: Vec<(String, FsNode)>,
}

impl DirTree {
    /// Last-binding-wins lookup over the raw binding list.
    pub open spec fn find_in(s: Seq<(String, FsNode)>, path: Seq<char>) -> Option<FsNodeModel>
        decreases s.len(),
    {
        if s.len() == 0 {
            None
        } else if s.last().0@ == path {
            Some(s.last().1.model())
        } else {
            Self::find_in(s.drop_last(), path)
        }
    }

    /// The node bound at `path`, if any.
    pub open spec fn node_at(self, path: Seq<char>) -> Option<FsNodeModel> {
        Self::find_in(self.entries@, path)
    }

    /// The tree as a map from paths to nodes.
    pub open spec fn as_map(self) -> Map<Seq<char>, FsNodeModel> {
        Map::new(
            |p: Seq<char>| Self::find_in(self.entries@, p) is Some,
            |p: Seq<char>| Self::find_in(self.entries@, p)->Some_0,
        )
    }

    proof fn lemma_find_in_push(s: Seq<(String, FsNode)>, pair: (String, FsNode), path: Seq<char>)
        ensures
            Self::find_in(s.push(pair), path) == if pair.0@ == path {
                Some(pair.1.model())
            } else {
                Self::find_in(s, path)
            },
    {
        assert(s.push(pair).last() == pair);
        assert(s.push(pair).drop_last() =~= s);
    }

    /// An empty tree.
    pub fn new() -> (r: DirTree)
        ensures
            r.as_map() == Map::<Seq<char>, FsNodeModel>::empty(),
    {
        let r = DirTree { entries: Vec::new() };
        proof {
            assert(r.as_map() =~= Map::<Seq<char>, FsNodeModel>::empty());
        }
        r
    }

    /// Removes everything: expansion replaces, it never merges.
    pub fn clear(&mut self)
        ensures
            final(self).as_map() == Map::<Seq<char>, FsNodeModel>::empty(),
    {
        self.entries.clear();
        proof {
            assert(self.as_map() =~= Map::<Seq<char>, FsNodeModel>::empty());
        }
    }

    /// The node at `path`, if any.
    pub fn lookup<'a>(&'a self, path: &str) -> (r: Option<&'a FsNode>)
        ensures
            match r {
                Some(n) => self.node_at(path@) == Some(n.model()),
                None => self.node_at(path@) is None,
            },
    {
        let mut i: usize = self.entries.len();
        proof {
            assert(self.entries@.take(i as int) =~= self.entries@);
        }
        while i > 0
            invariant
                i <= self.entries@.len(),
                Self::find_in(self.entries@, path@) == Self::find_in(
                    self.entries@.take(i as int),
                    path@,
                ),
            decreases i,
        {
            let ghost pre = self.entries@.take(i as int);
            proof {
                assert(pre.last() == self.entries@[i - 1]);
                assert(pre.drop_last() =~= self.entries@.take(i - 1));
            }
            if crate::text::str_eq(self.entries[i - 1].0.as_str(), path) {
                return Some(&self.entries[i - 1].1);
            }
            i = i - 1;
        }
        proof {
            assert(self.entries@.take(0) =~= Seq::<(String, FsNode)>::empty());
        }
        None
    }

    /// Binds `path` to `node`, shadowing any earlier binding.
    fn place(&mut self, path: String, node: FsNode)
        ensures
            final(self).as_map() == old(self).as_map().insert(path@, node.model()),
    {
        let ghost before = self.entries@;
        let ghost pathview = path@;
        let ghost nodemodel = node.model();
        self.entries.push((path, node));
        proof {
            assert forall|p: Seq<char>| #[trigger] Self::find_in(self.entries@, p) == (if p
                == pathview {
                Some(nodemodel)
            } else {
                Self::find_in(before, p)
            }) by {
                Self::lemma_find_in_push(before, self.entries@.last(), p);
            }
            assert(self.as_map() =~= old(self).as_map().insert(pathview, nodemodel));
        }
    }

    /// Whether the directory at `path` and its missing ancestors can be
    /// created, exactly whether `mkdir_all` succeeds.
    fn can_make_dirs(&self, path: &String) -> (r: bool)
        ensures
            r == (mkdir_all(self.as_map(), path@) is Some),
        decreases path@.len(),
    {
        if path.as_str().unicode_len() == 0 {
            return true;
        }
        let parent = parent_string(path);
        proof {
            lemma_parent_path_shorter(path@);
        }
        if !self.can_make_dirs(&parent) {
            return false;
        }
        proof {
            lemma_mkdir_all_preserves(self.as_map(), parent_path(path@));
            lemma_ancestors_len(parent_path(path@));
            assert(!ancestors(parent_path(path@)).contains(path@));
        }
        match self.lookup(path.as_str()) {
            Some(node) => {
                match node {
                    FsNode::Dir => true,
                    FsNode::File { .. } => false,
                }
            },
            None => true,
        }
    }

    /// Creates the directory at `path` and every missing ancestor,
    /// innermost last.
    fn make_dirs(&mut self, path: &String)
        requires
            mkdir_all(old(self).as_map(), path@) is Some,
        ensures
            mkdir_all(old(self).as_map(), path@) == Some(final(self).as_map()),
        decreases path@.len(),
    {
        if path.as_str().unicode_len() == 0 {
            return;
        }
        let parent = parent_string(path);
        proof {
            lemma_parent_path_shorter(path@);
        }
        self.make_dirs(&parent);
        match self.lookup(path.as_str()) {
            Some(node) => {
                match node {
                    FsNode::Dir => {
                        proof {
                            assert(self.as_map() =~= self.as_map().insert(
                                path@,
                                FsNodeModel::Dir,
                            ));
                        }
                    },
                    FsNode::File { .. } => {
                        proof {
                            assert(false);
                        }
                    },
                }
            },
            None => {
                self.place(path.clone(), FsNode::Dir);
            },
        }
    }

    /// Creates the directory at `path` and every missing ancestor, as
    /// `mkdir_all` describes; when any of them already exists as a file
    /// nothing is touched.
    pub fn ensure_dir_all(&mut self, path: &String) -> (r: Result<(), ()>)
        ensures
            r is Ok ==> mkdir_all(old(self).as_map(), path@) == Some(final(self).as_map()),
            r is Err ==> mkdir_all(old(self).as_map(), path@) is None && *final(self) == *old(
                self,
            ),
    {
        if self.can_make_dirs(path) {
            self.make_dirs(path);
            Ok(())
        } else {
            Err(())
        }
    }

    /// Applies one file entry as `file_entry_apply` describes: creates
    /// the missing parents, then writes the file; on failure nothing is
    /// touched.
    pub fn place_file_with_dirs(&mut self, path: String, data: Vec<u8>) -> (r: Result<(), ()>)
        ensures
            r is Ok ==> file_entry_apply(old(self).as_map(), path@, data@) == Some(
                final(self).as_map(),
            ),
            r is Err ==> file_entry_apply(old(self).as_map(), path@, data@) is None && *final(self)
                == *old(self),
    {
        let parent = parent_string(&path);
        if !self.can_make_dirs(&parent) {
            return Err(());
        }
        let blocked = match self.lookup(path.as_str()) {
            Some(node) => {
                match node {
                    FsNode::Dir => true,
                    FsNode::File { .. } => false,
                }
            },
            None => false,
        };
        proof {
            lemma_mkdir_all_preserves(self.as_map(), parent_path(path@));
            lemma_ancestors_len(parent_path(path@));
            if path@.len() > 0 {
                lemma_parent_path_shorter(path@);
            }
            assert(!ancestors(parent_path(path@)).contains(path@));
        }
        if blocked {
            return Err(());
        }
        self.make_dirs(&parent);
        self.place(path, FsNode::File { data, executable: false });
        Ok(())
    }

    /// Sets the execute bit of the file at `path`, as `mark_executable`
    /// describes; a missing or non-file entry point is refused and the
    /// tree is left unchanged.
    pub fn set_executable(&mut self, path: &String) -> (r: Result<(), ()>)
        ensures
            r is Ok ==> mark_executable(old(self).as_map(), path@) == Some(final(self).as_map()),
            r is Err ==> mark_executable(old(self).as_map(), path@) is None && *final(self)
                == *old(self),
    {
        let found: Option<Vec<u8>> = match self.lookup(path.as_str()) {
            Some(node) => {
                match node {
                    FsNode::Dir => None,
                    FsNode::File { data, .. } => Some(copy_bytes(data)),
                }
            },
            None => None,
        };
        match found {
            Some(data) => {
                self.place(path.clone(), FsNode::File { data, executable: true });
                Ok(())
            },
            None => Err(()),
        }
    }
}

fn copy_bytes(src: &Vec<u8>) -> (r: Vec<u8>)
    ensures
        r@ == src@,
{
    let mut out: Vec<u8> = Vec::new();
    let mut i: usize = 0;
    while i < src.len()
        invariant
            i <= src@.len(),
            out@ == src@.take(i as int),
        decreases src@.len() - i,
    {
        out.push(src[i]);
        proof {
            assert(out@ =~= src@.take((i + 1) as int));
        }
        i = i + 1;
    }
    proof {
        assert(src@.take(i as int) =~= src@);
    }
    out
}

/// The parent of `path` as a string, exactly `parent_path`.
pub fn parent_string(path: &String) -> (r: String)
    ensures
        r@ == parent_path(path@),
{
    let s = path.as_str();
    let n = s.unicode_len();
    let mut j: usize = n;
    while j > 0
        invariant
            j <= n,
            n == s@.len(),
            s@ == path@,
            last_slash_before(s@, n as int) == last_slash_before(s@, j as int),
        decreases j,
    {
        if s.get_char(j - 1) == '/' {
            proof {
                assert(last_slash_before(s@, j as int) == j - 1);
                assert(last_slash_before(path@, path@.len() as int) == j - 1);
            }
            if j - 1 == 0 {
                proof {
                    assert(parent_path(path@) =~= Seq::<char>::empty());
                }
                return String::new();
            }
            let sub = s.substring_char(0, j - 1);
            proof {
                assert(parent_path(path@) =~= s@.subrange(0, j - 1));
            }
            return String::from_str(sub);
        }
        j = j - 1;
    }
    String::new()
}

} // verus!
