//! Expansion of a zip archive into the modeled cache directory.
//!
//! Parsing the archive — central directory, entry names, decompressed
//! bytes — is the `zip` crate's work behind trusted wrappers; what an
//! archive contains is only named, never restated.  Everything else is
//! verified: entry names are vetted against path traversal, directories
//! and parents are created, files are written with replace semantics, and
//! the entry point's execute bit is set last.

use vstd::prelude::*;
use vstd::string::StrSliceExecFns;
use vstd::string::StringExecFns;
use crate::configuration::{Compression, CompressionType};
use crate::errors::LauncherError;
use crate::fs_model::{
    DirTree, FsNodeModel, ancestors, file_entry_apply, lemma_mkdir_all_domain, mark_executable,
    mkdir_all, parent_path, parent_string,
};

verus! {

#[verifier::external_type_specification]
#[verifier::external_body]
#[verifier::reject_recursive_types(R)]
pub struct ExZipArchive<R>(zip::ZipArchive<R>);

#[verifier::external_type_specification]
#[verifier::external_body]
#[verifier::reject_recursive_types(T)]
pub struct ExCursor<T>(std::io::Cursor<T>);

#[verifier::external_type_specification]
#[verifier::external_body]
pub struct ExZipError(zip::result::ZipError);

/// The entries a well-formed zip byte sequence holds, in order: each
/// one's stored name and decompressed contents.  Named but never
/// restated; parsing an in-memory buffer is a pure function of the
/// bytes.
pub uninterp spec fn zip_entries_of(content: Seq<u8>) -> Seq<(Seq<char>, Seq<u8>)>;

/// Whether a byte sequence parses as a zip archive; like the entries, a
/// pure function of the bytes.
pub uninterp spec fn zip_parses(content: Seq<u8>) -> bool;

/// Whether entry `i` of a parsed byte sequence can be read back whole
/// (located and decompressed); again a function of the bytes alone.
pub uninterp spec fn zip_entry_ok(content: Seq<u8>, i: int) -> bool;

/// The bytes an opened archive was parsed from.
pub uninterp spec fn zip_source(archive: zip::ZipArchive<std::io::Cursor<Vec<u8>>>) -> Seq<u8>;

/// Every entry of the byte sequence can be read back whole.
pub open spec fn entries_readable(content: Seq<u8>) -> bool {
    forall|i: int| 0 <= i < zip_entries_of(content).len() ==> zip_entry_ok(content, i)
}

/// Relies on `zip::ZipArchive::new` over an in-memory cursor of the
/// cloned bytes: reading the central directory does no I/O, so whether
/// it succeeds, and what the archive then holds, are functions of the
/// bytes alone.
#[verifier::external_body]
fn zip_open(content: &Vec<u8>) -> (r: Result<
    zip::ZipArchive<std::io::Cursor<Vec<u8>>>,
    zip::result::ZipError,
>)
    ensures
        r is Ok <==> zip_parses(content@),
        r is Ok ==> zip_source(r->Ok_0) == content@,
{
    zip::ZipArchive::new(std::io::Cursor::new(content.clone()))
}

/// Relies on `zip::ZipArchive::len`: the number of entries the archive
/// holds.
#[verifier::external_body]
fn zip_len(archive: &zip::ZipArchive<std::io::Cursor<Vec<u8>>>) -> (n: usize)
    ensures
        n == zip_entries_of(zip_source(*archive)).len(),
{
    archive.len()
}

/// Relies on `zip::ZipArchive::by_index` and `Read::read_to_end`: entry
/// `i`'s stored name and decompressed contents come back, reading an
/// in-memory buffer succeeds or fails by the bytes alone, and it leaves
/// the archive's parsed contents as they were.
#[verifier::external_body]
fn zip_read_entry(archive: &mut zip::ZipArchive<std::io::Cursor<Vec<u8>>>, i: usize) -> (r: Result<
    (String, Vec<u8>),
    zip::result::ZipError,
>)
    requires
        i < zip_entries_of(zip_source(*old(archive))).len(),
    ensures
        zip_source(*final(archive)) == zip_source(*old(archive)),
        r is Ok <==> zip_entry_ok(zip_source(*old(archive)), i as int),
        r is Ok ==> r->Ok_0.0@ == zip_entries_of(zip_source(*old(archive)))[i as int].0,
        r is Ok ==> r->Ok_0.1@ == zip_entries_of(zip_source(*old(archive)))[i as int].1,
{
    let mut file = archive.by_index(i)?;
    let name = file.name().to_string();
    let mut data = Vec::new();
    std::io::Read::read_to_end(&mut file, &mut data)?;
    Ok((name, data))
}

/// An archive entry naming a directory: its name ends with a slash.
pub open spec fn is_dir_entry(name: Seq<char>) -> bool {
    name.len() > 0 && name.last() == '/'
}

/// A `..` path segment stands at position `i` of the name.
pub open spec fn is_dotdot_at(name: Seq<char>, i: int) -> bool {
    &&& 0 <= i
    &&& i + 2 <= name.len()
    &&& name[i] == '.'
    &&& name[i + 1] == '.'
    &&& (i == 0 || name[i - 1] == '/')
    &&& (i + 2 == name.len() || name[i + 2] == '/')
}

/// The name holds a `..` path segment somewhere.
pub open spec fn has_dotdot(name: Seq<char>) -> bool {
    exists|i: int| is_dotdot_at(name, i)
}

/// An entry name that may be expanded: non-empty, relative, and without
/// any `..` segment, so it cannot escape the target directory.
pub open spec fn safe_entry_name(name: Seq<char>) -> bool {
    name.len() > 0 && name[0] != '/' && !has_dotdot(name)
}

/// The effect of one archive entry on the modeled tree: an unsafe name is
/// refused; a directory entry creates its path and ancestors; a file
/// entry creates its parents, then writes its bytes.
pub open spec fn apply_entry(
    m: Map<Seq<char>, FsNodeModel>,
    name: Seq<char>,
    data: Seq<u8>,
) -> Option<Map<Seq<char>, FsNodeModel>> {
    if !safe_entry_name(name) {
        None
    } else if is_dir_entry(name) {
        mkdir_all(m, name.drop_last())
    } else {
        file_entry_apply(m, name, data)
    }
}

/// The effect of a whole entry list, first to last.
pub open spec fn apply_entries(
    m: Map<Seq<char>, FsNodeModel>,
    entries: Seq<(Seq<char>, Seq<u8>)>,
) -> Option<Map<Seq<char>, FsNodeModel>>
    decreases entries.len(),
{
    if entries.len() == 0 {
        Some(m)
    } else {
        match apply_entry(m, entries[0].0, entries[0].1) {
            None => None,
            Some(m1) => apply_entries(m1, entries.subrange(1, entries.len() as int)),
        }
    }
}

/// What a successful expansion yields: the entries applied to an empty
/// tree — expansion replaces, it never merges — with the entry point's
/// execute bit set last; it fails when an entry cannot be applied or the
/// entry point is not a file of the archive.
pub open spec fn extraction_model(
    entries: Seq<(Seq<char>, Seq<u8>)>,
    entry_point: Seq<char>,
) -> Option<Map<Seq<char>, FsNodeModel>> {
    match apply_entries(Map::empty(), entries) {
        None => None,
        Some(m) => mark_executable(m, entry_point),
    }
}

pub proof fn lemma_apply_entries_snoc(
    m: Map<Seq<char>, FsNodeModel>,
    entries: Seq<(Seq<char>, Seq<u8>)>,
    e: (Seq<char>, Seq<u8>),
)
    ensures
        apply_entries(m, entries.push(e)) == (match apply_entries(m, entries) {
            None => None,
            Some(m1) => apply_entry(m1, e.0, e.1),
        }),
    decreases entries.len(),
{
    let s = entries.push(e);
    if entries.len() == 0 {
        assert(s[0] == e);
        assert(s.subrange(1, s.len() as int) =~= Seq::<(Seq<char>, Seq<u8>)>::empty());
        match apply_entry(m, e.0, e.1) {
            None => {
                assert(apply_entries(m, s) is None);
            },
            Some(m1) => {
                assert(apply_entries(m1, s.subrange(1, s.len() as int)) == Some(m1));
                assert(apply_entries(m, s) == Some(m1));
            },
        }
        assert(apply_entries(m, entries) == Some(m));
    } else {
        assert(s[0] == entries[0]);
        assert(s.subrange(1, s.len() as int) =~= entries.subrange(
            1,
            entries.len() as int,
        ).push(e));
        match apply_entry(m, entries[0].0, entries[0].1) {
            None => {
                assert(apply_entries(m, s) is None);
                assert(apply_entries(m, entries) is None);
            },
            Some(m1) => {
                lemma_apply_entries_snoc(m1, entries.subrange(1, entries.len() as int), e);
                assert(apply_entries(m, s) == apply_entries(m1, s.subrange(1, s.len() as int)));
                assert(apply_entries(m, entries) == apply_entries(
                    m1,
                    entries.subrange(1, entries.len() as int),
                ));
            },
        }
    }
}

/// The paths one entry contributes to the expanded tree: its own path —
/// a directory entry without its trailing slash — and the directories
/// above it.
pub open spec fn entry_paths(name: Seq<char>) -> Set<Seq<char>> {
    if is_dir_entry(name) {
        ancestors(name.drop_last())
    } else {
        ancestors(parent_path(name)).insert(name)
    }
}

/// All paths a whole entry list contributes.
pub open spec fn entries_paths(entries: Seq<(Seq<char>, Seq<u8>)>) -> Set<Seq<char>>
    decreases entries.len(),
{
    if entries.len() == 0 {
        Set::empty()
    } else {
        entry_paths(entries[0].0).union(
            entries_paths(entries.subrange(1, entries.len() as int)),
        )
    }
}

pub proof fn lemma_apply_entry_domain(
    m: Map<Seq<char>, FsNodeModel>,
    name: Seq<char>,
    data: Seq<u8>,
)
    requires
        apply_entry(m, name, data) is Some,
    ensures
        apply_entry(m, name, data)->Some_0.dom() =~= m.dom().union(entry_paths(name)),
{
    if is_dir_entry(name) {
        lemma_mkdir_all_domain(m, name.drop_last());
    } else {
        lemma_mkdir_all_domain(m, parent_path(name));
    }
}

pub proof fn lemma_apply_entries_domain(
    m: Map<Seq<char>, FsNodeModel>,
    entries: Seq<(Seq<char>, Seq<u8>)>,
)
    requires
        apply_entries(m, entries) is Some,
    ensures
        apply_entries(m, entries)->Some_0.dom() =~= m.dom().union(entries_paths(entries)),
    decreases entries.len(),
{
    if entries.len() == 0 {
        assert(m.dom().union(Set::empty()) =~= m.dom());
    } else {
        let m1 = apply_entry(m, entries[0].0, entries[0].1)->Some_0;
        lemma_apply_entry_domain(m, entries[0].0, entries[0].1);
        lemma_apply_entries_domain(m1, entries.subrange(1, entries.len() as int));
    }
}

/// Expansion replaces: a successful expansion holds exactly the
/// archive's entries and their directory structure, and nothing else —
/// in particular nothing of whatever stood in the directory before.
pub proof fn lemma_extraction_replaces(
    entries: Seq<(Seq<char>, Seq<u8>)>,
    entry_point: Seq<char>,
)
    requires
        extraction_model(entries, entry_point) is Some,
    ensures
        extraction_model(entries, entry_point)->Some_0.dom() =~= entries_paths(entries),
{
    let applied = apply_entries(Map::empty(), entries)->Some_0;
    lemma_apply_entries_domain(Map::empty(), entries);
    assert(Map::<Seq<char>, FsNodeModel>::empty().dom() =~= Set::<Seq<char>>::empty());
    assert(applied.dom() =~= entries_paths(entries));
    assert(extraction_model(entries, entry_point)->Some_0.dom() =~= applied.dom().insert(
        entry_point,
    ));
    assert(applied.dom().insert(entry_point) =~= applied.dom());
}

/// After a successful expansion the designated entry point is a file
/// whose execute bit is set.
pub proof fn lemma_entry_point_executable(
    entries: Seq<(Seq<char>, Seq<u8>)>,
    entry_point: Seq<char>,
)
    requires
        extraction_model(entries, entry_point) is Some,
    ensures
        ({
            let m = extraction_model(entries, entry_point)->Some_0;
            m.contains_key(entry_point) && m[entry_point].is_executable_file()
        }),
{
}

/// Once a prefix of the entries fails to apply, the whole list fails.
pub proof fn lemma_apply_entries_prefix_none(
    m: Map<Seq<char>, FsNodeModel>,
    entries: Seq<(Seq<char>, Seq<u8>)>,
    k: int,
)
    requires
        0 <= k <= entries.len(),
        apply_entries(m, entries.subrange(0, k)) is None,
    ensures
        apply_entries(m, entries) is None,
    decreases entries.len() - k,
{
    if k == entries.len() {
        assert(entries.subrange(0, k) =~= entries);
    } else {
        assert(entries.subrange(0, k + 1) =~= entries.subrange(0, k).push(entries[k]));
        lemma_apply_entries_snoc(m, entries.subrange(0, k), entries[k]);
        lemma_apply_entries_prefix_none(m, entries, k + 1);
    }
}

/// Whether an entry name may be expanded, exactly `safe_entry_name`.
fn check_entry_name(name: &str) -> (r: bool)
    ensures
        r == safe_entry_name(name@),
{
    let n = name.unicode_len();
    if n == 0 {
        return false;
    }
    if name.get_char(0) == '/' {
        return false;
    }
    let mut i: usize = 0;
    while n >= 2 && i <= n - 2
        invariant
            n == name@.len(),
            i <= n,
            forall|j: int| 0 <= j < i ==> !is_dotdot_at(name@, j),
        decreases n - i,
    {
        let c0 = name.get_char(i);
        let c1 = name.get_char(i + 1);
        let before_ok = if i == 0 {
            true
        } else {
            name.get_char(i - 1) == '/'
        };
        let after_ok = if i + 2 == n {
            true
        } else {
            name.get_char(i + 2) == '/'
        };
        if c0 == '.' && c1 == '.' && before_ok && after_ok {
            proof {
                assert(is_dotdot_at(name@, i as int));
            }
            return false;
        }
        proof {
            assert(!is_dotdot_at(name@, i as int));
        }
        i = i + 1;
    }
    proof {
        assert forall|j: int| !is_dotdot_at(name@, j) by {
            if 0 <= j && j < i {
            } else if j >= i {
                assert(j + 2 > name@.len());
            }
        }
    }
    true
}

/// Expands zip archives.
pub struct ZipExtractor {}

impl ZipExtractor {
    pub fn new() -> (r: ZipExtractor) {
        ZipExtractor {}
    }

    /// Replaces the modeled target directory with the archive's contents
    /// and marks the entry point executable.  The outcome is pinned for
    /// every input: expansion succeeds exactly when the bytes parse,
    /// every entry reads back whole, the entries apply cleanly and the
    /// entry point is a file of the archive; a missing entry point on an
    /// otherwise clean archive is the permission error, every other
    /// failure the extraction error; and on failure the tree holds the
    /// application of the entries already processed — no cleanup is
    /// attempted, recovery belongs to the caller's commit protocol.
    pub fn extract_to_disk(
        &self,
        content: &Vec<u8>,
        tree: &mut DirTree,
        executable_path: &String,
    ) -> (r: Result<(), LauncherError>)
        ensures
            r is Ok <==> zip_parses(content@) && entries_readable(content@) && extraction_model(
                zip_entries_of(content@),
                executable_path@,
            ) is Some,
            r is Ok ==> extraction_model(zip_entries_of(content@), executable_path@) == Some(
                final(tree).as_map(),
            ),
            r is Ok ==> final(tree).as_map().contains_key(executable_path@)
                && final(tree).as_map()[executable_path@].is_executable_file(),
            r == Err::<(), LauncherError>(LauncherError::PermissionError) <==> zip_parses(content@)
                && entries_readable(content@) && apply_entries(
                Map::empty(),
                zip_entries_of(content@),
            ) is Some && extraction_model(zip_entries_of(content@), executable_path@) is None,
            r is Ok || r == Err::<(), LauncherError>(LauncherError::ExtractionError) || r
                == Err::<(), LauncherError>(LauncherError::PermissionError),
            r is Err ==> exists|k: int|
                0 <= k <= zip_entries_of(content@).len() && apply_entries(
                    Map::empty(),
                    #[trigger] zip_entries_of(content@).subrange(0, k),
                ) == Some(final(tree).as_map()),
    {
        let ghost entries = zip_entries_of(content@);
        tree.clear();
        proof {
            assert(entries.subrange(0, 0) =~= Seq::<(Seq<char>, Seq<u8>)>::empty());
        }
        let mut archive = match zip_open(content) {
            Ok(a) => a,
            Err(_) => {
                proof {
                    assert(apply_entries(Map::empty(), entries.subrange(0, 0)) == Some(
                        tree.as_map(),
                    ));
                }
                return Err(LauncherError::ExtractionError);
            },
        };
        let n = zip_len(&archive);
        let ghost mut current: Map<Seq<char>, FsNodeModel> = Map::empty();
        let mut i: usize = 0;
        while i < n
            invariant
                i <= n,
                n == entries.len(),
                entries == zip_entries_of(content@),
                zip_parses(content@),
                zip_source(archive) == content@,
                forall|j: int| 0 <= j < i ==> zip_entry_ok(content@, j),
                apply_entries(Map::empty(), entries.subrange(0, i as int)) == Some(current),
                tree.as_map() == current,
            decreases n - i,
        {
            let entry = match zip_read_entry(&mut archive, i) {
                Ok(x) => x,
                Err(_) => {
                    proof {
                        assert(!zip_entry_ok(content@, i as int));
                        assert(!entries_readable(content@));
                        assert(apply_entries(Map::empty(), entries.subrange(0, i as int))
                            == Some(tree.as_map()));
                    }
                    return Err(LauncherError::ExtractionError);
                },
            };
            let (name, data) = entry;
            let ghost nameview = name@;
            let ghost dataview = data@;
            if !check_entry_name(name.as_str()) {
                proof {
                    assert(apply_entry(current, entries[i as int].0, entries[i as int].1)
                        is None);
                    lemma_step_fails(content@, current, i as int);
                    assert(apply_entries(Map::empty(), entries.subrange(0, i as int)) == Some(
                        tree.as_map(),
                    ));
                }
                return Err(LauncherError::ExtractionError);
            }
            let nlen = name.as_str().unicode_len();
            if name.as_str().get_char(nlen - 1) == '/' {
                let stripped = String::from_str(name.as_str().substring_char(0, nlen - 1));
                proof {
                    assert(stripped@ =~= nameview.drop_last());
                }
                match tree.ensure_dir_all(&stripped) {
                    Ok(()) => {},
                    Err(()) => {
                        proof {
                            assert(apply_entry(
                                current,
                                entries[i as int].0,
                                entries[i as int].1,
                            ) is None);
                            lemma_step_fails(content@, current, i as int);
                            assert(apply_entries(Map::empty(), entries.subrange(0, i as int))
                                == Some(tree.as_map()));
                        }
                        return Err(LauncherError::ExtractionError);
                    },
                }
            } else {
                match tree.place_file_with_dirs(name, data) {
                    Ok(()) => {},
                    Err(()) => {
                        proof {
                            assert(apply_entry(
                                current,
                                entries[i as int].0,
                                entries[i as int].1,
                            ) is None);
                            lemma_step_fails(content@, current, i as int);
                            assert(apply_entries(Map::empty(), entries.subrange(0, i as int))
                                == Some(tree.as_map()));
                        }
                        return Err(LauncherError::ExtractionError);
                    },
                }
            }
            proof {
                assert(apply_entry(current, entries[i as int].0, entries[i as int].1) == Some(
                    tree.as_map(),
                ));
                assert(entries.subrange(0, (i + 1) as int) =~= entries.subrange(
                    0,
                    i as int,
                ).push(entries[i as int]));
                lemma_apply_entries_snoc(
                    Map::empty(),
                    entries.subrange(0, i as int),
                    entries[i as int],
                );
                current = tree.as_map();
            }
            i = i + 1;
        }
        proof {
            assert(entries.subrange(0, n as int) =~= entries);
            assert(entries_readable(content@));
        }
        match tree.set_executable(executable_path) {
            Ok(()) => {
                proof {
                    lemma_entry_point_executable(entries, executable_path@);
                }
                Ok(())
            },
            Err(()) => {
                proof {
                    assert(apply_entries(Map::empty(), entries.subrange(0, n as int)) == Some(
                        tree.as_map(),
                    ));
                }
                Err(LauncherError::PermissionError)
            },
        }
    }
}

/// A failed application step at position `i` dooms the whole list.
proof fn lemma_step_fails(content: Seq<u8>, current: Map<Seq<char>, FsNodeModel>, i: int)
    requires
        0 <= i < zip_entries_of(content).len(),
        apply_entries(Map::empty(), zip_entries_of(content).subrange(0, i)) == Some(current),
        apply_entry(current, zip_entries_of(content)[i].0, zip_entries_of(content)[i].1)
            is None,
    ensures
        apply_entries(Map::empty(), zip_entries_of(content)) is None,
{
    let entries = zip_entries_of(content);
    assert(entries.subrange(0, i + 1) =~= entries.subrange(0, i).push(entries[i]));
    lemma_apply_entries_snoc(Map::empty(), entries.subrange(0, i), entries[i]);
    lemma_apply_entries_prefix_none(Map::empty(), entries, i + 1);
}

/// Expands a validated body according to the manifest's archive format;
/// the zip expander is the one format there is today, and its whole
/// contract carries over.
pub fn extract_to_disk(
    compression: &Compression,
    content: &Vec<u8>,
    tree: &mut DirTree,
    executable_path: &String,
) -> (r: Result<(), LauncherError>)
    ensures
        r is Ok <==> zip_parses(content@) && entries_readable(content@) && extraction_model(
            zip_entries_of(content@),
            executable_path@,
        ) is Some,
        r is Ok ==> extraction_model(zip_entries_of(content@), executable_path@) == Some(
            final(tree).as_map(),
        ),
        r is Ok ==> final(tree).as_map().contains_key(executable_path@)
            && final(tree).as_map()[executable_path@].is_executable_file(),
        r == Err::<(), LauncherError>(LauncherError::PermissionError) <==> zip_parses(content@)
            && entries_readable(content@) && apply_entries(
            Map::empty(),
            zip_entries_of(content@),
        ) is Some && extraction_model(zip_entries_of(content@), executable_path@) is None,
        r is Ok || r == Err::<(), LauncherError>(LauncherError::ExtractionError) || r == Err::<
            (),
            LauncherError,
        >(LauncherError::PermissionError),
        r is Err ==> exists|k: int|
            0 <= k <= zip_entries_of(content@).len() && apply_entries(
                Map::empty(),
                #[trigger] zip_entries_of(content@).subrange(0, k),
            ) == Some(final(tree).as_map()),
{
    match compression.compression_type {
        CompressionType::Zip => {
            let extractor = ZipExtractor::new();
            extractor.extract_to_disk(content, tree, executable_path)
        },
    }
}

} // verus!

