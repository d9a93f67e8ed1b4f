//! The manifest that describes an artifact: its name, version, URL
//! template, per-platform checksum table and archive format.  The
//! platform table is an association list looked up by exact key; the
//! first entry with a matching key wins.

use vstd::prelude::*;

verus! {

/// The checksum recorded for one (operating system, architecture) pair.
#[derive(Clone, Debug)]
pub struct PlatformOSArchitecture {
    pub sha256: String,
}

/// One architecture of a platform, keyed by the vendor's architecture name.
#[derive(Clone, Debug)]
pub struct ArchitectureEntry {
    pub architecture: String,
    pub details: PlatformOSArchitecture,
}

/// One operating system of the manifest, keyed by its exact name.
#[derive(Clone, Debug)]
pub struct PlatformEntry {
    pub os: String,
    pub architectures: Vec<ArchitectureEntry>,
}

pub type PlatformOS = Vec<ArchitectureEntry>;

pub type Platforms = Vec<PlatformEntry>;

/// The archive formats the expander understands.
#[derive(Clone, Copy, Debug, PartialEq, Eq, Structural)]
pub enum CompressionType {
    Zip,
}

/// The archive format chosen by the manifest.
#[derive(Clone, Copy, Debug, PartialEq, Eq, Structural)]
pub struct Compression {
    pub compression_type: CompressionType,
}

/// A manifest, loaded once per invocation and read-only afterwards.
#[derive(Clone, Debug)]
pub struct File {
    pub name: String,
    pub version: String,
    pub url_pattern: String,
    pub platforms: Platforms,
    pub strip_prefix: Option<String>,
    pub compression: Compression,
}

/// The first platform entry whose key equals `os`, if any.
pub open spec fn find_platform(ps: Seq<PlatformEntry>, os: Seq<char>) -> Option<PlatformEntry>
    decreases ps.len(),
{
    if ps.len() == 0 {
        None
    } else if ps[0].os@ == os {
        Some(ps[0])
    } else {
        find_platform(ps.subrange(1, ps.len() as int), os)
    }
}

/// The first architecture entry whose key equals `arch`, if any.
pub open spec fn find_architecture(
    entries: Seq<ArchitectureEntry>,
    arch: Seq<char>,
) -> Option<ArchitectureEntry>
    decreases entries.len(),
{
    if entries.len() == 0 {
        None
    } else if entries[0].architecture@ == arch {
        Some(entries[0])
    } else {
        find_architecture(entries.subrange(1, entries.len() as int), arch)
    }
}

/// Looks `os` up verbatim in the platform table.
pub fn lookup_platform<'a>(ps: &'a Vec<PlatformEntry>, os: &str) -> (r: Option<&'a PlatformEntry>)
    ensures
        match r {
            Some(p) => find_platform(ps@, os@) == Some(*p),
            None => find_platform(ps@, os@) is None,
        },
{
    let mut i: usize = 0;
    proof {
        assert(ps@.subrange(0, ps@.len() as int) =~= ps@);
    }
    while i < ps.len()
        invariant
            i <= ps@.len(),
            find_platform(ps@, os@) == find_platform(ps@.subrange(i as int, ps@.len() as int), os@),
        decreases ps@.len() - i,
    {
        let ghost rest = ps@.subrange(i as int, ps@.len() as int);
        if crate::text::str_eq(ps[i].os.as_str(), os) {
            proof {
                assert(rest[0] == ps@[i as int]);
            }
            return Some(&ps[i]);
        }
        proof {
            assert(rest[0] == ps@[i as int]);
            assert(rest.subrange(1, rest.len() as int) =~= ps@.subrange(
                (i + 1) as int,
                ps@.len() as int,
            ));
        }
        i = i + 1;
    }
    proof {
        assert(ps@.subrange(i as int, ps@.len() as int) =~= Seq::<PlatformEntry>::empty());
    }
    None
}

/// Looks a normalized architecture name up in one platform's table.
pub fn lookup_architecture<'a>(
    entries: &'a Vec<ArchitectureEntry>,
    arch: &str,
) -> (r: Option<&'a ArchitectureEntry>)
    ensures
        match r {
            Some(e) => find_architecture(entries@, arch@) == Some(*e),
            None => find_architecture(entries@, arch@) is None,
        },
{
    let mut i: usize = 0;
    proof {
        assert(entries@.subrange(0, entries@.len() as int) =~= entries@);
    }
    while i < entries.len()
        invariant
            i <= entries@.len(),
            find_architecture(entries@, arch@) == find_architecture(
                entries@.subrange(i as int, entries@.len() as int),
                arch@,
            ),
        decreases entries@.len() - i,
    {
        let ghost rest = entries@.subrange(i as int, entries@.len() as int);
        if crate::text::str_eq(entries[i].architecture.as_str(), arch) {
            proof {
                assert(rest[0] == entries@[i as int]);
            }
            return Some(&entries[i]);
        }
        proof {
            assert(rest[0] == entries@[i as int]);
            assert(rest.subrange(1, rest.len() as int) =~= entries@.subrange(
                (i + 1) as int,
                entries@.len() as int,
            ));
        }
        i = i + 1;
    }
    proof {
        assert(entries@.subrange(i as int, entries@.len() as int)
            =~= Seq::<ArchitectureEntry>::empty());
    }
    None
}

} // verus!
