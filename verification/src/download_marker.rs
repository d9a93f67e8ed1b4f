//! The fingerprint persisted beside the cache: the checksum and source
//! URL of what is currently extracted.  It is written and compared in one
//! fixed serialized form, so byte equality of markers coincides with
//! field equality of fingerprints.

use vstd::prelude::*;
use vstd::string::StringExecFns;

verus! {

/// The fingerprint of the cached artifact: its checksum and the URL it
/// was fetched from.  A change of either invalidates the cache.
#[derive(Clone, Debug)]
pub struct MarkerFile {
    pub sha256: String,
    pub url: String,
}

impl MarkerFile {
    /// The serialized form: one line per field, in a fixed order.
    pub open spec fn encode_spec(self) -> Seq<char> {
        "sha256: "@ + self.sha256@ + "\n"@ + "url: "@ + self.url@ + "\n"@
    }

    /// Serializes the fingerprint; the same form is used to write the
    /// marker and to compare against a stored one.
    pub fn encode(&self) -> (r: String)
        ensures
            r@ == self.encode_spec(),
    {
        let mut out = String::new();
        out.append("sha256: ");
        out.append(self.sha256.as_str());
        out.append("\n");
        out.append("url: ");
        out.append(self.url.as_str());
        out.append("\n");
        proof {
            assert(out@ =~= self.encode_spec());
        }
        out
    }
}

/// Two fingerprints serialize to the same bytes exactly when their fields
/// are equal, provided checksums hold no line break (a hex checksum never
/// does).  Byte comparison of markers therefore decides fingerprint
/// equality.
pub proof fn lemma_encode_injective(a: MarkerFile, b: MarkerFile)
    requires
        !a.sha256@.contains('\n'),
        !b.sha256@.contains('\n'),
        a.encode_spec() == b.encode_spec(),
    ensures
        a.sha256@ == b.sha256@,
        a.url@ == b.url@,
{
    reveal_strlit("sha256: ");
    reveal_strlit("url: ");
    reveal_strlit("\n");
    let p = "sha256: "@;
    let q = "url: "@;
    let nl = "\n"@;
    assert(p.len() == 8);
    assert(q.len() == 5);
    assert(nl.len() == 1);
    let ea = a.encode_spec();
    let eb = b.encode_spec();
    let na = a.sha256@.len() as int;
    let nb = b.sha256@.len() as int;
    if na < nb {
        assert(ea[8 + na] == nl[0]);
        assert(eb[8 + na] == b.sha256@[na]);
        assert(b.sha256@.contains('\n')) by {
            assert(b.sha256@[na] == '\n');
        }
        assert(false);
    }
    if nb < na {
        assert(eb[8 + nb] == nl[0]);
        assert(ea[8 + nb] == a.sha256@[nb]);
        assert(a.sha256@.contains('\n')) by {
            assert(a.sha256@[nb] == '\n');
        }
        assert(false);
    }
    assert(na == nb);
    assert forall|i: int| 0 <= i < na implies a.sha256@[i] == b.sha256@[i] by {
        assert(ea[8 + i] == a.sha256@[i]);
        assert(eb[8 + i] == b.sha256@[i]);
    }
    assert(a.sha256@ =~= b.sha256@);
    assert(ea.len() == eb.len());
    assert(a.url@.len() == b.url@.len());
    assert forall|i: int| 0 <= i < a.url@.len() implies a.url@[i] == b.url@[i] by {
        assert(ea[8 + na + 1 + 5 + i] == a.url@[i]);
        assert(eb[8 + nb + 1 + 5 + i] == b.url@[i]);
    }
    assert(a.url@ =~= b.url@);
}

} // verus!
