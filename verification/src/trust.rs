//! Trust statuses and resolved assets.
use vstd::prelude::*;

verus! {

/// Whether an item may be treated as trusted.
#[derive(Clone, Copy, Debug, PartialEq, Eq, Structural)]
pub enum TrustStatus {
    Trusted,
    Untrusted,
    Stale,
    Invalid,
    Missing,
}

/// The label under which a status is stored.
pub open spec fn status_label(t: TrustStatus) -> Seq<char> {
    match t {
        TrustStatus::Trusted => "Trusted"@,
        TrustStatus::Untrusted => "Untrusted"@,
        TrustStatus::Stale => "Stale"@,
        TrustStatus::Invalid => "Invalid"@,
        TrustStatus::Missing => "Missing"@,
    }
}

/// The status that a stored label stands for; any label that is not one of
/// the known ones stands for `Untrusted`.
pub open spec fn status_of_label(s: Seq<char>) -> TrustStatus {
    if s == "Trusted"@ {
        TrustStatus::Trusted
    } else if s == "Stale"@ {
        TrustStatus::Stale
    } else if s == "Invalid"@ {
        TrustStatus::Invalid
    } else if s == "Missing"@ {
        TrustStatus::Missing
    } else {
        TrustStatus::Untrusted
    }
}

/// A status read back from its stored label is the status that was stored.
pub proof fn lemma_label_round_trip(t: TrustStatus)
    ensures
        status_of_label(status_label(t)) == t,
{
    reveal_strlit("Trusted");
    reveal_strlit("Untrusted");
    reveal_strlit("Stale");
    reveal_strlit("Invalid");
    reveal_strlit("Missing");
    let (tr, un, st, inv, mi) = ("Trusted"@, "Untrusted"@, "Stale"@, "Invalid"@, "Missing"@);
    assert(tr.len() == 7 && un.len() == 9 && st.len() == 5 && inv.len() == 7 && mi.len() == 7);
    assert(tr[0] == 'T' && inv[0] == 'I' && mi[0] == 'M');
    assert(un != tr && un != st && un != inv && un != mi);
    assert(st != tr && inv != tr && mi != tr);
    assert(inv != st && mi != st && mi != inv);
}

/// An asset with its provenance and trust status.
#[derive(Debug)]
pub struct ResolvedAsset {
    pub id: String,
    pub marketplace: String,
    pub revision: String,
    pub trust_status: TrustStatus,
    pub source_branch: String,
}

} // verus!
