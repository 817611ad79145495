//! The application's local state: where it lives, the records it keeps, and
//! the rules by which those records are derived.
use vstd::prelude::*;

use crate::catalog::CatalogSummary;
use crate::error::{ErrorKind, TupiError};
use crate::text::{chars_of, owned, string_of, text_eq, trim, trimmed};
use crate::trust::{status_label, status_of_label, TrustStatus};

pub mod catalog_store;
pub mod global_agents;
pub mod installed_marketplaces;
pub mod inventory_laws;
pub mod marketplace_agents;
pub mod profiles_store;
pub mod repo_sync;

verus! {

/// Where the application keeps its database, its catalog and its caches.
#[derive(Debug)]
pub struct AppState {
    pub db_path: String,
    pub catalog_path: String,
    pub cache_dir: String,
}

/// The outcome of a catalog refresh.
#[derive(Debug)]
pub struct RefreshRecord {
    pub summary: CatalogSummary,
    pub trust_status: TrustStatus,
    pub source_repository: Option<String>,
    pub source_branch: String,
    pub refreshed_at: String,
}

/// The catalog that is in force, with its provenance.
#[derive(Debug)]
pub struct CatalogState {
    pub summary: CatalogSummary,
    pub trust_status: TrustStatus,
    pub source_repository: Option<String>,
    pub source_branch: String,
    pub refreshed_at: Option<String>,
    pub stale: bool,
}

/// An agent that a profile may select.
#[derive(Debug)]
pub struct AgentOption {
    pub name: String,
}

/// A catalog marketplace with the agents found in its workspace.
#[derive(Debug)]
pub struct MarketplaceOption {
    pub id: String,
    pub name: String,
    pub repository: String,
    pub agents: Vec<MarketplaceAgentRecord>,
}

/// An agent owned by a trusted marketplace.
#[derive(Debug)]
pub struct MarketplaceAgentRecord {
    pub name: String,
    pub description: Option<String>,
    pub trust_status: TrustStatus,
}

/// An agent found in the user's global agent folder.
#[derive(Debug)]
pub struct GlobalAgentRecord {
    pub name: String,
    pub file_location: String,
    pub description: Option<String>,
    pub trust_status: TrustStatus,
}

/// The global agents and the state of the last scan.
#[derive(Debug)]
pub struct GlobalAgentsState {
    pub agents: Vec<GlobalAgentRecord>,
    pub scan_root: String,
    pub refreshed_at: Option<String>,
    pub error_message: Option<String>,
}

/// A marketplace installed in the user's plugin folder.
#[derive(Debug)]
pub struct InstalledMarketplaceRecord {
    pub id: String,
    pub name: String,
    pub directory_location: String,
    pub repository: Option<String>,
    pub trust_status: TrustStatus,
    pub plugins: Vec<InstalledPluginRecord>,
}

/// A plugin inside an installed marketplace.
#[derive(Debug)]
pub struct InstalledPluginRecord {
    pub name: String,
    pub directory_location: String,
    pub skills: Vec<InstalledSkillRecord>,
    pub agents: Vec<InstalledPluginAgentRecord>,
}

/// A skill inside an installed plugin.
#[derive(Debug)]
pub struct InstalledSkillRecord {
    pub name: String,
    pub directory_location: String,
}

/// An agent inside an installed plugin.
#[derive(Debug)]
pub struct InstalledPluginAgentRecord {
    pub name: String,
    pub file_location: String,
    pub description: Option<String>,
}

/// The installed marketplaces and the state of the last scan.
#[derive(Debug)]
pub struct InstalledMarketplacesState {
    pub marketplaces: Vec<InstalledMarketplaceRecord>,
    pub scan_root: String,
    pub refreshed_at: Option<String>,
    pub error_message: Option<String>,
}

/// The stored state of a folder scan: which root was scanned, when it last
/// succeeded, and the error of the last attempt if it failed.
#[derive(Debug)]
pub struct ScanStateRow {
    pub scan_root: String,
    pub refreshed_at: Option<String>,
    pub error_message: Option<String>,
}

/// One step of a folder walk: an entry that was found, or a failure to read
/// the folder or one of its entries.
#[derive(Debug)]
pub enum ScanItem<T> {
    Found(T),
    Failed(TupiError),
}

/// A failure or a result, as it is reported.
pub type Outcome<V> = Result<V, (ErrorKind, Seq<char>)>;

/// The results of a walk, in walk order: `step` says of each entry found
/// whether it is kept, skipped or an error; the first error ends the walk.
pub open spec fn fold_scan<T, V>(
    items: Seq<ScanItem<T>>,
    step: spec_fn(T) -> Outcome<Option<V>>,
) -> Outcome<Seq<V>>
    decreases items.len(),
{
    if items.len() == 0 {
        Ok(Seq::empty())
    } else {
        match fold_scan(items.drop_last(), step) {
            Err(e) => Err(e),
            Ok(rs) => match items.last() {
                ScanItem::Failed(e) => Err(e@),
                ScanItem::Found(t) => match step(t) {
                    Err(e) => Err(e),
                    Ok(None) => Ok(rs),
                    Ok(Some(v)) => Ok(rs.push(v)),
                },
            },
        }
    }
}

/// Once a walk has failed, what follows does not change its result.
pub proof fn lemma_fold_scan_error_sticks<T, V>(
    items: Seq<ScanItem<T>>,
    step: spec_fn(T) -> Outcome<Option<V>>,
    n: int,
)
    requires
        0 <= n <= items.len(),
        fold_scan(items.take(n), step) is Err,
    ensures
        fold_scan(items, step) == fold_scan(items.take(n), step),
    decreases items.len() - n,
{
    if n < items.len() {
        let t = items.take(n + 1);
        assert(t.drop_last() =~= items.take(n));
        lemma_fold_scan_error_sticks(items, step, n + 1);
    } else {
        assert(items.take(n) =~= items);
    }
}

/// A walk that succeeds keeps, in walk order, exactly the entries that its
/// step keeps: as many results as kept entries, the `m`-th result being what
/// the step makes of the `m`-th kept entry.
pub proof fn lemma_fold_scan_kept<T, V>(
    items: Seq<ScanItem<T>>,
    step: spec_fn(T) -> Outcome<Option<V>>,
    keep: spec_fn(ScanItem<T>) -> bool,
)
    requires
        forall|t: T| #[trigger] step(t) is Ok ==> (keep(ScanItem::Found(t)) <==> step(t)->Ok_0 is Some),
    ensures
        fold_scan(items, step) matches Ok(rs) ==> rs.len() == items.filter(keep).len() && forall|m: int|
            #![trigger items.filter(keep)[m]]
            0 <= m < rs.len() ==> (items.filter(keep)[m] is Found && step(items.filter(keep)[m]->Found_0)
                == Ok::<Option<V>, (ErrorKind, Seq<char>)>(Some(rs[m]))),
    decreases items.len(),
{
    reveal_with_fuel(Seq::filter, 1);
    if items.len() > 0 {
        let rest = items.drop_last();
        lemma_fold_scan_kept(rest, step, keep);
        if let Ok(rs) = fold_scan(items, step) {
            let rs0 = fold_scan(rest, step)->Ok_0;
            let f0 = rest.filter(keep);
            let f = items.filter(keep);
            if let ScanItem::Found(t) = items.last() {
                assert(step(t) is Ok);
                if keep(items.last()) {
                    assert(f == f0.push(items.last()));
                    assert(rs == rs0.push(step(t)->Ok_0->Some_0));
                    assert forall|m: int| #![trigger f[m]] 0 <= m < rs.len() implies (f[m] is Found && step(
                        f[m]->Found_0,
                    ) == Ok::<Option<V>, (ErrorKind, Seq<char>)>(Some(rs[m]))) by {
                        if m < rs0.len() {
                            assert(rs[m] == rs0[m]);
                            assert(f[m] == f0[m]);
                        }
                    }
                } else {
                    assert(f == f0);
                    assert(rs == rs0);
                }
            }
        }
    }
}

/// A walk that succeeds and is then sorted lists every kept entry: as many
/// results as kept entries, and each kept entry under its location.
pub proof fn lemma_sorted_walk_lists<T, V>(
    items: Seq<ScanItem<T>>,
    step: spec_fn(T) -> Outcome<Option<V>>,
    keep: spec_fn(ScanItem<T>) -> bool,
    key: spec_fn(V) -> (Seq<char>, Seq<char>),
    loc: spec_fn(V) -> Seq<char>,
    path: spec_fn(T) -> Seq<char>,
)
    requires
        forall|t: T| #[trigger] step(t) is Ok ==> (keep(ScanItem::Found(t)) <==> step(t)->Ok_0 is Some),
        forall|t: T| #[trigger] step(t) matches Ok(Some(v)) ==> loc(v) == path(t),
    ensures
        sorted_outcome(fold_scan(items, step), key) matches Ok(s) ==> s.len() == items.filter(keep).len()
            && forall|i: int|
            0 <= i < items.len() && keep(#[trigger] items[i]) ==> exists|j: int|
                0 <= j < s.len() && loc(s[j]) == path(items[i]->Found_0),
{
    if let Ok(rs) = fold_scan(items, step) {
        lemma_fold_scan_kept(items, step, keep);
        crate::order::lemma_sort_by_key_sorted_permutation(rs, key);
        let s = crate::order::sort_by_key(rs, key);
        let f = items.filter(keep);
        assert forall|i: int| 0 <= i < items.len() && keep(#[trigger] items[i]) implies exists|j: int|
            0 <= j < s.len() && loc(s[j]) == path(items[i]->Found_0) by {
            items.lemma_filter_contains(keep, i);
            let m = choose|m: int| 0 <= m < f.len() && f[m] == items[i];
            assert(step(f[m]->Found_0) == Ok::<Option<V>, (ErrorKind, Seq<char>)>(Some(rs[m])));
            assert(loc(rs[m]) == path(items[i]->Found_0));
            rs.to_multiset_ensures();
            s.to_multiset_ensures();
            assert(rs.contains(rs[m]));
            assert(rs.to_multiset().count(rs[m]) > 0);
            assert(s.to_multiset().count(rs[m]) > 0);
            assert(s.contains(rs[m]));
            let j = choose|j: int| 0 <= j < s.len() && s[j] == rs[m];
            assert(loc(s[j]) == path(items[i]->Found_0));
        }
        assert(sorted_outcome(fold_scan(items, step), key)->Ok_0 == s);
    }
}

/// Whether an exec result is the specified outcome.
pub open spec fn outcome_is<R: View>(r: Result<R, TupiError>, expected: Outcome<R::V>) -> bool {
    match r {
        Ok(v) => expected == Ok::<R::V, (ErrorKind, Seq<char>)>(v@),
        Err(e) => expected == Err::<R::V, (ErrorKind, Seq<char>)>(e@),
    }
}

/// Whether an exec list is the specified outcome.
pub open spec fn list_outcome_is<R: View>(
    r: Result<Vec<R>, TupiError>,
    expected: Outcome<Seq<R::V>>,
) -> bool {
    match r {
        Ok(v) => expected == Ok::<Seq<R::V>, (ErrorKind, Seq<char>)>(v@.map_values(|x: R| x@)),
        Err(e) => expected == Err::<Seq<R::V>, (ErrorKind, Seq<char>)>(e@),
    }
}

/// An outcome with its list sorted by `key`.
pub open spec fn sorted_outcome<V>(
    r: Outcome<Seq<V>>,
    key: spec_fn(V) -> (Seq<char>, Seq<char>),
) -> Outcome<Seq<V>> {
    match r {
        Ok(rs) => Ok(crate::order::sort_by_key(rs, key)),
        Err(e) => Err(e),
    }
}

// ---------------------------------------------------------------------------
// Views of optional texts
// ---------------------------------------------------------------------------

/// The view of an optional string.
pub open spec fn opt_view(o: Option<String>) -> Option<Seq<char>> {
    match o {
        Some(s) => Some(s@),
        None => None,
    }
}

/// An optional text trimmed, and dropped when nothing is left of it.
pub open spec fn normalized_text(o: Option<Seq<char>>) -> Option<Seq<char>> {
    match o {
        Some(s) => if trim(s).len() == 0 {
            None
        } else {
            Some(trim(s))
        },
        None => None,
    }
}

/// A copy of an optional string.
pub fn copy_opt(o: &Option<String>) -> (r: Option<String>)
    ensures
        r == *o,
{
    match o {
        Some(s) => Some(s.clone()),
        None => None,
    }
}

/// The characters allowed in a cache key; any other is replaced by `-`.
pub open spec fn cache_key_char(c: char) -> char {
    if ('a' <= c && c <= 'z') || ('A' <= c && c <= 'Z') || ('0' <= c && c <= '9') || c == '-'
        || c == '_' {
        c
    } else {
        '-'
    }
}

// ---------------------------------------------------------------------------
// Paths
// ---------------------------------------------------------------------------

/// What `Path::parent` gives for a path.
pub uninterp spec fn path_parent(p: Seq<char>) -> Option<Seq<char>>;

/// What `Path::file_name` gives for a path.
pub uninterp spec fn path_file_name(p: Seq<char>) -> Option<Seq<char>>;

/// What `Path::join` gives for a path and a child.
pub uninterp spec fn path_join(base: Seq<char>, child: Seq<char>) -> Seq<char>;

/// `Path::parent` on a path given as text; the contract names the result.
#[verifier::external_body]
pub(crate) fn parent_of(p: &str) -> (r: Option<String>)
    ensures
        opt_view(r) == path_parent(p@),
{
    std::path::Path::new(p).parent().map(|q| q.display().to_string())
}

/// `Path::file_name` on a path given as text; the contract names the result.
#[verifier::external_body]
pub(crate) fn file_name_of(p: &str) -> (r: Option<String>)
    ensures
        opt_view(r) == path_file_name(p@),
{
    std::path::Path::new(p).file_name().and_then(|q| q.to_str()).map(|q| q.to_string())
}

/// `Path::join` on paths given as text; the contract names the result.
#[verifier::external_body]
pub(crate) fn join_path(base: &str, child: &str) -> (r: String)
    ensures
        r@ == path_join(base@, child@),
{
    std::path::Path::new(base).join(child).display().to_string()
}

/// The display name of a workspace whose catalog is at `catalog_path`: the
/// name of the folder two levels up, trimmed, or `Project`.
pub open spec fn display_name_for(catalog_path: Seq<char>) -> Seq<char> {
    let name = match path_parent(catalog_path) {
        Some(dir) => match path_parent(dir) {
            Some(root) => path_file_name(root),
            None => None,
        },
        None => None,
    };
    match normalized_text(name) {
        Some(n) => n,
        None => "Project"@,
    }
}

/// Where the user's home folder is, given the environment values of
/// `USERPROFILE`, `HOME`, `HOMEDRIVE` and `HOMEPATH`.
pub open spec fn home_dir_for(
    user_profile: Option<Seq<char>>,
    home: Option<Seq<char>>,
    home_drive: Option<Seq<char>>,
    home_path: Option<Seq<char>>,
) -> Option<Seq<char>> {
    if user_profile matches Some(p) && p.len() > 0 {
        user_profile
    } else if home matches Some(h) && h.len() > 0 {
        home
    } else if home_drive matches Some(d) && home_path matches Some(hp) && path_join(d, hp).len()
        > 0 {
        Some(path_join(home_drive->0, home_path->0))
    } else {
        None
    }
}

impl AppState {
    /// The path of the catalog file.
    pub fn _catalog_path(&self) -> (p: &String)
        ensures
            p@ == self.catalog_path@,
    {
        &self.catalog_path
    }

    /// An optional text trimmed, and dropped when nothing is left of it.
    pub fn normalize_optional_text(value: Option<String>) -> (r: Option<String>)
        ensures
            opt_view(r) == normalized_text(opt_view(value)),
    {
        match value {
            Some(v) => {
                let t = trimmed(v.as_str());
                if t.as_str().is_empty() {
                    None
                } else {
                    Some(t)
                }
            },
            None => None,
        }
    }

    /// The label under which a trust status is stored.
    pub fn trust_status_label(value: &TrustStatus) -> (s: &'static str)
        ensures
            s@ == status_label(*value),
    {
        match value {
            TrustStatus::Trusted => "Trusted",
            TrustStatus::Untrusted => "Untrusted",
            TrustStatus::Stale => "Stale",
            TrustStatus::Invalid => "Invalid",
            TrustStatus::Missing => "Missing",
        }
    }

    /// The trust status that a stored label stands for; an unknown label
    /// stands for `Untrusted`.
    pub fn trust_status_from_str(value: &str) -> (t: TrustStatus)
        ensures
            t == status_of_label(value@),
    {
        if text_eq(value, "Trusted") {
            TrustStatus::Trusted
        } else if text_eq(value, "Stale") {
            TrustStatus::Stale
        } else if text_eq(value, "Invalid") {
            TrustStatus::Invalid
        } else if text_eq(value, "Missing") {
            TrustStatus::Missing
        } else {
            TrustStatus::Untrusted
        }
    }

    /// A key made of letters, digits, `-` and `_` only: every other
    /// character becomes `-`.
    pub fn sanitize_cache_key(value: &str) -> (r: String)
        ensures
            r@ == value@.map_values(|c: char| cache_key_char(c)),
    {
        let v = chars_of(value);
        let mut out: Vec<char> = Vec::new();
        let mut i: usize = 0;
        while i < v.len()
            invariant
                i <= v.len(),
                v@ == value@,
                out@ == v@.subrange(0, i as int).map_values(|c: char| cache_key_char(c)),
            decreases v.len() - i,
        {
            let c = v[i];
            let k = if ('a' <= c && c <= 'z') || ('A' <= c && c <= 'Z') || ('0' <= c && c <= '9')
                || c == '-' || c == '_' {
                c
            } else {
                '-'
            };
            out.push(k);
            assert(v@.subrange(0, i + 1).map_values(|c: char| cache_key_char(c)) =~= v@.subrange(
                0,
                i as int,
            ).map_values(|c: char| cache_key_char(c)).push(cache_key_char(c)));
            i = i + 1;
        }
        assert(v@.subrange(0, v@.len() as int) =~= v@);
        string_of(&out)
    }

    /// The name shown for the workspace: the folder that holds the
    /// `catalog` folder, or `Project` where there is none.
    pub fn workspace_display_name(&self) -> (name: String)
        ensures
            name@ == display_name_for(self.catalog_path@),
    {
        let name = match parent_of(self.catalog_path.as_str()) {
            Some(dir) => match parent_of(dir.as_str()) {
                Some(root) => file_name_of(root.as_str()),
                None => None,
            },
            None => None,
        };
        match Self::normalize_optional_text(name) {
            Some(n) => n,
            None => owned("Project"),
        }
    }

    /// The user's home folder, from the environment values of `USERPROFILE`,
    /// `HOME`, `HOMEDRIVE` and `HOMEPATH`, tried in that order; an empty
    /// value counts as absent.
    pub fn resolve_user_home_dir(
        user_profile: Option<String>,
        home: Option<String>,
        home_drive: Option<String>,
        home_path: Option<String>,
    ) -> (r: Result<String, TupiError>)
        ensures
            match home_dir_for(
                opt_view(user_profile),
                opt_view(home),
                opt_view(home_drive),
                opt_view(home_path),
            ) {
                Some(h) => r matches Ok(p) && p@ == h,
                None => r matches Err(e) && e@ == (
                    ErrorKind::AgentRead,
                    "could not resolve the user home directory"@,
                ),
            },
    {
        if let Some(p) = user_profile {
            if !p.as_str().is_empty() {
                return Ok(p);
            }
        }
        if let Some(h) = home {
            if !h.as_str().is_empty() {
                return Ok(h);
            }
        }
        if let (Some(d), Some(hp)) = (home_drive, home_path) {
            let combined = join_path(d.as_str(), hp.as_str());
            if !combined.as_str().is_empty() {
                return Ok(combined);
            }
        }
        Err(TupiError::AgentRead(owned("could not resolve the user home directory")))
    }
}


impl AppState {
    /// Whether a folder about to be walked is there to walk: a missing
    /// folder holds nothing, and a path that is not a folder is an error of
    /// the given kind.
    pub fn check_scan_root(root: &str, exists: bool, is_dir: bool, kind: ErrorKind) -> (r: Result<
        bool,
        TupiError,
    >)
        ensures
            !exists ==> r == Ok::<bool, TupiError>(false),
            exists && is_dir ==> r == Ok::<bool, TupiError>(true),
            exists && !is_dir ==> (r matches Err(e) && e@ == (kind, root@ + " is not a directory"@)),
    {
        if !exists {
            return Ok(false);
        }
        if !is_dir {
            return Err(crate::error::make_error(kind, crate::text::joined(root, " is not a directory")));
        }
        Ok(true)
    }
}

} // verus!
