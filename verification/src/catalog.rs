//! The trusted catalog: its shape, its summary and the rules that a catalog
//! must follow before anything in it is trusted.
use vstd::prelude::*;

use crate::error::{ErrorKind, TupiError};
use crate::text::{blank, contains_char, has_char, is_blank, joined, joined3, text_eq, trim_end,
    trim_start};

verus! {

/// The catalog of trusted marketplaces and assets.
#[derive(Debug)]
pub struct TrustedCatalog {
    pub version: u32,
    pub catalog_revision: String,
    pub marketplaces: Vec<Marketplace>,
    pub agents: Vec<AssetEntry>,
    pub prompts: Vec<AssetEntry>,
    pub skills: Vec<AssetEntry>,
    pub instructions: Vec<AssetEntry>,
}

/// A marketplace listed in the catalog.
#[derive(Debug)]
pub struct Marketplace {
    pub id: String,
    pub name: String,
    pub repository: String,
    pub branch: String,
    pub revision: String,
}

/// An asset listed in the catalog.
#[derive(Debug)]
pub struct AssetEntry {
    pub id: String,
    pub marketplace: String,
    pub path: String,
    pub version: String,
    pub revision: String,
}

/// The figures that describe a catalog.
#[derive(Debug)]
pub struct CatalogSummary {
    pub version: u32,
    pub catalog_revision: String,
    pub marketplaces: usize,
    pub assets: usize,
}

impl Marketplace {
    /// A copy of this marketplace.
    pub fn duplicate(&self) -> (m: Marketplace)
        ensures
            m == *self,
    {
        Marketplace {
            id: self.id.clone(),
            name: self.name.clone(),
            repository: self.repository.clone(),
            branch: self.branch.clone(),
            revision: self.revision.clone(),
        }
    }
}

impl CatalogSummary {
    /// A copy of this summary.
    pub fn duplicate(&self) -> (s: CatalogSummary)
        ensures
            s == *self,
    {
        CatalogSummary {
            version: self.version,
            catalog_revision: self.catalog_revision.clone(),
            marketplaces: self.marketplaces,
            assets: self.assets,
        }
    }
}

// ---------------------------------------------------------------------------
// Summary
// ---------------------------------------------------------------------------

/// The number of assets of all four kinds.
pub open spec fn asset_count(c: TrustedCatalog) -> nat {
    c.agents@.len() + c.prompts@.len() + c.skills@.len() + c.instructions@.len()
}

impl TrustedCatalog {
    /// The number of assets of all four kinds.
    pub fn assets_len(&self) -> (n: usize)
        requires
            asset_count(*self) <= usize::MAX,
        ensures
            n == asset_count(*self),
    {
        self.agents.len() + self.prompts.len() + self.skills.len() + self.instructions.len()
    }
}

/// The summary of a catalog: its version, its revision, how many
/// marketplaces and how many assets it lists.
pub fn summarize(catalog: &TrustedCatalog) -> (s: CatalogSummary)
    requires
        asset_count(*catalog) <= usize::MAX,
    ensures
        s.version == catalog.version,
        s.catalog_revision@ == catalog.catalog_revision@,
        s.marketplaces == catalog.marketplaces@.len(),
        s.assets == asset_count(*catalog),
{
    CatalogSummary {
        version: catalog.version,
        catalog_revision: catalog.catalog_revision.clone(),
        marketplaces: catalog.marketplaces.len(),
        assets: catalog.assets_len(),
    }
}

// ---------------------------------------------------------------------------
// The rules, as specifications
// ---------------------------------------------------------------------------

/// A failure found while checking, as the error it is reported with.
pub type Problem = Option<(ErrorKind, Seq<char>)>;

/// A validation failure with the given message.
pub open spec fn invalid(msg: Seq<char>) -> Problem {
    Some((ErrorKind::CatalogValidation, msg))
}

/// The first of two problems.
pub open spec fn first_of(a: Problem, b: Problem) -> Problem {
    if a is Some {
        a
    } else {
        b
    }
}

/// The index of the first entry that repeats an earlier one.
pub open spec fn first_repeat(ids: Seq<Seq<char>>) -> Option<int>
    decreases ids.len(),
{
    if ids.len() == 0 {
        None
    } else {
        match first_repeat(ids.drop_last()) {
            Some(j) => Some(j),
            None => if ids.drop_last().contains(ids.last()) {
                Some(ids.len() - 1)
            } else {
                None
            },
        }
    }
}

/// Ids must not repeat.
pub open spec fn unique_ids_problem(label: Seq<char>, ids: Seq<Seq<char>>) -> Problem {
    match first_repeat(ids) {
        Some(j) => invalid("duplicate "@ + label + " id: "@ + ids[j]),
        None => None,
    }
}

/// A required value must not be blank.
pub open spec fn non_empty_problem(label: Seq<char>, value: Seq<char>) -> Problem {
    if blank(value) {
        invalid(label + " is required"@)
    } else {
        None
    }
}

/// An identifier is required and holds no space.
pub open spec fn identifier_problem(label: Seq<char>, value: Seq<char>) -> Problem {
    first_of(
        non_empty_problem(label, value),
        if has_char(value, ' ') {
            invalid(label + " must not contain spaces"@)
        } else {
            None
        },
    )
}

/// A revision is required and is not the moving reference `latest`.
pub open spec fn revision_problem(label: Seq<char>, value: Seq<char>) -> Problem {
    first_of(
        non_empty_problem(label, value),
        if value == "latest"@ {
            invalid(label + " must be immutable"@)
        } else {
            None
        },
    )
}

/// The error text that `url::Url::parse` gives for a text it refuses, or
/// `None` where it accepts the text.
pub uninterp spec fn url_parse_error(text: Seq<char>) -> Option<Seq<char>>;

/// The first rule that a marketplace entry breaks.
pub open spec fn marketplace_problem(m: Marketplace) -> Problem {
    first_of(
        identifier_problem("marketplace.id"@, m.id@),
        first_of(
            non_empty_problem("marketplace.name"@, m.name@),
            first_of(
                non_empty_problem("marketplace.branch"@, m.branch@),
                first_of(
                    if m.branch@ != "main"@ {
                        invalid("marketplace "@ + m.id@ + " must be pinned to main"@)
                    } else {
                        None
                    },
                    first_of(
                        revision_problem("marketplace.revision"@, m.revision@),
                        match url_parse_error(m.repository@) {
                            Some(e) => Some((ErrorKind::Url, e)),
                            None => None,
                        },
                    ),
                ),
            ),
        ),
    )
}

/// The first rule that any marketplace entry breaks, in catalog order.
pub open spec fn marketplaces_problem(ms: Seq<Marketplace>) -> Problem
    decreases ms.len(),
{
    if ms.len() == 0 {
        None
    } else {
        first_of(marketplaces_problem(ms.drop_last()), marketplace_problem(ms.last()))
    }
}

/// The ids of the marketplaces.
pub open spec fn marketplace_ids(ms: Seq<Marketplace>) -> Seq<Seq<char>> {
    ms.map_values(|m: Marketplace| m.id@)
}

/// The ids of the assets.
pub open spec fn asset_ids(assets: Seq<AssetEntry>) -> Seq<Seq<char>> {
    assets.map_values(|a: AssetEntry| a.id@)
}

/// The first rule that an asset entry breaks, given the marketplace ids.
pub open spec fn asset_problem(a: AssetEntry, known: Seq<Seq<char>>) -> Problem {
    first_of(
        identifier_problem("asset.id"@, a.id@),
        first_of(
            identifier_problem("asset.marketplace"@, a.marketplace@),
            first_of(
                non_empty_problem("asset.path"@, a.path@),
                first_of(
                    revision_problem("asset.revision"@, a.revision@),
                    if !known.contains(a.marketplace@) {
                        invalid(
                            "asset "@ + a.id@ + " references unknown marketplace "@
                                + a.marketplace@,
                        )
                    } else {
                        None
                    },
                ),
            ),
        ),
    )
}

/// The first rule that any asset entry breaks, in order.
pub open spec fn assets_problem(assets: Seq<AssetEntry>, known: Seq<Seq<char>>) -> Problem
    decreases assets.len(),
{
    if assets.len() == 0 {
        None
    } else {
        first_of(assets_problem(assets.drop_last(), known), asset_problem(assets.last(), known))
    }
}

/// The first rule that a group of assets breaks.
pub open spec fn asset_group_problem(
    label: Seq<char>,
    assets: Seq<AssetEntry>,
    known: Seq<Seq<char>>,
) -> Problem {
    first_of(unique_ids_problem(label, asset_ids(assets)), assets_problem(assets, known))
}

/// The first rule that a catalog breaks, in the order in which they are
/// checked; `None` for a valid catalog.
pub open spec fn catalog_problem(c: TrustedCatalog) -> Problem {
    let known = marketplace_ids(c.marketplaces@);
    if c.version == 0 {
        invalid("catalog version must be positive"@)
    } else if blank(c.catalog_revision@) {
        invalid("catalogRevision is required"@)
    } else {
        first_of(
            unique_ids_problem("marketplace"@, known),
            first_of(
                marketplaces_problem(c.marketplaces@),
                first_of(
                    asset_group_problem("agent"@, c.agents@, known),
                    first_of(
                        asset_group_problem("prompt"@, c.prompts@, known),
                        first_of(
                            asset_group_problem("skill"@, c.skills@, known),
                            asset_group_problem("instruction"@, c.instructions@, known),
                        ),
                    ),
                ),
            ),
        )
    }
}

// ---------------------------------------------------------------------------
// Laws of the summary and the rules
// ---------------------------------------------------------------------------

/// A summary counts the assets of every kind: agents, prompts, skills and
/// instructions alike, each entry once.
pub proof fn lemma_summary_counts_every_kind(c: TrustedCatalog)
    ensures
        asset_count(c) == c.agents@.len() + c.prompts@.len() + c.skills@.len()
            + c.instructions@.len(),
        asset_count(c) >= c.instructions@.len(),
{
}

/// Two catalogs that list the same agents, prompts and skills differ in
/// their asset counts by exactly the difference in their instructions.
pub proof fn lemma_instructions_counted(c1: TrustedCatalog, c2: TrustedCatalog)
    requires
        c1.agents@.len() == c2.agents@.len(),
        c1.prompts@.len() == c2.prompts@.len(),
        c1.skills@.len() == c2.skills@.len(),
    ensures
        asset_count(c2) - asset_count(c1) == c2.instructions@.len() - c1.instructions@.len(),
{
}

proof fn lemma_assets_problem_each(assets: Seq<AssetEntry>, known: Seq<Seq<char>>)
    requires
        assets_problem(assets, known) is None,
    ensures
        forall|i: int| 0 <= i < assets.len() ==> asset_problem(#[trigger] assets[i], known) is None,
    decreases assets.len(),
{
    if assets.len() > 0 {
        lemma_assets_problem_each(assets.drop_last(), known);
        assert forall|i: int| 0 <= i < assets.len() implies asset_problem(#[trigger] assets[i], known)
            is None by {
            if i < assets.len() - 1 {
                assert(assets[i] == assets.drop_last()[i]);
            }
        }
    }
}

proof fn lemma_marketplaces_problem_each(ms: Seq<Marketplace>)
    requires
        marketplaces_problem(ms) is None,
    ensures
        forall|i: int| 0 <= i < ms.len() ==> marketplace_problem(#[trigger] ms[i]) is None,
    decreases ms.len(),
{
    if ms.len() > 0 {
        lemma_marketplaces_problem_each(ms.drop_last());
        assert forall|i: int| 0 <= i < ms.len() implies marketplace_problem(#[trigger] ms[i]) is None by {
            if i < ms.len() - 1 {
                assert(ms[i] == ms.drop_last()[i]);
            }
        }
    }
}

/// Every asset of an accepted group names a revision, and none is pinned
/// to the moving reference `latest`.
proof fn lemma_group_pinned(assets: Seq<AssetEntry>, known: Seq<Seq<char>>, label: Seq<char>)
    requires
        asset_group_problem(label, assets, known) is None,
    ensures
        forall|i: int| 0 <= i < assets.len() ==> (#[trigger] assets[i]).revision@ != "latest"@
            && !blank(assets[i].revision@),
{
    lemma_assets_problem_each(assets, known);
    assert forall|i: int| 0 <= i < assets.len() implies (#[trigger] assets[i]).revision@ != "latest"@
        && !blank(assets[i].revision@) by {
        assert(asset_problem(assets[i], known) is None);
    }
}

/// An accepted catalog pins nothing to the moving reference `latest`: every
/// asset of every kind, and every marketplace, names a revision other than
/// `latest`, and every marketplace follows `main`.
pub proof fn lemma_accepted_catalog_is_pinned(c: TrustedCatalog)
    requires
        catalog_problem(c) is None,
    ensures
        forall|i: int| 0 <= i < c.agents@.len() ==> (#[trigger] c.agents@[i]).revision@ != "latest"@
            && !blank(c.agents@[i].revision@),
        forall|i: int| 0 <= i < c.prompts@.len() ==> (#[trigger] c.prompts@[i]).revision@ != "latest"@
            && !blank(c.prompts@[i].revision@),
        forall|i: int| 0 <= i < c.skills@.len() ==> (#[trigger] c.skills@[i]).revision@ != "latest"@
            && !blank(c.skills@[i].revision@),
        forall|i: int|
            0 <= i < c.instructions@.len() ==> (#[trigger] c.instructions@[i]).revision@ != "latest"@
                && !blank(c.instructions@[i].revision@),
        forall|i: int|
            0 <= i < c.marketplaces@.len() ==> (#[trigger] c.marketplaces@[i]).revision@ != "latest"@
                && c.marketplaces@[i].branch@ == "main"@,
{
    let known = marketplace_ids(c.marketplaces@);
    lemma_group_pinned(c.agents@, known, "agent"@);
    lemma_group_pinned(c.prompts@, known, "prompt"@);
    lemma_group_pinned(c.skills@, known, "skill"@);
    lemma_group_pinned(c.instructions@, known, "instruction"@);
    lemma_marketplaces_problem_each(c.marketplaces@);
    assert forall|i: int| 0 <= i < c.marketplaces@.len() implies (#[trigger] c.marketplaces@[i]).revision@
        != "latest"@ && c.marketplaces@[i].branch@ == "main"@ by {
        assert(marketplace_problem(c.marketplaces@[i]) is None);
    }
}

/// An asset that passes every earlier rule but is pinned to `latest` is
/// refused because its revision must be immutable.
pub proof fn lemma_latest_asset_refused(a: AssetEntry, known: Seq<Seq<char>>)
    requires
        identifier_problem("asset.id"@, a.id@) is None,
        identifier_problem("asset.marketplace"@, a.marketplace@) is None,
        !blank(a.path@),
        a.revision@ == "latest"@,
    ensures
        asset_problem(a, known) == Some((ErrorKind::CatalogValidation, "asset.revision must be immutable"@)),
{
    reveal_strlit("latest");
    reveal_strlit("asset.revision");
    reveal_strlit(" must be immutable");
    reveal_strlit("asset.revision must be immutable");
    let l = "latest"@;
    assert(l[0] == 'l' && l.last() == 't');
    assert(trim_start(l) == l);
    assert(trim_end(l) == l);
    assert(!blank(a.revision@));
    assert("asset.revision"@ + " must be immutable"@ =~= "asset.revision must be immutable"@);
}

/// Whether the result of a check reports exactly the given problem.
pub open spec fn reports(r: Result<(), TupiError>, p: Problem) -> bool {
    match r {
        Ok(()) => p is None,
        Err(e) => p == Some(e@),
    }
}

// ---------------------------------------------------------------------------
// The checks
// ---------------------------------------------------------------------------

/// Runs `url::Url::parse` and gives back the text of its error, if any.
/// The contract claims only that this text is a function of the input: the
/// name `url_parse_error` stands for it.
#[verifier::external_body]
fn url_parse_failure(text: &str) -> (r: Option<String>)
    ensures
        match r {
            Some(e) => url_parse_error(text@) == Some(e@),
            None => url_parse_error(text@) is None,
        },
{
    match url::Url::parse(text) {
        Ok(_) => None,
        Err(e) => Some(e.to_string()),
    }
}

fn validation_error(msg: String) -> (e: TupiError)
    ensures
        e@ == (ErrorKind::CatalogValidation, msg@),
{
    TupiError::CatalogValidation(msg)
}

/// Checks that no id repeats an earlier one.
fn validate_unique_ids(label: &str, ids: &Vec<&String>) -> (r: Result<(), TupiError>)
    ensures
        reports(r, unique_ids_problem(label@, ids@.map_values(|s: &String| s@))),
{
    let ghost views = ids@.map_values(|s: &String| s@);
    let mut j: usize = 0;
    while j < ids.len()
        invariant
            j <= ids.len(),
            views == ids@.map_values(|s: &String| s@),
            first_repeat(views.take(j as int)) is None,
        decreases ids.len() - j,
    {
        let mut i: usize = 0;
        let mut seen = false;
        while i < j
            invariant
                i <= j < ids.len(),
                views == ids@.map_values(|s: &String| s@),
                !seen ==> forall|k: int| 0 <= k < i ==> views[k] != views[j as int],
                seen ==> views.take(j as int).contains(views[j as int]),
            decreases j - i,
        {
            if !seen && *ids[i] == *ids[j] {
                seen = true;
                assert(views.take(j as int)[i as int] == views[j as int]);
            }
            i = i + 1;
        }
        proof {
            let t = views.take(j + 1);
            assert(t.drop_last() =~= views.take(j as int));
            assert(t.last() == views[j as int]);
            if !seen {
                assert(!views.take(j as int).contains(views[j as int]));
            }
        }
        if seen {
            let msg = joined3("duplicate ", label, joined(" id: ", ids[j].as_str()).as_str());
            proof {
                assert(views.take(j + 1).len() == j + 1);
                assert(first_repeat(views.take(j + 1)) == Some(j as int));
                assert(first_repeat(views) == Some(j as int)) by {
                    lemma_first_repeat_extends(views, j as int + 1);
                }
                assert(msg@ =~= "duplicate "@ + label@ + " id: "@ + views[j as int]);
            }
            return Err(validation_error(msg));
        }
        j = j + 1;
    }
    assert(views.take(ids.len() as int) =~= views);
    Ok(())
}

/// A repeat found in a prefix is the first repeat of the whole sequence.
proof fn lemma_first_repeat_extends(ids: Seq<Seq<char>>, n: int)
    requires
        0 <= n <= ids.len(),
        first_repeat(ids.take(n)) is Some,
    ensures
        first_repeat(ids) == first_repeat(ids.take(n)),
    decreases ids.len() - n,
{
    if n < ids.len() {
        let t = ids.take(n + 1);
        assert(t.drop_last() =~= ids.take(n));
        lemma_first_repeat_extends(ids, n + 1);
    } else {
        assert(ids.take(n) =~= ids);
    }
}

/// Checks that a required value is not blank.
fn validate_non_empty(label: &str, value: &str) -> (r: Result<(), TupiError>)
    ensures
        reports(r, non_empty_problem(label@, value@)),
{
    if is_blank(value) {
        return Err(validation_error(joined(label, " is required")));
    }
    Ok(())
}

/// Checks that an identifier is present and holds no space.
fn validate_identifier(label: &str, value: &str) -> (r: Result<(), TupiError>)
    ensures
        reports(r, identifier_problem(label@, value@)),
{
    validate_non_empty(label, value)?;
    if contains_char(value, ' ') {
        return Err(validation_error(joined(label, " must not contain spaces")));
    }
    Ok(())
}

/// Checks that a revision is present and immutable.
fn validate_revision(label: &str, value: &str) -> (r: Result<(), TupiError>)
    ensures
        reports(r, revision_problem(label@, value@)),
{
    validate_non_empty(label, value)?;
    if text_eq(value, "latest") {
        return Err(validation_error(joined(label, " must be immutable")));
    }
    Ok(())
}

/// Checks one marketplace entry.
fn validate_marketplace(marketplace: &Marketplace) -> (r: Result<(), TupiError>)
    ensures
        reports(r, marketplace_problem(*marketplace)),
{
    validate_identifier("marketplace.id", marketplace.id.as_str())?;
    validate_non_empty("marketplace.name", marketplace.name.as_str())?;
    validate_non_empty("marketplace.branch", marketplace.branch.as_str())?;
    if !text_eq(marketplace.branch.as_str(), "main") {
        let msg = joined3("marketplace ", marketplace.id.as_str(), " must be pinned to main");
        return Err(validation_error(msg));
    }
    validate_revision("marketplace.revision", marketplace.revision.as_str())?;
    match url_parse_failure(marketplace.repository.as_str()) {
        Some(e) => Err(TupiError::Url(e)),
        None => Ok(()),
    }
}

/// Whether `ids` holds `value`.
fn list_contains(ids: &Vec<&String>, value: &String) -> (r: bool)
    ensures
        r == ids@.map_values(|s: &String| s@).contains(value@),
{
    let ghost views = ids@.map_values(|s: &String| s@);
    let mut i: usize = 0;
    while i < ids.len()
        invariant
            i <= ids.len(),
            views == ids@.map_values(|s: &String| s@),
            forall|k: int| 0 <= k < i ==> views[k] != value@,
        decreases ids.len() - i,
    {
        if *ids[i] == *value {
            assert(views[i as int] == value@);
            return true;
        }
        i = i + 1;
    }
    false
}

/// Checks one asset entry against the marketplace ids.
fn validate_asset(asset: &AssetEntry, marketplace_ids: &Vec<&String>) -> (r: Result<(), TupiError>)
    ensures
        reports(r, asset_problem(*asset, marketplace_ids@.map_values(|s: &String| s@))),
{
    validate_identifier("asset.id", asset.id.as_str())?;
    validate_identifier("asset.marketplace", asset.marketplace.as_str())?;
    validate_non_empty("asset.path", asset.path.as_str())?;
    validate_revision("asset.revision", asset.revision.as_str())?;
    if !list_contains(marketplace_ids, &asset.marketplace) {
        let msg = joined3(
            "asset ",
            asset.id.as_str(),
            joined(" references unknown marketplace ", asset.marketplace.as_str()).as_str(),
        );
        assert(msg@ =~= "asset "@ + asset.id@ + " references unknown marketplace "@
            + asset.marketplace@);
        return Err(validation_error(msg));
    }
    Ok(())
}

/// The ids of a list of assets.
fn asset_id_refs(assets: &Vec<AssetEntry>) -> (ids: Vec<&String>)
    ensures
        ids@.map_values(|s: &String| s@) == asset_ids(assets@),
{
    let mut ids: Vec<&String> = Vec::new();
    let mut i: usize = 0;
    while i < assets.len()
        invariant
            i <= assets.len(),
            ids@.len() == i,
            forall|k: int| 0 <= k < i ==> ids@[k]@ == assets@[k].id@,
        decreases assets.len() - i,
    {
        ids.push(&assets[i].id);
        i = i + 1;
    }
    assert(ids@.map_values(|s: &String| s@) =~= asset_ids(assets@));
    ids
}

/// The ids of a list of marketplaces.
fn marketplace_id_refs(marketplaces: &Vec<Marketplace>) -> (ids: Vec<&String>)
    ensures
        ids@.map_values(|s: &String| s@) == marketplace_ids(marketplaces@),
{
    let mut ids: Vec<&String> = Vec::new();
    let mut i: usize = 0;
    while i < marketplaces.len()
        invariant
            i <= marketplaces.len(),
            ids@.len() == i,
            forall|k: int| 0 <= k < i ==> ids@[k]@ == marketplaces@[k].id@,
        decreases marketplaces.len() - i,
    {
        ids.push(&marketplaces[i].id);
        i = i + 1;
    }
    assert(ids@.map_values(|s: &String| s@) =~= marketplace_ids(marketplaces@));
    ids
}

/// Checks a group of assets: unique ids, then each entry in order.
fn validate_asset_group(
    label: &str,
    assets: &Vec<AssetEntry>,
    marketplace_ids: &Vec<&String>,
) -> (r: Result<(), TupiError>)
    ensures
        reports(
            r,
            asset_group_problem(label@, assets@, marketplace_ids@.map_values(|s: &String| s@)),
        ),
{
    let ghost known = marketplace_ids@.map_values(|s: &String| s@);
    let ids = asset_id_refs(assets);
    validate_unique_ids(label, &ids)?;
    let mut i: usize = 0;
    while i < assets.len()
        invariant
            i <= assets.len(),
            known == marketplace_ids@.map_values(|s: &String| s@),
            unique_ids_problem(label@, asset_ids(assets@)) is None,
            assets_problem(assets@.take(i as int), known) is None,
        decreases assets.len() - i,
    {
        let ghost t = assets@.take(i + 1);
        proof {
            assert(t.drop_last() =~= assets@.take(i as int));
        }
        let r = validate_asset(&assets[i], marketplace_ids);
        if r.is_err() {
            proof {
                assert(t.last() == assets@[i as int]);
                assert(assets_problem(t, known) == asset_problem(assets@[i as int], known));
                lemma_assets_problem_extends(assets@, known, i + 1);
            }
            return r;
        }
        i = i + 1;
    }
    assert(assets@.take(assets@.len() as int) =~= assets@);
    Ok(())
}

proof fn lemma_assets_problem_extends(assets: Seq<AssetEntry>, known: Seq<Seq<char>>, n: int)
    requires
        0 <= n <= assets.len(),
        assets_problem(assets.take(n), known) is Some,
    ensures
        assets_problem(assets, known) == assets_problem(assets.take(n), known),
    decreases assets.len() - n,
{
    if n < assets.len() {
        let t = assets.take(n + 1);
        assert(t.drop_last() =~= assets.take(n));
        lemma_assets_problem_extends(assets, known, n + 1);
    } else {
        assert(assets.take(n) =~= assets);
    }
}

proof fn lemma_marketplaces_problem_extends(ms: Seq<Marketplace>, n: int)
    requires
        0 <= n <= ms.len(),
        marketplaces_problem(ms.take(n)) is Some,
    ensures
        marketplaces_problem(ms) == marketplaces_problem(ms.take(n)),
    decreases ms.len() - n,
{
    if n < ms.len() {
        let t = ms.take(n + 1);
        assert(t.drop_last() =~= ms.take(n));
        lemma_marketplaces_problem_extends(ms, n + 1);
    } else {
        assert(ms.take(n) =~= ms);
    }
}

/// Checks a catalog: a positive version, a revision, marketplaces with
/// unique ids that are each pinned to `main` at an immutable revision and
/// name a repository URL, and assets of each kind with unique ids, a path,
/// an immutable revision and a listed marketplace. The error is that of the
/// first rule broken, in that order.
pub fn validate_catalog(catalog: &TrustedCatalog) -> (r: Result<(), TupiError>)
    ensures
        reports(r, catalog_problem(*catalog)),
{
    if catalog.version == 0 {
        return Err(validation_error(String::from_str("catalog version must be positive")));
    }
    if is_blank(catalog.catalog_revision.as_str()) {
        return Err(validation_error(String::from_str("catalogRevision is required")));
    }
    let ids = marketplace_id_refs(&catalog.marketplaces);
    validate_unique_ids("marketplace", &ids)?;
    let mut i: usize = 0;
    while i < catalog.marketplaces.len()
        invariant
            i <= catalog.marketplaces.len(),
            catalog.version != 0,
            !blank(catalog.catalog_revision@),
            unique_ids_problem("marketplace"@, marketplace_ids(catalog.marketplaces@)) is None,
            marketplaces_problem(catalog.marketplaces@.take(i as int)) is None,
        decreases catalog.marketplaces.len() - i,
    {
        let ghost t = catalog.marketplaces@.take(i + 1);
        proof {
            assert(t.drop_last() =~= catalog.marketplaces@.take(i as int));
        }
        let r = validate_marketplace(&catalog.marketplaces[i]);
        if r.is_err() {
            proof {
                assert(t.last() == catalog.marketplaces@[i as int]);
                assert(marketplaces_problem(t) == marketplace_problem(catalog.marketplaces@[i as int]));
                lemma_marketplaces_problem_extends(catalog.marketplaces@, i + 1);
            }
            return r;
        }
        i = i + 1;
    }
    assert(catalog.marketplaces@.take(catalog.marketplaces@.len() as int)
        =~= catalog.marketplaces@);
    validate_asset_group("agent", &catalog.agents, &ids)?;
    validate_asset_group("prompt", &catalog.prompts, &ids)?;
    validate_asset_group("skill", &catalog.skills, &ids)?;
    validate_asset_group("instruction", &catalog.instructions, &ids)?;
    Ok(())
}

/// Accepts the outcome of parsing a catalog: a parse failure becomes a
/// `CatalogParse` error with the parser's message, a parsed catalog is
/// checked by `validate_catalog` and handed back when it passes.
pub fn accept_parsed_catalog(parsed: Result<TrustedCatalog, String>) -> (r: Result<
    TrustedCatalog,
    TupiError,
>)
    ensures
        match parsed {
            Err(msg) => r matches Err(e) && e@ == (ErrorKind::CatalogParse, msg@),
            Ok(c) => match catalog_problem(c) {
                None => r == Ok::<TrustedCatalog, TupiError>(c),
                Some(p) => r matches Err(e) && e@ == p,
            },
        },
{
    match parsed {
        Err(msg) => Err(TupiError::CatalogParse(msg)),
        Ok(catalog) => {
            validate_catalog(&catalog)?;
            Ok(catalog)
        },
    }
}

} // verus!
