//! Agents owned by trusted marketplaces: found in the `agents` folders of
//! their workspaces, stored per marketplace, and offered to profiles.
use vstd::prelude::*;

use super::global_agents::{agent_suffix, agent_suffix_chars, copy_error, frontmatter_description};
use super::{copy_opt, opt_view, AgentOption, AppState, MarketplaceAgentRecord, MarketplaceOption,
    Outcome, ScanItem};
use crate::catalog::{Marketplace, TrustedCatalog};
use crate::error::{ErrorKind, TupiError};
use crate::order::{lemma_sort_by_key_map, sort_by_key, sort_with_keys, sorted_by_key, SortKey};
use crate::order::{has_key, lemma_select_all, lemma_select_concat, lemma_select_map,
    lemma_select_none, lemma_sort_by_key_stable, select};
use crate::text::{chars_end_with, chars_equal, chars_of, ends_with, joined, joined3, lower,
    lower_chars, owned, string_of_range, trim, trimmed};
use crate::trust::{status_label, status_of_label, TrustStatus};

verus! {

// ---------------------------------------------------------------------------
// Views
// ---------------------------------------------------------------------------

/// An agent of a marketplace, as texts.
pub struct MarketplaceAgentView {
    pub name: Seq<char>,
    pub description: Option<Seq<char>>,
    pub trust_status: TrustStatus,
}

impl View for MarketplaceAgentRecord {
    type V = MarketplaceAgentView;

    open spec fn view(&self) -> MarketplaceAgentView {
        MarketplaceAgentView {
            name: self.name@,
            description: opt_view(self.description),
            trust_status: self.trust_status,
        }
    }
}

impl MarketplaceAgentRecord {
    /// A copy of this record.
    pub fn duplicate(&self) -> (r: MarketplaceAgentRecord)
        ensures
            r@ == self@,
    {
        MarketplaceAgentRecord {
            name: self.name.clone(),
            description: copy_opt(&self.description),
            trust_status: self.trust_status,
        }
    }
}

// ---------------------------------------------------------------------------
// Agents of one marketplace workspace
// ---------------------------------------------------------------------------

/// A regular file met while walking the `agents` folder of a marketplace
/// workspace: its path, the folder it lies in, its name where the name is
/// valid Unicode, and its text, or the error met reading it. The text is
/// looked at only for files named as agents.
#[derive(Debug)]
pub struct MarketplaceAgentFile {
    pub path: String,
    pub directory: String,
    pub file_name: Option<String>,
    pub contents: Result<String, String>,
}

/// The agent name that a file name gives: a name that does not end in
/// `.agent.md` (in this case), or has nothing but spaces before it, is no
/// agent; a file without a readable name is an error.
pub open spec fn marketplace_agent_name_of(file_name: Option<Seq<char>>, path: Seq<char>) -> Outcome<
    Option<Seq<char>>,
> {
    match file_name {
        None => Err(
            (ErrorKind::CatalogValidation, "agent file "@ + path + " must have a valid filename"@),
        ),
        Some(f) => if !ends_with(f, agent_suffix()) {
            Ok(None)
        } else if trim(f.subrange(0, f.len() - agent_suffix().len())).len() == 0 {
            Ok(None)
        } else {
            Ok(Some(trim(f.subrange(0, f.len() - agent_suffix().len()))))
        },
    }
}

/// The lowered names of agents, by which two agents are the same.
pub open spec fn agent_keys(found: Seq<MarketplaceAgentView>) -> Seq<Seq<char>> {
    found.map_values(|a: MarketplaceAgentView| lower(a.name))
}

/// The agent that a file adds to those found before it: its description
/// comes from its front matter, and a name that was found before, ignoring
/// ASCII case, is an error.
pub open spec fn marketplace_agent_step(
    found: Seq<MarketplaceAgentView>,
    f: MarketplaceAgentFile,
) -> Outcome<Seq<MarketplaceAgentView>> {
    match marketplace_agent_name_of(opt_view(f.file_name), f.path@) {
        Err(e) => Err(e),
        Ok(None) => Ok(found),
        Ok(Some(name)) => match f.contents {
            Err(m) => Err((ErrorKind::CatalogRead, f.path@ + " ("@ + m@ + ")"@)),
            Ok(text) => match frontmatter_description(text@) {
                Err(e) => Err(e),
                Ok(d) => if agent_keys(found).contains(lower(name)) {
                    Err(
                        (
                            ErrorKind::CatalogValidation,
                            "duplicate trusted marketplace agent "@ + name + " found under "@
                                + f.directory@,
                        ),
                    )
                } else {
                    Ok(
                        found.push(
                            MarketplaceAgentView {
                                name,
                                description: d,
                                trust_status: TrustStatus::Trusted,
                            },
                        ),
                    )
                },
            },
        },
    }
}

/// The agents found in a walk, in walk order; the first error met ends it.
pub open spec fn scanned_marketplace_agents(items: Seq<ScanItem<MarketplaceAgentFile>>) -> Outcome<
    Seq<MarketplaceAgentView>,
>
    decreases items.len(),
{
    if items.len() == 0 {
        Ok(Seq::empty())
    } else {
        match scanned_marketplace_agents(items.drop_last()) {
            Err(e) => Err(e),
            Ok(found) => match items.last() {
                ScanItem::Failed(e) => Err(e@),
                ScanItem::Found(f) => marketplace_agent_step(found, f),
            },
        }
    }
}

/// The agent name that a file named `n` would give: what comes before
/// `.agent.md`, trimmed.
pub open spec fn name_before_suffix(n: Seq<char>) -> Seq<char> {
    trim(n.subrange(0, n.len() - ".agent.md"@.len()))
}

/// Whether a walk entry is an agent file of a marketplace: a file whose name
/// ends in `.agent.md` with something other than spaces before it.
pub open spec fn marketplace_agent_file() -> spec_fn(ScanItem<MarketplaceAgentFile>) -> bool {
    |it: ScanItem<MarketplaceAgentFile>|
        it matches ScanItem::Found(f) && (opt_view(f.file_name) matches Some(n) && (ends_with(
            n,
            ".agent.md"@,
        ) && name_before_suffix(n).len() > 0))
}

proof fn lemma_scan_keeps_agent_files(items: Seq<ScanItem<MarketplaceAgentFile>>)
    ensures
        scanned_marketplace_agents(items) matches Ok(found) ==> found.len() == items.filter(
            marketplace_agent_file(),
        ).len() && forall|m: int|
            #![trigger items.filter(marketplace_agent_file())[m]]
            0 <= m < found.len() ==> found[m].name == name_before_suffix(
                opt_view(items.filter(marketplace_agent_file())[m]->Found_0.file_name)->Some_0,
            ),
    decreases items.len(),
{
    reveal_with_fuel(Seq::filter, 1);
    if items.len() > 0 {
        let rest = items.drop_last();
        lemma_scan_keeps_agent_files(rest);
        if let Ok(found) = scanned_marketplace_agents(items) {
            let found0 = scanned_marketplace_agents(rest)->Ok_0;
            let f0 = rest.filter(marketplace_agent_file());
            let f = items.filter(marketplace_agent_file());
            if let ScanItem::Found(t) = items.last() {
                if marketplace_agent_file()(items.last()) {
                    assert(f == f0.push(items.last()));
                    assert(found.len() == found0.len() + 1);
                    assert forall|m: int| #![trigger f[m]] 0 <= m < found.len() implies found[m].name
                        == name_before_suffix(opt_view(f[m]->Found_0.file_name)->Some_0) by {
                        if m < found0.len() {
                            assert(found[m] == found0[m]);
                            assert(f[m] == f0[m]);
                        }
                    }
                } else {
                    assert(f == f0);
                    assert(found == found0);
                }
            }
        }
    }
}

/// Every agent file of a marketplace becomes one agent: a walk that
/// succeeds lists exactly as many agents as it met files named
/// `<name>.agent.md` with a name that is not blank, and each under that
/// name, trimmed.
pub proof fn lemma_every_marketplace_agent_file_listed(items: Seq<ScanItem<MarketplaceAgentFile>>)
    ensures
        discovered_marketplace_agents(items) matches Ok(s) ==> s.len() == items.filter(
            marketplace_agent_file(),
        ).len() && forall|i: int|
            0 <= i < items.len() && marketplace_agent_file()(#[trigger] items[i]) ==> exists|j: int|
                0 <= j < s.len() && s[j].name == name_before_suffix(
                    opt_view(items[i]->Found_0.file_name)->Some_0,
                ),
{
    lemma_scan_keeps_agent_files(items);
    if let Ok(found) = scanned_marketplace_agents(items) {
        let key = |a: MarketplaceAgentView| marketplace_agent_key(a);
        crate::order::lemma_sort_by_key_sorted_permutation(found, key);
        let s = sort_by_key(found, key);
        let f = items.filter(marketplace_agent_file());
        assert forall|i: int| 0 <= i < items.len() && marketplace_agent_file()(#[trigger] items[i]) implies exists|j: int|
            0 <= j < s.len() && s[j].name == name_before_suffix(opt_view(items[i]->Found_0.file_name)->Some_0) by {
            items.lemma_filter_contains(marketplace_agent_file(), i);
            let m = choose|m: int| 0 <= m < f.len() && f[m] == items[i];
            assert(found[m].name == name_before_suffix(opt_view(f[m]->Found_0.file_name)->Some_0));
            found.to_multiset_ensures();
            s.to_multiset_ensures();
            assert(found.contains(found[m]));
            assert(found.to_multiset().count(found[m]) > 0);
            assert(s.to_multiset().count(found[m]) > 0);
            assert(s.contains(found[m]));
            let j = choose|j: int| 0 <= j < s.len() && s[j] == found[m];
            assert(s[j].name == found[m].name);
        }
        assert(discovered_marketplace_agents(items)->Ok_0 == s);
    }
}

/// Marketplace agents are listed by name, ignoring ASCII case.
pub open spec fn marketplace_agent_key(a: MarketplaceAgentView) -> (Seq<char>, Seq<char>) {
    (lower(a.name), Seq::empty())
}

/// The agents of a walk, listed by name.
pub open spec fn discovered_marketplace_agents(items: Seq<ScanItem<MarketplaceAgentFile>>) -> Outcome<
    Seq<MarketplaceAgentView>,
> {
    match scanned_marketplace_agents(items) {
        Ok(found) => Ok(sort_by_key(found, |a: MarketplaceAgentView| marketplace_agent_key(a))),
        Err(e) => Err(e),
    }
}

proof fn lemma_marketplace_scan_error_sticks(items: Seq<ScanItem<MarketplaceAgentFile>>, n: int)
    requires
        0 <= n <= items.len(),
        scanned_marketplace_agents(items.take(n)) is Err,
    ensures
        scanned_marketplace_agents(items) == scanned_marketplace_agents(items.take(n)),
    decreases items.len() - n,
{
    if n < items.len() {
        let t = items.take(n + 1);
        assert(t.drop_last() =~= items.take(n));
        lemma_marketplace_scan_error_sticks(items, n + 1);
    } else {
        assert(items.take(n) =~= items);
    }
}

/// Whether `keys` holds `k`.
fn holds_key(keys: &Vec<Vec<char>>, k: &Vec<char>) -> (r: bool)
    ensures
        r == keys@.map_values(|x: Vec<char>| x@).contains(k@),
{
    let ghost v = keys@.map_values(|x: Vec<char>| x@);
    let mut i: usize = 0;
    while i < keys.len()
        invariant
            i <= keys.len(),
            v == keys@.map_values(|x: Vec<char>| x@),
            forall|j: int| 0 <= j < i ==> v[j] != k@,
        decreases keys.len() - i,
    {
        if chars_equal(&keys[i], k) {
            assert(v[i as int] == k@);
            return true;
        }
        i = i + 1;
    }
    false
}

impl AppState {
    /// The agent name that a file name gives; see
    /// `marketplace_agent_name_of`.
    pub fn marketplace_agent_name(file_name: &Option<String>, path: &str) -> (r: Result<
        Option<String>,
        TupiError,
    >)
        ensures
            match r {
                Ok(n) => marketplace_agent_name_of(opt_view(*file_name), path@) == Ok::<
                    Option<Seq<char>>,
                    (ErrorKind, Seq<char>),
                >(opt_view(n)),
                Err(e) => marketplace_agent_name_of(opt_view(*file_name), path@) == Err::<
                    Option<Seq<char>>,
                    (ErrorKind, Seq<char>),
                >(e@),
            },
    {
        let f = match file_name {
            None => {
                return Err(
                    TupiError::CatalogValidation(
                        joined3("agent file ", path, " must have a valid filename"),
                    ),
                );
            },
            Some(f) => f,
        };
        let suffix = agent_suffix_chars();
        let chars = chars_of(f.as_str());
        if !chars_end_with(&chars, &suffix) {
            return Ok(None);
        }
        let cut = chars.len() - 9;
        let stem = string_of_range(&chars, 0, cut);
        let name = trimmed(stem.as_str());
        if name.as_str().is_empty() {
            return Ok(None);
        }
        Ok(Some(name))
    }

    /// The agents found in a walk of a marketplace's `agents` folder, given
    /// as the files met in walk order; the first failure, unreadable agent
    /// file or repeated name is the error. The agents are listed by name,
    /// ignoring ASCII case, and are trusted.
    pub fn discover_marketplace_agents(items: &Vec<ScanItem<MarketplaceAgentFile>>) -> (r: Result<
        Vec<MarketplaceAgentRecord>,
        TupiError,
    >)
        ensures
            match discovered_marketplace_agents(items@) {
                Ok(rs) => r matches Ok(out) && out@.map_values(|a: MarketplaceAgentRecord| a@)
                    == rs,
                Err(e) => r matches Err(x) && x@ == e,
            },
    {
        let mut found: Vec<MarketplaceAgentRecord> = Vec::new();
        let mut keys: Vec<Vec<char>> = Vec::new();
        let mut i: usize = 0;
        assert(items@.take(0) =~= Seq::<ScanItem<MarketplaceAgentFile>>::empty());
        assert(found@.map_values(|a: MarketplaceAgentRecord| a@) =~= Seq::<
            MarketplaceAgentView,
        >::empty());
        while i < items.len()
            invariant
                i <= items.len(),
                scanned_marketplace_agents(items@.take(i as int)) == Ok::<
                    Seq<MarketplaceAgentView>,
                    (ErrorKind, Seq<char>),
                >(found@.map_values(|a: MarketplaceAgentRecord| a@)),
                keys@.map_values(|x: Vec<char>| x@) == agent_keys(
                    found@.map_values(|a: MarketplaceAgentRecord| a@),
                ),
            decreases items.len() - i,
        {
            let ghost t = items@.take(i + 1);
            let ghost fv = found@.map_values(|a: MarketplaceAgentRecord| a@);
            proof {
                assert(t.drop_last() =~= items@.take(i as int));
                assert(t.last() == items@[i as int]);
            }
            match &items[i] {
                ScanItem::Failed(e) => {
                    proof {
                        lemma_marketplace_scan_error_sticks(items@, i + 1);
                    }
                    return Err(copy_error(e));
                },
                ScanItem::Found(f) => {
                    let named = Self::marketplace_agent_name(&f.file_name, f.path.as_str());
                    match named {
                        Err(e) => {
                            proof {
                                lemma_marketplace_scan_error_sticks(items@, i + 1);
                            }
                            return Err(e);
                        },
                        Ok(None) => {},
                        Ok(Some(name)) => {
                            let text = match &f.contents {
                                Err(m) => {
                                    let msg = joined3(
                                        f.path.as_str(),
                                        " (",
                                        joined(m.as_str(), ")").as_str(),
                                    );
                                    proof {
                                        assert(msg@ =~= f.path@ + " ("@ + m@ + ")"@);
                                        lemma_marketplace_scan_error_sticks(items@, i + 1);
                                    }
                                    return Err(TupiError::CatalogRead(msg));
                                },
                                Ok(text) => text,
                            };
                            let description = match Self::extract_frontmatter_description(
                                text.as_str(),
                            ) {
                                Err(e) => {
                                    proof {
                                        lemma_marketplace_scan_error_sticks(items@, i + 1);
                                    }
                                    return Err(e);
                                },
                                Ok(d) => d,
                            };
                            let key = lower_chars(name.as_str());
                            if holds_key(&keys, &key) {
                                let msg = joined3(
                                    "duplicate trusted marketplace agent ",
                                    name.as_str(),
                                    joined(" found under ", f.directory.as_str()).as_str(),
                                );
                                proof {
                                    assert(msg@ =~= "duplicate trusted marketplace agent "@
                                        + name@ + " found under "@ + f.directory@);
                                    lemma_marketplace_scan_error_sticks(items@, i + 1);
                                }
                                return Err(TupiError::CatalogValidation(msg));
                            }
                            let rec = MarketplaceAgentRecord {
                                name,
                                description,
                                trust_status: TrustStatus::Trusted,
                            };
                            let ghost before = found@;
                            let ghost kbefore = keys@;
                            found.push(rec);
                            keys.push(key);
                            proof {
                                assert(found@.map_values(|a: MarketplaceAgentRecord| a@)
                                    =~= before.map_values(|a: MarketplaceAgentRecord| a@).push(
                                    found@.last()@,
                                ));
                                assert(keys@.map_values(|x: Vec<char>| x@) =~= kbefore.map_values(
                                    |x: Vec<char>| x@,
                                ).push(key@));
                                assert(agent_keys(found@.map_values(|a: MarketplaceAgentRecord| a@))
                                    =~= agent_keys(fv).push(key@));
                            }
                        },
                    }
                },
            }
            i = i + 1;
        }
        assert(items@.take(items.len() as int) =~= items@);
        Ok(Self::sort_marketplace_agents(found))
    }

    /// Marketplace agents listed by name, ignoring ASCII case.
    pub fn sort_marketplace_agents(found: Vec<MarketplaceAgentRecord>) -> (sorted: Vec<
        MarketplaceAgentRecord,
    >)
        ensures
            sorted@.map_values(|a: MarketplaceAgentRecord| a@) == sort_by_key(
                found@.map_values(|a: MarketplaceAgentRecord| a@),
                |a: MarketplaceAgentView| marketplace_agent_key(a),
            ),
    {
        let mut sort_keys: Vec<SortKey> = Vec::new();
        let mut k: usize = 0;
        while k < found.len()
            invariant
                k <= found.len(),
                sort_keys.len() == k,
                forall|j: int|
                    0 <= j < k ==> #[trigger] sort_keys@[j]@ == marketplace_agent_key(found@[j]@),
            decreases found.len() - k,
        {
            let key = SortKey { primary: lower_chars(found[k].name.as_str()), secondary: Vec::new() };
            assert(key.secondary@ =~= Seq::<char>::empty());
            sort_keys.push(key);
            k = k + 1;
        }
        let ghost rkey = |a: MarketplaceAgentRecord| marketplace_agent_key(a@);
        let ghost fv = |a: MarketplaceAgentRecord| a@;
        let ghost unsorted = found@;
        let sorted = sort_with_keys(found, sort_keys, Ghost(rkey));
        proof {
            lemma_sort_by_key_map(
                unsorted,
                fv,
                |v: MarketplaceAgentView| marketplace_agent_key(v),
                rkey,
            );
            assert(unsorted.map_values(fv) =~= unsorted.map_values(|a: MarketplaceAgentRecord| a@));
            assert(sorted@.map_values(fv) =~= sorted@.map_values(|a: MarketplaceAgentRecord| a@));
        }
        sorted
    }
}


// ---------------------------------------------------------------------------
// Agent names across marketplace workspaces
// ---------------------------------------------------------------------------

/// The index of the last `.` in a text.
pub open spec fn last_dot(s: Seq<char>) -> Option<int>
    decreases s.len(),
{
    if s.len() == 0 {
        None
    } else if s.last() == '.' {
        Some(s.len() - 1)
    } else {
        last_dot(s.drop_last())
    }
}

/// The stem of a file name, as `Path::file_stem` gives it: what comes
/// before the last dot, or the whole name where it is `..`, has no dot, or
/// starts with its only dot.
pub open spec fn file_stem_of(name: Seq<char>) -> Seq<char> {
    if name == ".."@ {
        name
    } else {
        match last_dot(name) {
            Some(k) => if k == 0 {
                name
            } else {
                name.subrange(0, k)
            },
            None => name,
        }
    }
}

/// The extension of a file name, as `Path::extension` gives it: what comes
/// after the last dot, where the stem is not the whole name.
pub open spec fn extension_of(name: Seq<char>) -> Option<Seq<char>> {
    if name == ".."@ {
        None
    } else {
        match last_dot(name) {
            Some(k) => if k == 0 {
                None
            } else {
                Some(name.subrange(k + 1, name.len() as int))
            },
            None => None,
        }
    }
}

/// A regular file met while walking an `agents` folder: its path, its name
/// (with any bytes that are not Unicode replaced), and whether that name is
/// valid Unicode as it stands.
#[derive(Debug)]
pub struct AgentFileEntry {
    pub path: String,
    pub name: String,
    pub name_is_text: bool,
}

/// The walk of the `agents` folder of one marketplace workspace.
#[derive(Debug)]
pub struct AgentRoot {
    pub marketplace_id: String,
    pub items: Vec<ScanItem<AgentFileEntry>>,
}

/// The agent name that a file gives: Markdown files (extension `md` in any
/// case) are agents named by their trimmed stem, which must be readable and
/// not empty; other files are no agents.
pub open spec fn agent_file_name_of(e: AgentFileEntry) -> Outcome<Option<Seq<char>>> {
    match extension_of(e.name@) {
        Some(x) => if lower(x) != "md"@ {
            Ok(None)
        } else if !e.name_is_text || trim(file_stem_of(e.name@)).len() == 0 {
            Err((ErrorKind::CatalogValidation, "agent file "@ + e.path@ + " must have a valid name"@))
        } else {
            Ok(Some(trim(file_stem_of(e.name@))))
        },
        None => Ok(None),
    }
}

/// The marketplace in which an agent name was found, by its lowered name.
pub open spec fn owner_of(found: Seq<(Seq<char>, Seq<char>)>, key: Seq<char>) -> Option<Seq<char>>
    decreases found.len(),
{
    if found.len() == 0 {
        None
    } else if lower(found.last().0) == key {
        Some(found.last().1)
    } else {
        owner_of(found.drop_last(), key)
    }
}

/// The names found so far, with their marketplaces, after one more file of
/// the marketplace `mid`: a name found before, ignoring ASCII case, is an
/// error that names both marketplaces.
pub open spec fn agent_name_step(
    found: Seq<(Seq<char>, Seq<char>)>,
    mid: Seq<char>,
    e: AgentFileEntry,
) -> Outcome<Seq<(Seq<char>, Seq<char>)>> {
    match agent_file_name_of(e) {
        Err(x) => Err(x),
        Ok(None) => Ok(found),
        Ok(Some(stem)) => match owner_of(found, lower(stem)) {
            Some(existing) => Err(
                (
                    ErrorKind::CatalogValidation,
                    "duplicate agent name "@ + stem + " found in trusted marketplace "@ + existing
                        + " and "@ + mid,
                ),
            ),
            None => Ok(found.push((stem, mid))),
        },
    }
}

/// The names found after the walk of one marketplace's folder, starting
/// from those found before it; the first error met ends it.
pub open spec fn names_in_walk(
    prev: Seq<(Seq<char>, Seq<char>)>,
    mid: Seq<char>,
    items: Seq<ScanItem<AgentFileEntry>>,
) -> Outcome<Seq<(Seq<char>, Seq<char>)>>
    decreases items.len(),
{
    if items.len() == 0 {
        Ok(prev)
    } else {
        match names_in_walk(prev, mid, items.drop_last()) {
            Err(e) => Err(e),
            Ok(found) => match items.last() {
                ScanItem::Failed(e) => Err(e@),
                ScanItem::Found(f) => agent_name_step(found, mid, f),
            },
        }
    }
}

/// The names found in the walks of all folders, in order.
pub open spec fn names_in_roots(roots: Seq<AgentRoot>) -> Outcome<Seq<(Seq<char>, Seq<char>)>>
    decreases roots.len(),
{
    if roots.len() == 0 {
        Ok(Seq::empty())
    } else {
        match names_in_roots(roots.drop_last()) {
            Err(e) => Err(e),
            Ok(found) => names_in_walk(found, roots.last().marketplace_id@, roots.last().items@),
        }
    }
}

/// Agent names are listed ignoring ASCII case.
pub open spec fn agent_name_key(p: (Seq<char>, Seq<char>)) -> (Seq<char>, Seq<char>) {
    (lower(p.0), Seq::empty())
}

/// The agent names of all folders, listed ignoring ASCII case.
pub open spec fn discovered_agent_names(roots: Seq<AgentRoot>) -> Outcome<Seq<Seq<char>>> {
    match names_in_roots(roots) {
        Ok(found) => Ok(
            sort_by_key(found, |p: (Seq<char>, Seq<char>)| agent_name_key(p)).map_values(
                |p: (Seq<char>, Seq<char>)| p.0,
            ),
        ),
        Err(e) => Err(e),
    }
}

impl View for AgentOption {
    type V = Seq<char>;

    open spec fn view(&self) -> Seq<char> {
        self.name@
    }
}

proof fn lemma_walk_error_sticks(
    prev: Seq<(Seq<char>, Seq<char>)>,
    mid: Seq<char>,
    items: Seq<ScanItem<AgentFileEntry>>,
    n: int,
)
    requires
        0 <= n <= items.len(),
        names_in_walk(prev, mid, items.take(n)) is Err,
    ensures
        names_in_walk(prev, mid, items) == names_in_walk(prev, mid, items.take(n)),
    decreases items.len() - n,
{
    if n < items.len() {
        let t = items.take(n + 1);
        assert(t.drop_last() =~= items.take(n));
        lemma_walk_error_sticks(prev, mid, items, n + 1);
    } else {
        assert(items.take(n) =~= items);
    }
}

proof fn lemma_roots_error_sticks(roots: Seq<AgentRoot>, n: int)
    requires
        0 <= n <= roots.len(),
        names_in_roots(roots.take(n)) is Err,
    ensures
        names_in_roots(roots) == names_in_roots(roots.take(n)),
    decreases roots.len() - n,
{
    if n < roots.len() {
        let t = roots.take(n + 1);
        assert(t.drop_last() =~= roots.take(n));
        lemma_roots_error_sticks(roots, n + 1);
    } else {
        assert(roots.take(n) =~= roots);
    }
}

/// The index of the last `.` in a text.
fn last_dot_exec(v: &Vec<char>) -> (r: Option<usize>)
    ensures
        match r {
            Some(k) => last_dot(v@) == Some(k as int) && k < v@.len(),
            None => last_dot(v@) is None,
        },
{
    let mut j: usize = v.len();
    assert(v@.take(j as int) =~= v@);
    while j > 0
        invariant
            j <= v.len(),
            last_dot(v@) == last_dot(v@.take(j as int)),
        decreases j,
    {
        let t = Ghost(v@.take(j as int));
        assert(t@.last() == v@[j - 1]);
        assert(t@.drop_last() =~= v@.take(j - 1));
        if v[j - 1] == '.' {
            return Some(j - 1);
        }
        j = j - 1;
    }
    None
}

/// The stem and the extension of a file name, as `file_stem_of` and
/// `extension_of` say.
fn split_file_name(name: &str) -> (r: (String, Option<String>))
    ensures
        r.0@ == file_stem_of(name@),
        opt_view(r.1) == extension_of(name@),
{
    let chars = chars_of(name);
    let dots = chars_of("..");
    proof {
        reveal_strlit("..");
    }
    if chars_equal(&chars, &dots) {
        return (owned(name), None);
    }
    match last_dot_exec(&chars) {
        None => (owned(name), None),
        Some(k) => if k == 0 {
            (owned(name), None)
        } else {
            let stem = string_of_range(&chars, 0, k);
            let ext = string_of_range(&chars, k + 1, chars.len());
            (stem, Some(ext))
        },
    }
}

/// The marketplace in which a lowered name was found; the keys are the
/// lowered names found.
fn owner_index(found: &Vec<(String, String)>, keys: &Vec<Vec<char>>, key: &Vec<char>) -> (r: Option<
    usize,
>)
    requires
        keys@.map_values(|x: Vec<char>| x@) == found@.map_values(
            |p: (String, String)| lower(p.0@),
        ),
    ensures
        match r {
            Some(k) => k < found@.len() && owner_of(
                found@.map_values(|p: (String, String)| (p.0@, p.1@)),
                key@,
            ) == Some(found@[k as int].1@),
            None => owner_of(found@.map_values(|p: (String, String)| (p.0@, p.1@)), key@) is None,
        },
{
    let ghost fv = found@.map_values(|p: (String, String)| (p.0@, p.1@));
    let mut j: usize = found.len();
    assert(keys@.len() == found@.len()) by {
        assert(keys@.map_values(|x: Vec<char>| x@).len() == found@.map_values(
            |p: (String, String)| lower(p.0@),
        ).len());
    }
    assert(fv.take(j as int) =~= fv);
    while j > 0
        invariant
            j <= found.len() == keys.len(),
            fv == found@.map_values(|p: (String, String)| (p.0@, p.1@)),
            keys@.map_values(|x: Vec<char>| x@) == found@.map_values(
                |p: (String, String)| lower(p.0@),
            ),
            owner_of(fv, key@) == owner_of(fv.take(j as int), key@),
        decreases j,
    {
        let t = Ghost(fv.take(j as int));
        assert(t@.last() == fv[j - 1]);
        assert(t@.drop_last() =~= fv.take(j - 1));
        assert(keys@.map_values(|x: Vec<char>| x@)[j - 1] == keys@[j - 1]@);
        if chars_equal(&keys[j - 1], key) {
            return Some(j - 1);
        }
        j = j - 1;
    }
    None
}

impl AppState {
    /// The agent name that a file gives; see `agent_file_name_of`.
    pub fn agent_file_name(entry: &AgentFileEntry) -> (r: Result<Option<String>, TupiError>)
        ensures
            match r {
                Ok(n) => agent_file_name_of(*entry) == Ok::<
                    Option<Seq<char>>,
                    (ErrorKind, Seq<char>),
                >(opt_view(n)),
                Err(e) => agent_file_name_of(*entry) == Err::<
                    Option<Seq<char>>,
                    (ErrorKind, Seq<char>),
                >(e@),
            },
    {
        let (stem, ext) = split_file_name(entry.name.as_str());
        let ext = match ext {
            None => {
                return Ok(None);
            },
            Some(x) => x,
        };
        let lowered = lower_chars(ext.as_str());
        let md = chars_of("md");
        proof {
            reveal_strlit("md");
        }
        if !chars_equal(&lowered, &md) {
            return Ok(None);
        }
        let name = trimmed(stem.as_str());
        if !entry.name_is_text || name.as_str().is_empty() {
            return Err(
                TupiError::CatalogValidation(
                    joined3("agent file ", entry.path.as_str(), " must have a valid name"),
                ),
            );
        }
        Ok(Some(name))
    }

    /// The agent names found in the walks of the `agents` folders of the
    /// trusted marketplaces, in catalog order; the first failure, unnamed
    /// Markdown file or name found twice, ignoring ASCII case, is the error.
    /// The names are listed ignoring ASCII case.
    pub fn discover_agents_from_roots(roots: &Vec<AgentRoot>) -> (r: Result<
        Vec<AgentOption>,
        TupiError,
    >)
        ensures
            match discovered_agent_names(roots@) {
                Ok(ns) => r matches Ok(out) && out@.map_values(|a: AgentOption| a@) == ns,
                Err(e) => r matches Err(x) && x@ == e,
            },
    {
        let mut found: Vec<(String, String)> = Vec::new();
        let mut keys: Vec<Vec<char>> = Vec::new();
        let mut i: usize = 0;
        assert(roots@.take(0) =~= Seq::<AgentRoot>::empty());
        assert(found@.map_values(|p: (String, String)| (p.0@, p.1@)) =~= Seq::<
            (Seq<char>, Seq<char>),
        >::empty());
        assert(keys@.map_values(|x: Vec<char>| x@) =~= found@.map_values(
            |p: (String, String)| lower(p.0@),
        ));
        while i < roots.len()
            invariant
                i <= roots.len(),
                names_in_roots(roots@.take(i as int)) == Ok::<
                    Seq<(Seq<char>, Seq<char>)>,
                    (ErrorKind, Seq<char>),
                >(found@.map_values(|p: (String, String)| (p.0@, p.1@))),
                keys@.map_values(|x: Vec<char>| x@) == found@.map_values(
                    |p: (String, String)| lower(p.0@),
                ),
            decreases roots.len() - i,
        {
            let root = &roots[i];
            let ghost prev = found@.map_values(|p: (String, String)| (p.0@, p.1@));
            proof {
                let t = roots@.take(i + 1);
                assert(t.drop_last() =~= roots@.take(i as int));
                assert(t.last() == roots@[i as int]);
            }
            let mut j: usize = 0;
            assert(root.items@.take(0) =~= Seq::<ScanItem<AgentFileEntry>>::empty());
            while j < root.items.len()
                invariant
                    j <= root.items.len(),
                    i < roots.len(),
                    *root == roots@[i as int],
                    names_in_roots(roots@.take(i + 1)) == names_in_walk(
                        prev,
                        root.marketplace_id@,
                        root.items@,
                    ),
                    names_in_walk(prev, root.marketplace_id@, root.items@.take(j as int)) == Ok::<
                        Seq<(Seq<char>, Seq<char>)>,
                        (ErrorKind, Seq<char>),
                    >(found@.map_values(|p: (String, String)| (p.0@, p.1@))),
                    keys@.map_values(|x: Vec<char>| x@) == found@.map_values(
                        |p: (String, String)| lower(p.0@),
                    ),
                decreases root.items.len() - j,
            {
                let ghost fv = found@.map_values(|p: (String, String)| (p.0@, p.1@));
                proof {
                    let t = root.items@.take(j + 1);
                    assert(t.drop_last() =~= root.items@.take(j as int));
                    assert(t.last() == root.items@[j as int]);
                }
                let step: Result<(), TupiError> = match &root.items[j] {
                    ScanItem::Failed(e) => Err(copy_error(e)),
                    ScanItem::Found(f) => match Self::agent_file_name(f) {
                        Err(e) => Err(e),
                        Ok(None) => Ok(()),
                        Ok(Some(stem)) => {
                            let key = lower_chars(stem.as_str());
                            match owner_index(&found, &keys, &key) {
                                Some(k) => {
                                    let msg = joined3(
                                        "duplicate agent name ",
                                        stem.as_str(),
                                        joined3(
                                            " found in trusted marketplace ",
                                            found[k].1.as_str(),
                                            joined(" and ", root.marketplace_id.as_str()).as_str(),
                                        ).as_str(),
                                    );
                                    proof {
                                        assert(msg@ =~= "duplicate agent name "@ + stem@
                                            + " found in trusted marketplace "@ + found@[k as int].1@
                                            + " and "@ + root.marketplace_id@);
                                    }
                                    Err(TupiError::CatalogValidation(msg))
                                },
                                None => {
                                    let ghost before = found@;
                                    let ghost kbefore = keys@;
                                    found.push((stem, owned(root.marketplace_id.as_str())));
                                    keys.push(key);
                                    proof {
                                        assert(found@.map_values(
                                            |p: (String, String)| (p.0@, p.1@),
                                        ) =~= fv.push((stem@, root.marketplace_id@)));
                                        assert(keys@.map_values(|x: Vec<char>| x@)
                                            =~= kbefore.map_values(|x: Vec<char>| x@).push(key@));
                                        assert(found@.map_values(|p: (String, String)| lower(p.0@))
                                            =~= before.map_values(
                                            |p: (String, String)| lower(p.0@),
                                        ).push(lower(stem@)));
                                    }
                                    Ok(())
                                },
                            }
                        },
                    },
                };
                if let Err(e) = step {
                    proof {
                        lemma_walk_error_sticks(prev, root.marketplace_id@, root.items@, j + 1);
                        lemma_roots_error_sticks(roots@, i + 1);
                    }
                    return Err(e);
                }
                j = j + 1;
            }
            assert(root.items@.take(root.items.len() as int) =~= root.items@);
            i = i + 1;
        }
        assert(roots@.take(roots.len() as int) =~= roots@);
        let ghost unsorted = found@;
        let mut sort_keys: Vec<SortKey> = Vec::new();
        let mut k: usize = 0;
        while k < found.len()
            invariant
                k <= found.len(),
                sort_keys.len() == k,
                forall|q: int|
                    0 <= q < k ==> #[trigger] sort_keys@[q]@ == agent_name_key(
                        (found@[q].0@, found@[q].1@),
                    ),
            decreases found.len() - k,
        {
            let key = SortKey { primary: lower_chars(found[k].0.as_str()), secondary: Vec::new() };
            assert(key.secondary@ =~= Seq::<char>::empty());
            sort_keys.push(key);
            k = k + 1;
        }
        let ghost rkey = |p: (String, String)| agent_name_key((p.0@, p.1@));
        let ghost fview = |p: (String, String)| (p.0@, p.1@);
        let sorted = sort_with_keys(found, sort_keys, Ghost(rkey));
        proof {
            lemma_sort_by_key_map(
                unsorted,
                fview,
                |p: (Seq<char>, Seq<char>)| agent_name_key(p),
                rkey,
            );
            assert(unsorted.map_values(fview) =~= unsorted.map_values(
                |p: (String, String)| (p.0@, p.1@),
            ));
        }
        let mut out: Vec<AgentOption> = Vec::new();
        let mut q: usize = 0;
        while q < sorted.len()
            invariant
                q <= sorted.len(),
                out@.len() == q,
                forall|z: int| 0 <= z < q ==> #[trigger] out@[z]@ == sorted@[z].0@,
            decreases sorted.len() - q,
        {
            out.push(AgentOption { name: sorted[q].0.clone() });
            q = q + 1;
        }
        proof {
            let sv = sorted@.map_values(fview);
            assert(out@.map_values(|a: AgentOption| a@) =~= sv.map_values(
                |p: (Seq<char>, Seq<char>)| p.0,
            ));
        }
        Ok(out)
    }
}


impl AppState {
    /// The agents that profiles may select: the agent names found in the
    /// `agents` folders of the trusted marketplaces; finding none is an
    /// error.
    pub fn list_available_agents(&self, roots: &Vec<AgentRoot>) -> (r: Result<
        Vec<AgentOption>,
        TupiError,
    >)
        ensures
            match discovered_agent_names(roots@) {
                Ok(ns) => if ns.len() == 0 {
                    r matches Err(x) && x@ == (
                        ErrorKind::CatalogRead,
                        "no Markdown agents were found in trusted marketplace workspaces"@,
                    )
                } else {
                    r matches Ok(out) && out@.map_values(|a: AgentOption| a@) == ns
                },
                Err(e) => r matches Err(x) && x@ == e,
            },
    {
        let agents = Self::discover_agents_from_roots(roots)?;
        if agents.len() == 0 {
            assert(agents@.map_values(|a: AgentOption| a@).len() == 0);
            return Err(
                TupiError::CatalogRead(
                    owned("no Markdown agents were found in trusted marketplace workspaces"),
                ),
            );
        }
        Ok(agents)
    }
}

// ---------------------------------------------------------------------------
// Stored marketplace agents
// ---------------------------------------------------------------------------

/// What the refresh of one catalog marketplace met: the error met bringing
/// its workspace up to date, or the walk of its `agents` folder, or `None`
/// where the workspace has no such folder.
#[derive(Debug)]
pub struct MarketplaceScan {
    pub marketplace_id: String,
    pub agents: Result<Option<Vec<ScanItem<MarketplaceAgentFile>>>, TupiError>,
}

/// A stored marketplace agent: the columns of its row.
#[derive(Debug)]
pub struct MarketplaceAgentRow {
    pub marketplace_id: String,
    pub agent_name: String,
    pub description: Option<String>,
    pub trust_status: String,
}

/// The agents that the scan of one marketplace found.
pub open spec fn scan_agents(s: MarketplaceScan) -> Outcome<Seq<MarketplaceAgentView>> {
    match s.agents {
        Err(e) => Err(e@),
        Ok(None) => Ok(Seq::empty()),
        Ok(Some(items)) => discovered_marketplace_agents(items@),
    }
}

/// The index of the entry for `id`.
pub open spec fn entry_index<V>(m: Seq<(Seq<char>, V)>, id: Seq<char>) -> Option<int>
    decreases m.len(),
{
    if m.len() == 0 {
        None
    } else if m.last().0 == id {
        Some(m.len() - 1)
    } else {
        entry_index(m.drop_last(), id)
    }
}

/// The agents of `id` put in place of those it had, or added after all
/// others where it had none.
pub open spec fn put_agents(
    m: Seq<(Seq<char>, Seq<MarketplaceAgentView>)>,
    id: Seq<char>,
    agents: Seq<MarketplaceAgentView>,
) -> Seq<(Seq<char>, Seq<MarketplaceAgentView>)> {
    match entry_index(m, id) {
        Some(j) => m.update(j, (id, agents)),
        None => m.push((id, agents)),
    }
}

/// The agents of each marketplace after the scans, in order; the first
/// error met ends them.
pub open spec fn refreshed_agents(scans: Seq<MarketplaceScan>) -> Outcome<
    Seq<(Seq<char>, Seq<MarketplaceAgentView>)>,
>
    decreases scans.len(),
{
    if scans.len() == 0 {
        Ok(Seq::empty())
    } else {
        match refreshed_agents(scans.drop_last()) {
            Err(e) => Err(e),
            Ok(m) => match scan_agents(scans.last()) {
                Err(e) => Err(e),
                Ok(a) => Ok(put_agents(m, scans.last().marketplace_id@, a)),
            },
        }
    }
}

/// Marketplaces are stored in the order of their ids.
pub open spec fn entry_key<V>(e: (Seq<char>, V)) -> (Seq<char>, Seq<char>) {
    (e.0, Seq::empty())
}

/// The key of the agent list of a marketplace.
pub open spec fn by_id() -> spec_fn((Seq<char>, Seq<MarketplaceAgentView>)) -> (Seq<char>, Seq<char>) {
    |e: (Seq<char>, Seq<MarketplaceAgentView>)| entry_key(e)
}

/// The stored form of an agent of a marketplace.
pub open spec fn stored_agent(id: Seq<char>, a: MarketplaceAgentView) -> (Seq<char>, Seq<char>, Option<
    Seq<char>,
>, Seq<char>) {
    (id, a.name, a.description, status_label(a.trust_status))
}

/// The rows that store the agents of marketplaces, marketplace by
/// marketplace.
pub open spec fn agent_rows_of(m: Seq<(Seq<char>, Seq<MarketplaceAgentView>)>) -> Seq<
    (Seq<char>, Seq<char>, Option<Seq<char>>, Seq<char>),
>
    decreases m.len(),
{
    if m.len() == 0 {
        Seq::empty()
    } else {
        agent_rows_of(m.drop_last()) + m.last().1.map_values(
            |a: MarketplaceAgentView| stored_agent(m.last().0, a),
        )
    }
}

/// The rows that a refresh stores: the agents of each marketplace, the
/// marketplaces in the order of their ids.
pub open spec fn stored_agent_rows(scans: Seq<MarketplaceScan>) -> Outcome<
    Seq<(Seq<char>, Seq<char>, Option<Seq<char>>, Seq<char>)>,
> {
    match refreshed_agents(scans) {
        Ok(m) => Ok(
            agent_rows_of(
                sort_by_key(m, by_id()),
            ),
        ),
        Err(e) => Err(e),
    }
}

/// The columns of a stored row.
pub open spec fn row_columns(r: MarketplaceAgentRow) -> (Seq<char>, Seq<char>, Option<Seq<char>>, Seq<
    char,
>) {
    (r.marketplace_id@, r.agent_name@, opt_view(r.description), r.trust_status@)
}

/// The views of marketplace agent lists.
pub open spec fn agent_lists(m: Seq<(String, Vec<MarketplaceAgentRecord>)>) -> Seq<
    (Seq<char>, Seq<MarketplaceAgentView>),
> {
    m.map_values(
        |e: (String, Vec<MarketplaceAgentRecord>)|
            (e.0@, e.1@.map_values(|a: MarketplaceAgentRecord| a@)),
    )
}

proof fn lemma_refresh_error_sticks(scans: Seq<MarketplaceScan>, n: int)
    requires
        0 <= n <= scans.len(),
        refreshed_agents(scans.take(n)) is Err,
    ensures
        refreshed_agents(scans) == refreshed_agents(scans.take(n)),
    decreases scans.len() - n,
{
    if n < scans.len() {
        let t = scans.take(n + 1);
        assert(t.drop_last() =~= scans.take(n));
        lemma_refresh_error_sticks(scans, n + 1);
    } else {
        assert(scans.take(n) =~= scans);
    }
}

/// The index of the list of `id`.
fn entry_position(m: &Vec<(String, Vec<MarketplaceAgentRecord>)>, id: &String) -> (r: Option<usize>)
    ensures
        match r {
            Some(j) => j < m@.len() && entry_index(agent_lists(m@), id@) == Some(j as int),
            None => entry_index(agent_lists(m@), id@) is None,
        },
{
    let ghost mv = agent_lists(m@);
    let mut j: usize = m.len();
    assert(mv.take(j as int) =~= mv);
    while j > 0
        invariant
            j <= m.len(),
            mv == agent_lists(m@),
            entry_index(mv, id@) == entry_index(mv.take(j as int), id@),
        decreases j,
    {
        let t = Ghost(mv.take(j as int));
        assert(t@.last() == mv[j - 1]);
        assert(t@.drop_last() =~= mv.take(j - 1));
        if m[j - 1].0 == *id {
            return Some(j - 1);
        }
        j = j - 1;
    }
    None
}

impl AppState {
    /// The rows to store after a refresh of the marketplace agents, given
    /// what the refresh met for each catalog marketplace in catalog order:
    /// the first error met is the error; a marketplace met again replaces
    /// what was found for it; the rows hold the agents of each marketplace,
    /// the marketplaces in the order of their ids.
    pub fn refresh_marketplace_agents(&self, scans: &Vec<MarketplaceScan>) -> (r: Result<
        Vec<MarketplaceAgentRow>,
        TupiError,
    >)
        ensures
            match stored_agent_rows(scans@) {
                Ok(rows) => r matches Ok(out) && out@.map_values(
                    |x: MarketplaceAgentRow| row_columns(x),
                ) == rows,
                Err(e) => r matches Err(x) && x@ == e,
            },
    {
        let mut m: Vec<(String, Vec<MarketplaceAgentRecord>)> = Vec::new();
        let mut i: usize = 0;
        assert(scans@.take(0) =~= Seq::<MarketplaceScan>::empty());
        assert(agent_lists(m@) =~= Seq::<(Seq<char>, Seq<MarketplaceAgentView>)>::empty());
        while i < scans.len()
            invariant
                i <= scans.len(),
                refreshed_agents(scans@.take(i as int)) == Ok::<
                    Seq<(Seq<char>, Seq<MarketplaceAgentView>)>,
                    (ErrorKind, Seq<char>),
                >(agent_lists(m@)),
            decreases scans.len() - i,
        {
            let scan = &scans[i];
            proof {
                let t = scans@.take(i + 1);
                assert(t.drop_last() =~= scans@.take(i as int));
                assert(t.last() == scans@[i as int]);
            }
            let agents: Vec<MarketplaceAgentRecord> = match &scan.agents {
                Err(e) => {
                    proof {
                        lemma_refresh_error_sticks(scans@, i + 1);
                    }
                    return Err(copy_error(e));
                },
                Ok(None) => {
                    let e: Vec<MarketplaceAgentRecord> = Vec::new();
                    assert(e@.map_values(|a: MarketplaceAgentRecord| a@) =~= Seq::<
                        MarketplaceAgentView,
                    >::empty());
                    e
                },
                Ok(Some(items)) => match Self::discover_marketplace_agents(items) {
                    Err(e) => {
                        proof {
                            lemma_refresh_error_sticks(scans@, i + 1);
                        }
                        return Err(e);
                    },
                    Ok(a) => a,
                },
            };
            let ghost before = m@;
            let ghost av = agents@.map_values(|a: MarketplaceAgentRecord| a@);
            let id = scan.marketplace_id.clone();
            match entry_position(&m, &id) {
                Some(j) => {
                    m.set(j, (id, agents));
                    proof {
                        assert(agent_lists(m@) =~= agent_lists(before).update(
                            j as int,
                            (scan.marketplace_id@, av),
                        ));
                    }
                },
                None => {
                    m.push((id, agents));
                    proof {
                        assert(agent_lists(m@) =~= agent_lists(before).push(
                            (scan.marketplace_id@, av),
                        ));
                    }
                },
            }
            i = i + 1;
        }
        assert(scans@.take(scans.len() as int) =~= scans@);
        let mut sort_keys: Vec<SortKey> = Vec::new();
        let mut k: usize = 0;
        while k < m.len()
            invariant
                k <= m.len(),
                sort_keys.len() == k,
                forall|q: int|
                    0 <= q < k ==> #[trigger] sort_keys@[q]@ == entry_key(agent_lists(m@)[q]),
            decreases m.len() - k,
        {
            let key = SortKey { primary: chars_of(m[k].0.as_str()), secondary: Vec::new() };
            assert(key.secondary@ =~= Seq::<char>::empty());
            sort_keys.push(key);
            k = k + 1;
        }
        let ghost fview = |e: (String, Vec<MarketplaceAgentRecord>)|
            (e.0@, e.1@.map_values(|a: MarketplaceAgentRecord| a@));
        let ghost rkey = |e: (String, Vec<MarketplaceAgentRecord>)| entry_key(fview(e));
        let ghost unsorted = m@;
        assert forall|q: int| 0 <= q < m.len() implies #[trigger] sort_keys@[q]@ == rkey(m@[q]) by {
            assert(agent_lists(m@)[q] == fview(m@[q]));
        }
        let sorted = sort_with_keys(m, sort_keys, Ghost(rkey));
        proof {
            lemma_sort_by_key_map(
                unsorted,
                fview,
                by_id(),
                rkey,
            );
            assert(unsorted.map_values(fview) =~= agent_lists(unsorted));
            assert(sorted@.map_values(fview) =~= agent_lists(sorted@));
        }
        let ghost sv = agent_lists(sorted@);
        let mut out: Vec<MarketplaceAgentRow> = Vec::new();
        let mut q: usize = 0;
        assert(sv.take(0) =~= Seq::<(Seq<char>, Seq<MarketplaceAgentView>)>::empty());
        assert(out@.map_values(|x: MarketplaceAgentRow| row_columns(x)) =~= Seq::<
            (Seq<char>, Seq<char>, Option<Seq<char>>, Seq<char>),
        >::empty());
        while q < sorted.len()
            invariant
                q <= sorted.len(),
                sv == agent_lists(sorted@),
                out@.map_values(|x: MarketplaceAgentRow| row_columns(x)) == agent_rows_of(
                    sv.take(q as int),
                ),
            decreases sorted.len() - q,
        {
            let id = &sorted[q].0;
            let list = &sorted[q].1;
            let ghost o0 = out@.map_values(|x: MarketplaceAgentRow| row_columns(x));
            let ghost lv = list@.map_values(|a: MarketplaceAgentRecord| a@);
            let mut z: usize = 0;
            assert(lv.take(0) =~= Seq::<MarketplaceAgentView>::empty());
            assert(o0 + lv.take(0).map_values(|a: MarketplaceAgentView| stored_agent(id@, a)) =~= o0);
            while z < list.len()
                invariant
                    z <= list.len(),
                    lv == list@.map_values(|a: MarketplaceAgentRecord| a@),
                    out@.map_values(|x: MarketplaceAgentRow| row_columns(x)) == o0 + lv.take(
                        z as int,
                    ).map_values(|a: MarketplaceAgentView| stored_agent(id@, a)),
                decreases list.len() - z,
            {
                let a = &list[z];
                let ghost ob = out@;
                out.push(
                    MarketplaceAgentRow {
                        marketplace_id: id.clone(),
                        agent_name: a.name.clone(),
                        description: copy_opt(&a.description),
                        trust_status: owned(Self::trust_status_label(&a.trust_status)),
                    },
                );
                proof {
                    assert(lv.take(z + 1) =~= lv.take(z as int).push(a@));
                    assert(lv.take(z + 1).map_values(|a: MarketplaceAgentView| stored_agent(id@, a))
                        =~= lv.take(z as int).map_values(
                        |a: MarketplaceAgentView| stored_agent(id@, a),
                    ).push(stored_agent(id@, a@)));
                    assert(out@.map_values(|x: MarketplaceAgentRow| row_columns(x))
                        =~= ob.map_values(|x: MarketplaceAgentRow| row_columns(x)).push(
                        stored_agent(id@, a@),
                    ));
                }
                z = z + 1;
            }
            proof {
                assert(lv.take(list.len() as int) =~= lv);
                let t = sv.take(q + 1);
                assert(t.drop_last() =~= sv.take(q as int));
                assert(t.last() == (id@, lv));
            }
            q = q + 1;
        }
        assert(sv.take(sorted.len() as int) =~= sv);
        Ok(out)
    }
}


/// A catalog marketplace offered to profiles, as texts.
#[verifier::ext_equal]
pub struct MarketplaceOptionView {
    pub id: Seq<char>,
    pub name: Seq<char>,
    pub repository: Seq<char>,
    pub agents: Seq<MarketplaceAgentView>,
}

impl View for MarketplaceOption {
    type V = MarketplaceOptionView;

    open spec fn view(&self) -> MarketplaceOptionView {
        MarketplaceOptionView {
            id: self.id@,
            name: self.name@,
            repository: self.repository@,
            agents: self.agents@.map_values(|a: MarketplaceAgentRecord| a@),
        }
    }
}

/// The agent that a stored row stands for.
pub open spec fn marketplace_agent_of_row(r: MarketplaceAgentRow) -> MarketplaceAgentView {
    MarketplaceAgentView {
        name: r.agent_name@,
        description: opt_view(r.description),
        trust_status: status_of_label(r.trust_status@),
    }
}

/// Whether a row stores an agent of the marketplace `id`.
pub open spec fn row_of_marketplace(id: Seq<char>) -> spec_fn(MarketplaceAgentRow) -> bool {
    |r: MarketplaceAgentRow| r.marketplace_id@ == id
}

/// The agents stored for the marketplace `id`, in row order.
pub open spec fn rows_of_marketplace(rows: Seq<MarketplaceAgentRow>, id: Seq<char>) -> Seq<
    MarketplaceAgentView,
> {
    select(rows, row_of_marketplace(id)).map_values(
        |r: MarketplaceAgentRow| marketplace_agent_of_row(r),
    )
}

/// The agents stored for the marketplace `id`, listed by name ignoring
/// ASCII case; rows with equal names keep their order.
pub open spec fn agents_of_marketplace(rows: Seq<MarketplaceAgentRow>, id: Seq<char>) -> Seq<
    MarketplaceAgentView,
> {
    sort_by_key(rows_of_marketplace(rows, id), |a: MarketplaceAgentView| marketplace_agent_key(a))
}

/// A catalog marketplace with its stored agents.
pub open spec fn option_of(m: Marketplace, rows: Seq<MarketplaceAgentRow>) -> MarketplaceOptionView {
    MarketplaceOptionView {
        id: m.id@,
        name: m.name@,
        repository: m.repository@,
        agents: agents_of_marketplace(rows, m.id@),
    }
}

/// Marketplaces are offered by name, then by id.
pub open spec fn option_key(o: MarketplaceOptionView) -> (Seq<char>, Seq<char>) {
    (o.name, o.id)
}

/// The marketplaces of a catalog with their stored agents, by name and id.
pub open spec fn marketplace_options(catalog: TrustedCatalog, rows: Seq<MarketplaceAgentRow>) -> Seq<
    MarketplaceOptionView,
> {
    sort_by_key(
        catalog.marketplaces@.map_values(|m: Marketplace| option_of(m, rows)),
        |o: MarketplaceOptionView| option_key(o),
    )
}

proof fn lemma_select_step_rows(s: Seq<MarketplaceAgentRow>, keep: spec_fn(MarketplaceAgentRow) -> bool, i: int)
    requires
        0 <= i < s.len(),
    ensures
        select(s.take(i + 1), keep) == if keep(s[i]) {
            select(s.take(i), keep).push(s[i])
        } else {
            select(s.take(i), keep)
        },
{
    let t = s.take(i + 1);
    assert(t.drop_last() =~= s.take(i));
    assert(t.last() == s[i]);
}

/// The agents stored for a marketplace, in row order.
fn rows_of_marketplace_exec(rows: &Vec<MarketplaceAgentRow>, id: &String) -> (out: Vec<
    MarketplaceAgentRecord,
>)
    ensures
        out@.map_values(|a: MarketplaceAgentRecord| a@) == rows_of_marketplace(rows@, id@),
{
    let ghost keep = row_of_marketplace(id@);
    let mut out: Vec<MarketplaceAgentRecord> = Vec::new();
    let mut i: usize = 0;
    assert(rows@.take(0) =~= Seq::<MarketplaceAgentRow>::empty());
    assert(out@.map_values(|a: MarketplaceAgentRecord| a@) =~= Seq::<MarketplaceAgentView>::empty());
    while i < rows.len()
        invariant
            i <= rows.len(),
            keep == row_of_marketplace(id@),
            out@.map_values(|a: MarketplaceAgentRecord| a@) == select(
                rows@.take(i as int),
                keep,
            ).map_values(|r: MarketplaceAgentRow| marketplace_agent_of_row(r)),
        decreases rows.len() - i,
    {
        proof {
            lemma_select_step_rows(rows@, keep, i as int);
        }
        if rows[i].marketplace_id == *id {
            let ghost before = out@;
            let r = &rows[i];
            out.push(
                MarketplaceAgentRecord {
                    name: r.agent_name.clone(),
                    description: copy_opt(&r.description),
                    trust_status: AppState::trust_status_from_str(r.trust_status.as_str()),
                },
            );
            assert(out@.map_values(|a: MarketplaceAgentRecord| a@) =~= before.map_values(
                |a: MarketplaceAgentRecord| a@,
            ).push(marketplace_agent_of_row(rows@[i as int])));
            assert(select(rows@.take(i + 1), keep).map_values(
                |r: MarketplaceAgentRow| marketplace_agent_of_row(r),
            ) =~= select(rows@.take(i as int), keep).map_values(
                |r: MarketplaceAgentRow| marketplace_agent_of_row(r),
            ).push(marketplace_agent_of_row(rows@[i as int])));
        }
        i = i + 1;
    }
    assert(rows@.take(rows.len() as int) =~= rows@);
    out
}

impl AppState {
    /// The catalog's marketplaces, each with the agents stored for its id
    /// listed by name ignoring ASCII case, the marketplaces listed by name,
    /// then by id.
    pub fn list_marketplaces(&self, catalog: &TrustedCatalog, rows: &Vec<MarketplaceAgentRow>) -> (out:
        Vec<MarketplaceOption>)
        ensures
            out@.map_values(|o: MarketplaceOption| o@) == marketplace_options(*catalog, rows@),
    {
        let ms = &catalog.marketplaces;
        let ghost mv = ms@.map_values(|m: Marketplace| option_of(m, rows@));
        let mut options: Vec<MarketplaceOption> = Vec::new();
        let mut keys: Vec<SortKey> = Vec::new();
        let mut i: usize = 0;
        while i < ms.len()
            invariant
                i <= ms.len(),
                mv == ms@.map_values(|m: Marketplace| option_of(m, rows@)),
                options.len() == i,
                keys.len() == i,
                forall|k: int| 0 <= k < i ==> #[trigger] options@[k]@ == mv[k],
                forall|k: int| 0 <= k < i ==> #[trigger] keys@[k]@ == option_key(options@[k]@),
            decreases ms.len() - i,
        {
            let m = &ms[i];
            let agents = AppState::sort_marketplace_agents(rows_of_marketplace_exec(rows, &m.id));
            let o = MarketplaceOption {
                id: m.id.clone(),
                name: m.name.clone(),
                repository: m.repository.clone(),
                agents,
            };
            assert(o@ =~= option_of(*m, rows@));
            keys.push(SortKey { primary: chars_of(m.name.as_str()), secondary: chars_of(m.id.as_str()) });
            options.push(o);
            i = i + 1;
        }
        let ghost fview = |o: MarketplaceOption| o@;
        let ghost rkey = |o: MarketplaceOption| option_key(o@);
        let ghost unsorted = options@;
        let sorted = sort_with_keys(options, keys, Ghost(rkey));
        proof {
            lemma_sort_by_key_map(unsorted, fview, |o: MarketplaceOptionView| option_key(o), rkey);
            assert(unsorted.map_values(fview) =~= mv);
            assert(sorted@.map_values(fview) =~= sorted@.map_values(|o: MarketplaceOption| o@));
        }
        sorted
    }
}


// ---------------------------------------------------------------------------
// Laws
// ---------------------------------------------------------------------------

/// No two entries share an id.
pub open spec fn ids_unique<V>(m: Seq<(Seq<char>, V)>) -> bool {
    forall|a: int, b: int| 0 <= a < m.len() && 0 <= b < m.len() && a != b ==> (#[trigger] m[a]).0 != (#[trigger] m[b]).0
}

/// The agents found for the marketplace `id`, or none.
pub open spec fn found_for(m: Seq<(Seq<char>, Seq<MarketplaceAgentView>)>, id: Seq<char>) -> Seq<
    MarketplaceAgentView,
> {
    match entry_index(m, id) {
        Some(j) => m[j].1,
        None => Seq::empty(),
    }
}

proof fn lemma_entry_index<V>(m: Seq<(Seq<char>, V)>, id: Seq<char>)
    ensures
        match entry_index(m, id) {
            Some(j) => 0 <= j < m.len() && m[j].0 == id,
            None => forall|i: int| 0 <= i < m.len() ==> (#[trigger] m[i]).0 != id,
        },
    decreases m.len(),
{
    if m.len() > 0 {
        lemma_entry_index(m.drop_last(), id);
        if m.last().0 != id {
            match entry_index(m.drop_last(), id) {
                Some(j) => {
                    assert(m.drop_last()[j] == m[j]);
                },
                None => {
                    assert forall|i: int| 0 <= i < m.len() implies (#[trigger] m[i]).0 != id by {
                        if i < m.len() - 1 {
                            assert(m.drop_last()[i] == m[i]);
                        }
                    }
                },
            }
        }
    }
}

proof fn lemma_refreshed_unique(scans: Seq<MarketplaceScan>)
    requires
        refreshed_agents(scans) is Ok,
    ensures
        ids_unique(refreshed_agents(scans)->Ok_0),
    decreases scans.len(),
{
    if scans.len() > 0 {
        lemma_refreshed_unique(scans.drop_last());
        let m = refreshed_agents(scans.drop_last())->Ok_0;
        let id = scans.last().marketplace_id@;
        let a = scan_agents(scans.last())->Ok_0;
        lemma_entry_index(m, id);
        let r = put_agents(m, id, a);
        assert forall|x: int, y: int| 0 <= x < r.len() && 0 <= y < r.len() && x != y implies (
        #[trigger] r[x]).0 != (#[trigger] r[y]).0 by {
            match entry_index(m, id) {
                Some(j) => {
                    if x != j && y != j {
                        assert(r[x] == m[x] && r[y] == m[y]);
                    } else if x == j {
                        assert(r[y] == m[y]);
                        assert(m[y].0 != m[j].0);
                    } else {
                        assert(r[x] == m[x]);
                        assert(m[x].0 != m[j].0);
                    }
                },
                None => {
                    if x < m.len() && y < m.len() {
                        assert(r[x] == m[x] && r[y] == m[y]);
                    } else if x < m.len() {
                        assert(r[x] == m[x]);
                    } else {
                        assert(r[y] == m[y]);
                    }
                },
            }
        }
    }
}

proof fn lemma_select_by_id(m: Seq<(Seq<char>, Seq<MarketplaceAgentView>)>, id: Seq<char>)
    requires
        ids_unique(m),
    ensures
        select(m, has_key(by_id(), (id, Seq::<char>::empty()))) == match entry_index(m, id) {
            Some(j) => seq![m[j]],
            None => Seq::<(Seq<char>, Seq<MarketplaceAgentView>)>::empty(),
        },
    decreases m.len(),
{
    let keep = has_key(by_id(), (id, Seq::<char>::empty()));
    if m.len() > 0 {
        let init = m.drop_last();
        assert(ids_unique(init)) by {
            assert forall|a: int, b: int|
                0 <= a < init.len() && 0 <= b < init.len() && a != b implies (
                #[trigger] init[a]).0 != (#[trigger] init[b]).0 by {
                assert(init[a] == m[a] && init[b] == m[b]);
            }
        }
        lemma_select_by_id(init, id);
        if m.last().0 == id {
            assert forall|i: int| 0 <= i < init.len() implies !#[trigger] keep(init[i]) by {
                assert(init[i] == m[i]);
                assert(m[i].0 != m[m.len() - 1].0);
            }
            lemma_select_none(init, keep);
            lemma_entry_index(init, id);
            if let Some(j) = entry_index(init, id) {
                assert(init[j] == m[j]);
                assert(m[j].0 != m[m.len() - 1].0);
            }
            assert(Seq::<(Seq<char>, Seq<MarketplaceAgentView>)>::empty().push(m.last()) =~= seq![
                m[m.len() - 1],
            ]);
        } else {
            if let Some(j) = entry_index(init, id) {
                lemma_entry_index(init, id);
                assert(init[j] == m[j]);
            }
        }
    }
}

/// Whether a stored row belongs to the marketplace `id`.
pub open spec fn columns_of_marketplace(id: Seq<char>) -> spec_fn(
    (Seq<char>, Seq<char>, Option<Seq<char>>, Seq<char>),
) -> bool {
    |r: (Seq<char>, Seq<char>, Option<Seq<char>>, Seq<char>)| r.0 == id
}

proof fn lemma_agent_rows_select(s: Seq<(Seq<char>, Seq<MarketplaceAgentView>)>, id: Seq<char>)
    ensures
        select(agent_rows_of(s), columns_of_marketplace(id)) == agent_rows_of(
            select(s, has_key(by_id(), (id, Seq::<char>::empty()))),
        ),
    decreases s.len(),
{
    let keep = has_key(by_id(), (id, Seq::<char>::empty()));
    if s.len() == 0 {
        lemma_select_none(agent_rows_of(s), columns_of_marketplace(id));
        lemma_select_none(s, keep);
    } else {
        let init = s.drop_last();
        let e = s.last();
        let block = e.1.map_values(|a: MarketplaceAgentView| stored_agent(e.0, a));
        lemma_agent_rows_select(init, id);
        lemma_select_concat(agent_rows_of(init), block, columns_of_marketplace(id));
        let sel = select(init, keep);
        if e.0 == id {
            assert forall|i: int| 0 <= i < block.len() implies #[trigger] columns_of_marketplace(id)(
                block[i],
            ) by {}
            lemma_select_all(block, columns_of_marketplace(id));
            assert(sel.push(e).drop_last() =~= sel);
        } else {
            assert forall|i: int| 0 <= i < block.len() implies !#[trigger] columns_of_marketplace(
                id,
            )(block[i]) by {}
            lemma_select_none(block, columns_of_marketplace(id));
            assert(agent_rows_of(sel) + Seq::<(Seq<char>, Seq<char>, Option<Seq<char>>, Seq<char>)>::empty()
                =~= agent_rows_of(sel));
        }
    }
}

/// What a refresh stores is what listing the marketplaces gives back: the
/// rows stored for a marketplace id are read back as the agents that the
/// refresh found for it, or none where it found nothing for it.
pub proof fn lemma_marketplace_agents_read_back(
    scans: Seq<MarketplaceScan>,
    rows: Seq<MarketplaceAgentRow>,
    id: Seq<char>,
)
    requires
        stored_agent_rows(scans) == Ok::<
            Seq<(Seq<char>, Seq<char>, Option<Seq<char>>, Seq<char>)>,
            (ErrorKind, Seq<char>),
        >(rows.map_values(|r: MarketplaceAgentRow| row_columns(r))),
    ensures
        refreshed_agents(scans) is Ok,
        agents_of_marketplace(rows, id) == found_for(refreshed_agents(scans)->Ok_0, id),
{
    let m = refreshed_agents(scans)->Ok_0;
    let sorted = sort_by_key(m, by_id());
    let k = (id, Seq::<char>::empty());
    lemma_refreshed_unique(scans);
    lemma_select_map(
        rows,
        row_of_marketplace(id),
        |r: MarketplaceAgentRow| row_columns(r),
        columns_of_marketplace(id),
    );
    lemma_agent_rows_select(sorted, id);
    lemma_sort_by_key_stable(m, by_id(), k);
    lemma_select_by_id(m, id);
    lemma_entry_index(m, id);
    let sel = select(rows, row_of_marketplace(id));
    let found = found_for(m, id);
    let expected = found.map_values(|a: MarketplaceAgentView| stored_agent(id, a));
    match entry_index(m, id) {
        Some(j) => {
            let one = seq![m[j]];
            assert(one.drop_last() =~= Seq::<(Seq<char>, Seq<MarketplaceAgentView>)>::empty());
            assert(one.last() == m[j]);
            assert(m[j].0 == id);
            let none = agent_rows_of(one.drop_last());
            assert(none =~= Seq::<(Seq<char>, Seq<char>, Option<Seq<char>>, Seq<char>)>::empty());
            assert(agent_rows_of(one) == none + m[j].1.map_values(
                |a: MarketplaceAgentView| stored_agent(m[j].0, a),
            ));
            assert(agent_rows_of(one) =~= expected);
        },
        None => {
            assert(agent_rows_of(Seq::<(Seq<char>, Seq<MarketplaceAgentView>)>::empty()) =~= expected);
        },
    }
    assert(sel.map_values(|r: MarketplaceAgentRow| row_columns(r)) == expected);
    assert(sel.len() == found.len()) by {
        assert(sel.map_values(|r: MarketplaceAgentRow| row_columns(r)).len() == expected.len());
    }
    assert forall|i: int| 0 <= i < sel.len() implies marketplace_agent_of_row(#[trigger] sel[i])
        == found[i] by {
        assert(sel.map_values(|r: MarketplaceAgentRow| row_columns(r))[i] == expected[i]);
        crate::trust::lemma_label_round_trip(found[i].trust_status);
    }
    assert(rows_of_marketplace(rows, id) =~= found);
    lemma_refreshed_sorted(scans);
    match entry_index(m, id) {
        Some(j) => {
            assert(sorted_by_key(m[j].1, |a: MarketplaceAgentView| marketplace_agent_key(a)));
        },
        None => {},
    }
    crate::order::lemma_sort_by_key_sorted_identity(found, |a: MarketplaceAgentView| marketplace_agent_key(a));
}

proof fn lemma_refreshed_sorted(scans: Seq<MarketplaceScan>)
    requires
        refreshed_agents(scans) is Ok,
    ensures
        forall|j: int|
            0 <= j < refreshed_agents(scans)->Ok_0.len() ==> sorted_by_key(
                (#[trigger] refreshed_agents(scans)->Ok_0[j]).1,
                |a: MarketplaceAgentView| marketplace_agent_key(a),
            ),
    decreases scans.len(),
{
    if scans.len() > 0 {
        lemma_refreshed_sorted(scans.drop_last());
        let m = refreshed_agents(scans.drop_last())->Ok_0;
        let id = scans.last().marketplace_id@;
        let a = scan_agents(scans.last())->Ok_0;
        match scans.last().agents {
            Ok(Some(items)) => {
                let found = scanned_marketplace_agents(items@)->Ok_0;
                crate::order::lemma_sort_by_key_sorted_permutation(
                    found,
                    |v: MarketplaceAgentView| marketplace_agent_key(v),
                );
            },
            _ => {},
        }
        assert(sorted_by_key(a, |v: MarketplaceAgentView| marketplace_agent_key(v)));
        let r = put_agents(m, id, a);
        assert forall|j: int| 0 <= j < r.len() implies sorted_by_key(
            (#[trigger] r[j]).1,
            |v: MarketplaceAgentView| marketplace_agent_key(v),
        ) by {
            lemma_entry_index(m, id);
            match entry_index(m, id) {
                Some(k) => {
                    if j != k {
                        assert(r[j] == m[j]);
                    } else {
                        assert(r[j].1 == a);
                    }
                },
                None => {
                    if j < m.len() {
                        assert(r[j] == m[j]);
                    } else {
                        assert(r[j].1 == a);
                    }
                },
            }
        }
    }
}

/// No two agents found in a marketplace workspace share a name, ignoring
/// ASCII case.
pub proof fn lemma_marketplace_agent_names_unique(items: Seq<ScanItem<MarketplaceAgentFile>>)
    requires
        scanned_marketplace_agents(items) is Ok,
    ensures
        ({
            let keys = agent_keys(scanned_marketplace_agents(items)->Ok_0);
            forall|a: int, b: int|
                0 <= a < keys.len() && 0 <= b < keys.len() && a != b ==> keys[a] != keys[b]
        }),
    decreases items.len(),
{
    if items.len() > 0 {
        lemma_marketplace_agent_names_unique(items.drop_last());
        let found = scanned_marketplace_agents(items.drop_last())->Ok_0;
        if let ScanItem::Found(f) = items.last() {
            if let Ok(Some(name)) = marketplace_agent_name_of(opt_view(f.file_name), f.path@) {
                let r = scanned_marketplace_agents(items)->Ok_0;
                if r.len() > found.len() {
                    let keys = agent_keys(r);
                    let old_keys = agent_keys(found);
                    assert(keys =~= old_keys.push(lower(name)));
                    assert(!old_keys.contains(lower(name)));
                    assert forall|a: int, b: int|
                        0 <= a < keys.len() && 0 <= b < keys.len() && a != b implies keys[a]
                        != keys[b] by {
                        if a == keys.len() - 1 {
                            assert(old_keys[b] == keys[b]);
                        } else if b == keys.len() - 1 {
                            assert(old_keys[a] == keys[a]);
                        } else {
                            assert(old_keys[a] == keys[a] && old_keys[b] == keys[b]);
                        }
                    }
                }
            }
        }
    }
}


proof fn lemma_scanned_agents_trusted(items: Seq<ScanItem<MarketplaceAgentFile>>)
    requires
        scanned_marketplace_agents(items) is Ok,
    ensures
        forall|i: int|
            0 <= i < scanned_marketplace_agents(items)->Ok_0.len() ==> (#[trigger] scanned_marketplace_agents(
                items,
            )->Ok_0[i]).trust_status == TrustStatus::Trusted,
    decreases items.len(),
{
    if items.len() > 0 {
        lemma_scanned_agents_trusted(items.drop_last());
        let found = scanned_marketplace_agents(items.drop_last())->Ok_0;
        let r = scanned_marketplace_agents(items)->Ok_0;
        assert forall|i: int| 0 <= i < r.len() implies (#[trigger] r[i]).trust_status
            == TrustStatus::Trusted by {
            if i < found.len() {
                assert(r[i] == found[i]);
            }
        }
    }
}

/// Every agent found in a trusted marketplace workspace is trusted.
pub proof fn lemma_marketplace_agents_trusted(items: Seq<ScanItem<MarketplaceAgentFile>>)
    requires
        discovered_marketplace_agents(items) is Ok,
    ensures
        forall|i: int|
            0 <= i < discovered_marketplace_agents(items)->Ok_0.len() ==> (
            #[trigger] discovered_marketplace_agents(items)->Ok_0[i]).trust_status
                == TrustStatus::Trusted,
{
    broadcast use vstd::seq_lib::group_to_multiset_ensures;

    lemma_scanned_agents_trusted(items);
    let found = scanned_marketplace_agents(items)->Ok_0;
    let sorted = discovered_marketplace_agents(items)->Ok_0;
    crate::order::lemma_sort_by_key_sorted_permutation(
        found,
        |a: MarketplaceAgentView| marketplace_agent_key(a),
    );
    assert forall|i: int| 0 <= i < sorted.len() implies (#[trigger] sorted[i]).trust_status
        == TrustStatus::Trusted by {
        assert(sorted.to_multiset().count(sorted[i]) > 0);
        assert(found.contains(sorted[i]));
        let j = choose|j: int| 0 <= j < found.len() && found[j] == sorted[i];
        assert(found[j].trust_status == TrustStatus::Trusted);
    }
}


/// No two found names are the same, ignoring ASCII case.
pub open spec fn names_distinct(found: Seq<(Seq<char>, Seq<char>)>) -> bool {
    forall|a: int, b: int|
        0 <= a < found.len() && 0 <= b < found.len() && a != b ==> lower((#[trigger] found[a]).0)
            != lower((#[trigger] found[b]).0)
}

proof fn lemma_owner_of_none(found: Seq<(Seq<char>, Seq<char>)>, key: Seq<char>)
    requires
        owner_of(found, key) is None,
    ensures
        forall|i: int| 0 <= i < found.len() ==> lower((#[trigger] found[i]).0) != key,
    decreases found.len(),
{
    if found.len() > 0 {
        lemma_owner_of_none(found.drop_last(), key);
        assert forall|i: int| 0 <= i < found.len() implies lower((#[trigger] found[i]).0) != key by {
            if i < found.len() - 1 {
                assert(found.drop_last()[i] == found[i]);
            }
        }
    }
}

proof fn lemma_walk_names_distinct(
    prev: Seq<(Seq<char>, Seq<char>)>,
    mid: Seq<char>,
    items: Seq<ScanItem<AgentFileEntry>>,
)
    requires
        names_distinct(prev),
        names_in_walk(prev, mid, items) is Ok,
    ensures
        names_distinct(names_in_walk(prev, mid, items)->Ok_0),
    decreases items.len(),
{
    if items.len() > 0 {
        lemma_walk_names_distinct(prev, mid, items.drop_last());
        let found = names_in_walk(prev, mid, items.drop_last())->Ok_0;
        if let ScanItem::Found(f) = items.last() {
            if let Ok(Some(stem)) = agent_file_name_of(f) {
                lemma_owner_of_none(found, lower(stem));
                let r = found.push((stem, mid));
                assert forall|a: int, b: int|
                    0 <= a < r.len() && 0 <= b < r.len() && a != b implies lower(
                    (#[trigger] r[a]).0,
                ) != lower((#[trigger] r[b]).0) by {
                    if a < found.len() && b < found.len() {
                        assert(r[a] == found[a] && r[b] == found[b]);
                    } else if a < found.len() {
                        assert(r[a] == found[a]);
                    } else {
                        assert(r[b] == found[b]);
                    }
                }
            }
        }
    }
}

/// No agent name is found twice across the trusted marketplaces, ignoring
/// ASCII case: where two files would give the same name, the walk fails.
pub proof fn lemma_agent_names_distinct(roots: Seq<AgentRoot>)
    requires
        names_in_roots(roots) is Ok,
    ensures
        names_distinct(names_in_roots(roots)->Ok_0),
    decreases roots.len(),
{
    if roots.len() > 0 {
        lemma_agent_names_distinct(roots.drop_last());
        let found = names_in_roots(roots.drop_last())->Ok_0;
        lemma_walk_names_distinct(found, roots.last().marketplace_id@, roots.last().items@);
    }
}

} // verus!
