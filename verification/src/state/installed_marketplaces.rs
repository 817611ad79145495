//! Marketplaces installed in the user's plugin folder, with their plugins,
//! skills and agents, and whether each marketplace is trusted.
use vstd::prelude::*;

use super::global_agents::{agent_suffix, frontmatter_description};
use super::global_agents::{failed_refresh, succeeded_scan, ScanRefresh};
use super::{copy_opt, ScanStateRow, InstalledMarketplacesState, fold_scan, lemma_fold_scan_error_sticks, list_outcome_is, normalized_text,
    opt_view, outcome_is, sorted_outcome, AppState, InstalledMarketplaceRecord,
    InstalledPluginAgentRecord, InstalledPluginRecord, InstalledSkillRecord, Outcome, ScanItem};
use crate::catalog::Marketplace;
use crate::error::{ErrorKind, TupiError};
use crate::order::{select, sort_records, Ordered, SortKey};
use crate::text::{chars_end_with, chars_equal, chars_of, ends_with, joined, joined3, lower,
    lower_chars, string_of_range, trim, trimmed};
use crate::trust::{status_label, status_of_label, TrustStatus};
use crate::text::owned;

verus! {

/// A directory met while walking: its path, and its name where the name is
/// valid Unicode.
#[derive(Debug)]
pub struct DirEntryInfo {
    pub path: String,
    pub name: Option<String>,
}

/// An entry of a plugin's `agents` folder: its path, its name where the
/// name is valid Unicode, whether it is a regular file, and its text or the
/// error met reading it. Only regular files are looked at, and the text
/// only of files that `installed_plugin_agent_name` names as agents.
#[derive(Debug)]
pub struct PluginAgentFile {
    pub path: String,
    pub file_name: Option<String>,
    pub is_file: bool,
    pub contents: Result<String, String>,
}

/// An entry of a plugin's `skills` folder: its path, its name where the
/// name is valid Unicode, whether it is a folder, and whether it holds a
/// `SKILL.md` file.
#[derive(Debug)]
pub struct SkillCandidate {
    pub path: String,
    pub name: Option<String>,
    pub is_dir: bool,
    pub has_skill_file: bool,
}

/// A plugin directory with what its `skills` and `agents` folders hold.
#[derive(Debug)]
pub struct PluginListing {
    pub entry: DirEntryInfo,
    pub skills: Vec<ScanItem<SkillCandidate>>,
    pub agents: Vec<ScanItem<PluginAgentFile>>,
}

/// An installed marketplace directory with its plugin directories.
#[derive(Debug)]
pub struct MarketplaceListing {
    pub entry: DirEntryInfo,
    pub plugins: Vec<ScanItem<PluginListing>>,
}

// ---------------------------------------------------------------------------
// Views
// ---------------------------------------------------------------------------

/// A skill, as texts.
pub struct SkillView {
    pub name: Seq<char>,
    pub directory_location: Seq<char>,
}

/// An agent of a plugin, as texts.
pub struct PluginAgentView {
    pub name: Seq<char>,
    pub file_location: Seq<char>,
    pub description: Option<Seq<char>>,
}

/// A plugin, as texts.
#[verifier::ext_equal]
pub struct PluginView {
    pub name: Seq<char>,
    pub directory_location: Seq<char>,
    pub skills: Seq<SkillView>,
    pub agents: Seq<PluginAgentView>,
}

/// An installed marketplace, as texts.
#[verifier::ext_equal]
pub struct InstalledMarketplaceView {
    pub id: Seq<char>,
    pub name: Seq<char>,
    pub directory_location: Seq<char>,
    pub repository: Option<Seq<char>>,
    pub trust_status: TrustStatus,
    pub plugins: Seq<PluginView>,
}

impl View for InstalledSkillRecord {
    type V = SkillView;

    open spec fn view(&self) -> SkillView {
        SkillView { name: self.name@, directory_location: self.directory_location@ }
    }
}

impl View for InstalledPluginAgentRecord {
    type V = PluginAgentView;

    open spec fn view(&self) -> PluginAgentView {
        PluginAgentView {
            name: self.name@,
            file_location: self.file_location@,
            description: opt_view(self.description),
        }
    }
}

impl View for InstalledPluginRecord {
    type V = PluginView;

    open spec fn view(&self) -> PluginView {
        PluginView {
            name: self.name@,
            directory_location: self.directory_location@,
            skills: self.skills@.map_values(|s: InstalledSkillRecord| s@),
            agents: self.agents@.map_values(|a: InstalledPluginAgentRecord| a@),
        }
    }
}

impl View for InstalledMarketplaceRecord {
    type V = InstalledMarketplaceView;

    open spec fn view(&self) -> InstalledMarketplaceView {
        InstalledMarketplaceView {
            id: self.id@,
            name: self.name@,
            directory_location: self.directory_location@,
            repository: opt_view(self.repository),
            trust_status: self.trust_status,
            plugins: self.plugins@.map_values(|p: InstalledPluginRecord| p@),
        }
    }
}

impl Ordered for InstalledSkillRecord {
    open spec fn view_key(v: SkillView) -> (Seq<char>, Seq<char>) {
        (lower(v.name), lower(v.directory_location))
    }

    fn sort_key(&self) -> (k: SortKey) {
        SortKey {
            primary: lower_chars(self.name.as_str()),
            secondary: lower_chars(self.directory_location.as_str()),
        }
    }
}

impl Ordered for InstalledPluginAgentRecord {
    open spec fn view_key(v: PluginAgentView) -> (Seq<char>, Seq<char>) {
        (lower(v.name), lower(v.file_location))
    }

    fn sort_key(&self) -> (k: SortKey) {
        SortKey {
            primary: lower_chars(self.name.as_str()),
            secondary: lower_chars(self.file_location.as_str()),
        }
    }
}

impl Ordered for InstalledPluginRecord {
    open spec fn view_key(v: PluginView) -> (Seq<char>, Seq<char>) {
        (lower(v.name), lower(v.directory_location))
    }

    fn sort_key(&self) -> (k: SortKey) {
        SortKey {
            primary: lower_chars(self.name.as_str()),
            secondary: lower_chars(self.directory_location.as_str()),
        }
    }
}

impl Ordered for InstalledMarketplaceRecord {
    open spec fn view_key(v: InstalledMarketplaceView) -> (Seq<char>, Seq<char>) {
        (lower(v.name), lower(v.id))
    }

    fn sort_key(&self) -> (k: SortKey) {
        SortKey { primary: lower_chars(self.name.as_str()), secondary: lower_chars(self.id.as_str()) }
    }
}

// ---------------------------------------------------------------------------
// The rules, as specifications
// ---------------------------------------------------------------------------

/// A folder that holds a `SKILL.md` file becomes a skill named after the
/// folder; other entries are no skills.
pub open spec fn skill_step(e: SkillCandidate) -> Outcome<Option<SkillView>> {
    if !(e.is_dir && e.has_skill_file) {
        Ok(None)
    } else {
    match normalized_text(opt_view(e.name)) {
        None => Err(
            (
                ErrorKind::PluginValidation,
                "installed skill "@ + e.path@ + " must have a valid directory name"@,
            ),
        ),
        Some(n) => Ok(Some(SkillView { name: n, directory_location: e.path@ })),
    }
    }
}

/// The skills of a plugin, by name then location, ignoring ASCII case.
pub open spec fn installed_skills_of(items: Seq<ScanItem<SkillCandidate>>) -> Outcome<Seq<SkillView>> {
    sorted_outcome(
        fold_scan(items, |e: SkillCandidate| skill_step(e)),
        |v: SkillView| InstalledSkillRecord::view_key(v),
    )
}

/// Whether a walk entry is a skill folder: a folder that holds a SKILL.md
/// file.
pub open spec fn skill_folder() -> spec_fn(ScanItem<SkillCandidate>) -> bool {
    |it: ScanItem<SkillCandidate>| it matches ScanItem::Found(e) && e.is_dir && e.has_skill_file
}

/// Every skill folder of a plugin becomes one skill: a walk that succeeds
/// lists exactly as many skills as it met folders holding a SKILL.md file,
/// and each such folder is listed under its location.
pub proof fn lemma_every_skill_folder_listed(items: Seq<ScanItem<SkillCandidate>>)
    ensures
        installed_skills_of(items) matches Ok(s) ==> s.len() == items.filter(skill_folder()).len(),
        installed_skills_of(items) matches Ok(s) ==> forall|i: int|
            0 <= i < items.len() && skill_folder()(#[trigger] items[i]) ==> exists|j: int|
                0 <= j < s.len() && s[j].directory_location == items[i]->Found_0.path@,
{
    super::lemma_sorted_walk_lists(
        items,
        |e: SkillCandidate| skill_step(e),
        skill_folder(),
        |v: SkillView| InstalledSkillRecord::view_key(v),
        |v: SkillView| v.directory_location,
        |e: SkillCandidate| e.path@,
    );
}

/// The agent name that a plugin file name gives: files whose name does not
/// end in `.agent.md` (in any case) are not agents; the name is what comes
/// before those nine characters, trimmed, and must not be empty.
pub open spec fn plugin_agent_name_of(file_name: Option<Seq<char>>, path: Seq<char>) -> Outcome<
    Option<Seq<char>>,
> {
    match file_name {
        None => Err(
            (ErrorKind::PluginValidation, "agent file "@ + path + " must have a valid filename"@),
        ),
        Some(f) => if !ends_with(lower(f), agent_suffix()) {
            Ok(None)
        } else if trim(f.subrange(0, f.len() - agent_suffix().len())).len() == 0 {
            Err(
                (
                    ErrorKind::PluginValidation,
                    "agent file "@ + path + " must end with a non-empty .agent.md name"@,
                ),
            )
        } else {
            Ok(Some(trim(f.subrange(0, f.len() - agent_suffix().len()))))
        },
    }
}

/// An agent file of a plugin becomes an agent with the description of its
/// front matter; entries that are not regular files are no agents.
pub open spec fn plugin_agent_step(f: PluginAgentFile) -> Outcome<Option<PluginAgentView>> {
    if !f.is_file {
        Ok(None)
    } else {
    match plugin_agent_name_of(opt_view(f.file_name), f.path@) {
        Err(e) => Err(e),
        Ok(None) => Ok(None),
        Ok(Some(n)) => match f.contents {
            Err(m) => Err(
                (ErrorKind::PluginRead, f.path@ + " is not readable UTF-8 ("@ + m@ + ")"@),
            ),
            Ok(text) => match frontmatter_description(text@) {
                Err(e) => Err(e),
                Ok(d) => Ok(Some(PluginAgentView { name: n, file_location: f.path@, description: d })),
            },
        },
    }
    }
}

/// The agents of a plugin, by name then location, ignoring ASCII case.
pub open spec fn installed_plugin_agents_of(items: Seq<ScanItem<PluginAgentFile>>) -> Outcome<
    Seq<PluginAgentView>,
> {
    sorted_outcome(
        fold_scan(items, |f: PluginAgentFile| plugin_agent_step(f)),
        |v: PluginAgentView| InstalledPluginAgentRecord::view_key(v),
    )
}

/// Whether a walk entry is an agent file of a plugin: a file whose name ends
/// in `.agent.md`, in any case.
pub open spec fn plugin_agent_file() -> spec_fn(ScanItem<PluginAgentFile>) -> bool {
    |it: ScanItem<PluginAgentFile>|
        it matches ScanItem::Found(f) && (f.is_file && (opt_view(f.file_name) matches Some(n)
            && ends_with(lower(n), ".agent.md"@)))
}

/// Every agent file of a plugin becomes one agent: a walk that succeeds
/// lists exactly as many agents as it met files named `*.agent.md` (in any
/// case), and each such file is listed under its location.
pub proof fn lemma_every_plugin_agent_file_listed(items: Seq<ScanItem<PluginAgentFile>>)
    ensures
        installed_plugin_agents_of(items) matches Ok(s) ==> s.len() == items.filter(plugin_agent_file()).len()
            && forall|i: int|
            0 <= i < items.len() && plugin_agent_file()(#[trigger] items[i]) ==> exists|j: int|
                0 <= j < s.len() && s[j].file_location == items[i]->Found_0.path@,
{
    super::lemma_sorted_walk_lists(
        items,
        |f: PluginAgentFile| plugin_agent_step(f),
        plugin_agent_file(),
        |v: PluginAgentView| InstalledPluginAgentRecord::view_key(v),
        |v: PluginAgentView| v.file_location,
        |f: PluginAgentFile| f.path@,
    );
}

/// A plugin directory becomes a plugin named after the directory, with its
/// skills and agents.
pub open spec fn plugin_of(p: PluginListing) -> Outcome<PluginView> {
    match normalized_text(opt_view(p.entry.name)) {
        None => Err(
            (
                ErrorKind::PluginValidation,
                "installed plugin "@ + p.entry.path@ + " must have a valid directory name"@,
            ),
        ),
        Some(n) => match installed_skills_of(p.skills@) {
            Err(e) => Err(e),
            Ok(skills) => match installed_plugin_agents_of(p.agents@) {
                Err(e) => Err(e),
                Ok(agents) => Ok(
                    PluginView { name: n, directory_location: p.entry.path@, skills, agents },
                ),
            },
        },
    }
}

/// The plugins of a marketplace, by name then location, ignoring ASCII
/// case.
pub open spec fn installed_plugins_of(items: Seq<ScanItem<PluginListing>>) -> Outcome<Seq<PluginView>> {
    sorted_outcome(
        fold_scan(
            items,
            |p: PluginListing|
                match plugin_of(p) {
                    Ok(v) => Ok(Some(v)),
                    Err(e) => Err(e),
                },
        ),
        |v: PluginView| InstalledPluginRecord::view_key(v),
    )
}

/// The last catalog marketplace whose id equals `id`, ignoring ASCII case.
pub open spec fn trusted_match(ms: Seq<Marketplace>, id: Seq<char>) -> Option<int>
    decreases ms.len(),
{
    if ms.len() == 0 {
        None
    } else if lower(ms.last().id@) == lower(id) {
        Some(ms.len() - 1)
    } else {
        trusted_match(ms.drop_last(), id)
    }
}

/// An installed marketplace directory becomes a marketplace record: its id
/// is the directory name; it is trusted, and named and located as in the
/// catalog, exactly when a catalog marketplace has that id.
pub open spec fn installed_marketplace_of(m: MarketplaceListing, trusted: Seq<Marketplace>) -> Outcome<
    InstalledMarketplaceView,
> {
    match normalized_text(opt_view(m.entry.name)) {
        None => Err(
            (
                ErrorKind::PluginValidation,
                "installed marketplace "@ + m.entry.path@ + " must have a valid directory name"@,
            ),
        ),
        Some(id) => match installed_plugins_of(m.plugins@) {
            Err(e) => Err(e),
            Ok(plugins) => Ok(
                match trusted_match(trusted, id) {
                    Some(k) => InstalledMarketplaceView {
                        id,
                        name: trusted[k].name@,
                        directory_location: m.entry.path@,
                        repository: Some(trusted[k].repository@),
                        trust_status: TrustStatus::Trusted,
                        plugins,
                    },
                    None => InstalledMarketplaceView {
                        id,
                        name: id,
                        directory_location: m.entry.path@,
                        repository: None,
                        trust_status: TrustStatus::Untrusted,
                        plugins,
                    },
                },
            ),
        },
    }
}

/// Whether a walk entry was found (rather than a failure to read one).
pub open spec fn found_entry<T>() -> spec_fn(ScanItem<T>) -> bool {
    |it: ScanItem<T>| it is Found
}

/// Every plugin folder of a marketplace becomes one plugin: a walk that
/// succeeds lists exactly as many plugins as it found folders, and each
/// folder is listed under its location.
pub proof fn lemma_every_plugin_folder_listed(items: Seq<ScanItem<PluginListing>>)
    ensures
        installed_plugins_of(items) matches Ok(s) ==> s.len() == items.filter(found_entry()).len()
            && forall|i: int|
            0 <= i < items.len() && found_entry()(#[trigger] items[i]) ==> exists|j: int|
                0 <= j < s.len() && s[j].directory_location == items[i]->Found_0.entry.path@,
{
    super::lemma_sorted_walk_lists(
        items,
        |p: PluginListing|
            match plugin_of(p) {
                Ok(v) => Ok(Some(v)),
                Err(e) => Err(e),
            },
        found_entry(),
        |v: PluginView| InstalledPluginRecord::view_key(v),
        |v: PluginView| v.directory_location,
        |p: PluginListing| p.entry.path@,
    );
}

/// The installed marketplaces, by name then id, ignoring ASCII case.
pub open spec fn installed_marketplaces_of(
    items: Seq<ScanItem<MarketplaceListing>>,
    trusted: Seq<Marketplace>,
) -> Outcome<Seq<InstalledMarketplaceView>> {
    sorted_outcome(
        fold_scan(items, marketplace_step(trusted)),
        |v: InstalledMarketplaceView| InstalledMarketplaceRecord::view_key(v),
    )
}

/// What each marketplace directory found adds to the inventory: one
/// marketplace, or an error.
pub open spec fn marketplace_step(trusted: Seq<Marketplace>) -> spec_fn(MarketplaceListing) -> Outcome<
    Option<InstalledMarketplaceView>,
> {
    |m: MarketplaceListing|
        match installed_marketplace_of(m, trusted) {
            Ok(v) => Ok(Some(v)),
            Err(e) => Err(e),
        }
}

proof fn lemma_fold_scan_keeps_each<T, V>(
    items: Seq<ScanItem<T>>,
    step: spec_fn(T) -> Outcome<Option<V>>,
)
    requires
        forall|t: T| #[trigger] step(t) is Ok ==> step(t)->Ok_0 is Some,
    ensures
        fold_scan(items, step) matches Ok(rs) ==> rs.len() == items.len(),
    decreases items.len(),
{
    if items.len() > 0 {
        lemma_fold_scan_keeps_each(items.drop_last(), step);
        if let ScanItem::Found(t) = items.last() {
            assert(step(t) is Ok ==> step(t)->Ok_0 is Some);
        }
    }
}

/// Each directory found under the installed plugin folder becomes exactly
/// one installed marketplace: a walk that succeeds lists as many
/// marketplaces as it found directories.
pub proof fn lemma_one_marketplace_per_directory(
    items: Seq<ScanItem<MarketplaceListing>>,
    trusted: Seq<Marketplace>,
)
    ensures
        installed_marketplaces_of(items, trusted) matches Ok(ms) ==> ms.len() == items.len(),
{
    lemma_fold_scan_keeps_each(items, marketplace_step(trusted));
    if let Ok(rs) = fold_scan(items, marketplace_step(trusted)) {
        crate::order::lemma_sort_by_key_sorted_permutation(
            rs,
            |v: InstalledMarketplaceView| InstalledMarketplaceRecord::view_key(v),
        );
    }
}

/// A marketplace is matched exactly when some catalog marketplace has its
/// id, ignoring ASCII case.
pub proof fn lemma_trusted_match_exists(ms: Seq<Marketplace>, id: Seq<char>)
    ensures
        trusted_match(ms, id) is Some <==> exists|k: int|
            0 <= k < ms.len() && lower(ms[k].id@) == lower(id),
        trusted_match(ms, id) matches Some(k) ==> 0 <= k < ms.len() && lower(ms[k].id@) == lower(
            id,
        ),
    decreases ms.len(),
{
    if ms.len() > 0 {
        lemma_trusted_match_exists(ms.drop_last(), id);
        if trusted_match(ms.drop_last(), id) is None && lower(ms.last().id@) != lower(id) {
            assert forall|k: int| 0 <= k < ms.len() implies lower(ms[k].id@) != lower(id) by {
                if k < ms.len() - 1 {
                    assert(ms.drop_last()[k] == ms[k]);
                }
            }
        }
        if let Some(k) = trusted_match(ms.drop_last(), id) {
            assert(ms.drop_last()[k] == ms[k]);
        }
    }
}

// ---------------------------------------------------------------------------
// The scans
// ---------------------------------------------------------------------------

fn plugin_error(lead: &str, path: &str, tail: &str) -> (e: TupiError)
    ensures
        e@ == (ErrorKind::PluginValidation, lead@ + path@ + tail@),
{
    TupiError::PluginValidation(joined3(lead, path, tail))
}

/// The index of the last catalog marketplace whose id equals `id`, ignoring
/// ASCII case.
fn find_trusted(trusted: &Vec<Marketplace>, id: &String) -> (r: Option<usize>)
    ensures
        match trusted_match(trusted@, id@) {
            Some(k) => r matches Some(j) && j as int == k,
            None => r is None,
        },
{
    let key = lower_chars(id.as_str());
    let mut i = trusted.len();
    assert(trusted@.take(i as int) =~= trusted@);
    while i > 0
        invariant
            i <= trusted.len(),
            key@ == lower(id@),
            trusted_match(trusted@, id@) == trusted_match(trusted@.take(i as int), id@),
        decreases i,
    {
        let ghost t = trusted@.take(i as int);
        proof {
            assert(t.last() == trusted@[i - 1]);
            assert(t.drop_last() =~= trusted@.take(i - 1));
        }
        let candidate = lower_chars(trusted[i - 1].id.as_str());
        if chars_equal(&candidate, &key) {
            return Some(i - 1);
        }
        i = i - 1;
    }
    None
}

impl AppState {
    /// The skills of a plugin, from the skill directories in its `skills`
    /// folder; see `installed_skills_of`.
    pub fn collect_installed_plugin_skills(items: &Vec<ScanItem<SkillCandidate>>) -> (r: Result<
        Vec<InstalledSkillRecord>,
        TupiError,
    >)
        ensures
            list_outcome_is(r, installed_skills_of(items@)),
    {
        let ghost step = |e: SkillCandidate| skill_step(e);
        let mut found: Vec<InstalledSkillRecord> = Vec::new();
        let mut i: usize = 0;
        assert(items@.take(0) =~= Seq::<ScanItem<SkillCandidate>>::empty());
        assert(found@.map_values(|s: InstalledSkillRecord| s@) =~= Seq::<SkillView>::empty());
        while i < items.len()
            invariant
                i <= items.len(),
                step == (|e: SkillCandidate| skill_step(e)),
                fold_scan(items@.take(i as int), step) == Ok::<Seq<SkillView>, (ErrorKind, Seq<char>)>(
                    found@.map_values(|s: InstalledSkillRecord| s@),
                ),
            decreases items.len() - i,
        {
            let ghost t = items@.take(i + 1);
            proof {
                assert(t.drop_last() =~= items@.take(i as int));
                assert(t.last() == items@[i as int]);
            }
            match &items[i] {
                ScanItem::Failed(e) => {
                    proof {
                        lemma_fold_scan_error_sticks(items@, step, i + 1);
                    }
                    return Err(super::global_agents::copy_error(e));
                },
                ScanItem::Found(e) => if e.is_dir && e.has_skill_file {
                    match Self::normalize_optional_text(copy_opt(&e.name)) {
                        None => {
                            proof {
                                lemma_fold_scan_error_sticks(items@, step, i + 1);
                            }
                            return Err(
                                plugin_error(
                                    "installed skill ",
                                    e.path.as_str(),
                                    " must have a valid directory name",
                                ),
                            );
                        },
                        Some(n) => {
                            let ghost before = found@;
                            found.push(InstalledSkillRecord { name: n, directory_location: e.path.clone() });
                            assert(found@.map_values(|s: InstalledSkillRecord| s@) =~= before.map_values(
                                |s: InstalledSkillRecord| s@,
                            ).push(found@.last()@));
                        },
                    }
                },
            }
            i = i + 1;
        }
        assert(items@.take(items.len() as int) =~= items@);
        Ok(sort_records(found))
    }

    /// The agent name that a plugin file name gives; see
    /// `plugin_agent_name_of`.
    pub fn installed_plugin_agent_name(file_name: &Option<String>, path: &str) -> (r: Result<
        Option<String>,
        TupiError,
    >)
        ensures
            match r {
                Ok(n) => plugin_agent_name_of(opt_view(*file_name), path@) == Ok::<
                    Option<Seq<char>>,
                    (ErrorKind, Seq<char>),
                >(opt_view(n)),
                Err(e) => plugin_agent_name_of(opt_view(*file_name), path@) == Err::<
                    Option<Seq<char>>,
                    (ErrorKind, Seq<char>),
                >(e@),
            },
    {
        let f = match file_name {
            None => {
                return Err(plugin_error("agent file ", path, " must have a valid filename"));
            },
            Some(f) => f,
        };
        let suffix = super::global_agents::agent_suffix_chars();
        let lowered = lower_chars(f.as_str());
        if !chars_end_with(&lowered, &suffix) {
            return Ok(None);
        }
        let chars = chars_of(f.as_str());
        let cut = chars.len() - 9;
        let stem = string_of_range(&chars, 0, cut);
        let name = trimmed(stem.as_str());
        if name.as_str().is_empty() {
            return Err(
                plugin_error("agent file ", path, " must end with a non-empty .agent.md name"),
            );
        }
        Ok(Some(name))
    }

    /// The agents of a plugin, from the files in its `agents` folder; see
    /// `installed_plugin_agents_of`.
    pub fn collect_installed_plugin_agents(items: &Vec<ScanItem<PluginAgentFile>>) -> (r: Result<
        Vec<InstalledPluginAgentRecord>,
        TupiError,
    >)
        ensures
            list_outcome_is(r, installed_plugin_agents_of(items@)),
    {
        let ghost step = |f: PluginAgentFile| plugin_agent_step(f);
        let mut found: Vec<InstalledPluginAgentRecord> = Vec::new();
        let mut i: usize = 0;
        assert(items@.take(0) =~= Seq::<ScanItem<PluginAgentFile>>::empty());
        assert(found@.map_values(|s: InstalledPluginAgentRecord| s@) =~= Seq::<PluginAgentView>::empty());
        while i < items.len()
            invariant
                i <= items.len(),
                step == (|f: PluginAgentFile| plugin_agent_step(f)),
                fold_scan(items@.take(i as int), step) == Ok::<
                    Seq<PluginAgentView>,
                    (ErrorKind, Seq<char>),
                >(found@.map_values(|s: InstalledPluginAgentRecord| s@)),
            decreases items.len() - i,
        {
            let ghost t = items@.take(i + 1);
            proof {
                assert(t.drop_last() =~= items@.take(i as int));
                assert(t.last() == items@[i as int]);
            }
            match &items[i] {
                ScanItem::Failed(e) => {
                    proof {
                        lemma_fold_scan_error_sticks(items@, step, i + 1);
                    }
                    return Err(super::global_agents::copy_error(e));
                },
                ScanItem::Found(f) => if f.is_file {
                    match Self::installed_plugin_agent_name(&f.file_name, f.path.as_str()) {
                        Err(e) => {
                            proof {
                                lemma_fold_scan_error_sticks(items@, step, i + 1);
                            }
                            return Err(e);
                        },
                        Ok(None) => {},
                        Ok(Some(n)) => {
                            let text = match &f.contents {
                                Err(m) => {
                                    proof {
                                        lemma_fold_scan_error_sticks(items@, step, i + 1);
                                    }
                                    let msg = joined3(
                                        f.path.as_str(),
                                        " is not readable UTF-8 (",
                                        joined(m.as_str(), ")").as_str(),
                                    );
                                    assert(msg@ =~= f.path@ + " is not readable UTF-8 ("@ + m@ + ")"@);
                                    return Err(TupiError::PluginRead(msg));
                                },
                                Ok(text) => text,
                            };
                            match Self::extract_frontmatter_description(text.as_str()) {
                                Err(e) => {
                                    proof {
                                        lemma_fold_scan_error_sticks(items@, step, i + 1);
                                    }
                                    return Err(e);
                                },
                                Ok(description) => {
                                    let ghost before = found@;
                                    found.push(
                                        InstalledPluginAgentRecord {
                                            name: n,
                                            file_location: f.path.clone(),
                                            description,
                                        },
                                    );
                                    assert(found@.map_values(|s: InstalledPluginAgentRecord| s@)
                                        =~= before.map_values(|s: InstalledPluginAgentRecord| s@).push(
                                        found@.last()@,
                                    ));
                                },
                            }
                        },
                    }
                },
            }
            i = i + 1;
        }
        assert(items@.take(items.len() as int) =~= items@);
        Ok(sort_records(found))
    }

    /// One plugin, with its skills and agents; see `plugin_of`.
    pub fn installed_plugin(listing: &PluginListing) -> (r: Result<InstalledPluginRecord, TupiError>)
        ensures
            outcome_is(r, plugin_of(*listing)),
    {
        let name = match Self::normalize_optional_text(copy_opt(&listing.entry.name)) {
            None => {
                return Err(
                    plugin_error(
                        "installed plugin ",
                        listing.entry.path.as_str(),
                        " must have a valid directory name",
                    ),
                );
            },
            Some(n) => n,
        };
        let skills = Self::collect_installed_plugin_skills(&listing.skills)?;
        let agents = Self::collect_installed_plugin_agents(&listing.agents)?;
        let rec = InstalledPluginRecord {
            name,
            directory_location: listing.entry.path.clone(),
            skills,
            agents,
        };
        assert(rec@ =~= plugin_of(*listing)->Ok_0);
        Ok(rec)
    }

    /// The plugins of a marketplace, from the directories in it; see
    /// `installed_plugins_of`.
    pub fn collect_installed_marketplace_plugins(items: &Vec<ScanItem<PluginListing>>) -> (r: Result<
        Vec<InstalledPluginRecord>,
        TupiError,
    >)
        ensures
            list_outcome_is(r, installed_plugins_of(items@)),
    {
        let ghost step = |p: PluginListing|
            match plugin_of(p) {
                Ok(v) => Ok(Some(v)),
                Err(e) => Err(e),
            };
        let mut found: Vec<InstalledPluginRecord> = Vec::new();
        let mut i: usize = 0;
        assert(items@.take(0) =~= Seq::<ScanItem<PluginListing>>::empty());
        assert(found@.map_values(|s: InstalledPluginRecord| s@) =~= Seq::<PluginView>::empty());
        while i < items.len()
            invariant
                i <= items.len(),
                step == (|p: PluginListing|
                    match plugin_of(p) {
                        Ok(v) => Ok(Some(v)),
                        Err(e) => Err(e),
                    }),
                fold_scan(items@.take(i as int), step) == Ok::<Seq<PluginView>, (ErrorKind, Seq<char>)>(
                    found@.map_values(|s: InstalledPluginRecord| s@),
                ),
            decreases items.len() - i,
        {
            let ghost t = items@.take(i + 1);
            proof {
                assert(t.drop_last() =~= items@.take(i as int));
                assert(t.last() == items@[i as int]);
            }
            match &items[i] {
                ScanItem::Failed(e) => {
                    proof {
                        lemma_fold_scan_error_sticks(items@, step, i + 1);
                    }
                    return Err(super::global_agents::copy_error(e));
                },
                ScanItem::Found(p) => {
                    match Self::installed_plugin(p) {
                        Err(e) => {
                            proof {
                                lemma_fold_scan_error_sticks(items@, step, i + 1);
                            }
                            return Err(e);
                        },
                        Ok(rec) => {
                            let ghost before = found@;
                            found.push(rec);
                            assert(found@.map_values(|s: InstalledPluginRecord| s@) =~= before.map_values(
                                |s: InstalledPluginRecord| s@,
                            ).push(found@.last()@));
                        },
                    }
                },
            }
            i = i + 1;
        }
        assert(items@.take(items.len() as int) =~= items@);
        Ok(sort_records(found))
    }

    /// One installed marketplace; see `installed_marketplace_of`. It is
    /// trusted exactly when a catalog marketplace has its id, ignoring ASCII
    /// case.
    pub fn installed_marketplace(listing: &MarketplaceListing, trusted: &Vec<Marketplace>) -> (r: Result<
        InstalledMarketplaceRecord,
        TupiError,
    >)
        ensures
            outcome_is(r, installed_marketplace_of(*listing, trusted@)),
            r matches Ok(m) ==> (m.trust_status == TrustStatus::Trusted <==> exists|k: int|
                0 <= k < trusted@.len() && lower(trusted@[k].id@) == lower(m.id@)),
    {
        let id = match Self::normalize_optional_text(copy_opt(&listing.entry.name)) {
            None => {
                return Err(
                    plugin_error(
                        "installed marketplace ",
                        listing.entry.path.as_str(),
                        " must have a valid directory name",
                    ),
                );
            },
            Some(n) => n,
        };
        let plugins = Self::collect_installed_marketplace_plugins(&listing.plugins)?;
        proof {
            lemma_trusted_match_exists(trusted@, id@);
        }
        let ghost expected = installed_marketplace_of(*listing, trusted@);
        let rec = match find_trusted(trusted, &id) {
            Some(k) => {
                let rec = InstalledMarketplaceRecord {
                    id,
                    name: trusted[k].name.clone(),
                    directory_location: listing.entry.path.clone(),
                    repository: Some(trusted[k].repository.clone()),
                    trust_status: TrustStatus::Trusted,
                    plugins,
                };
                assert(trusted_match(trusted@, rec.id@) == Some(k as int));
                assert(rec.name@ == trusted@[k as int].name@);
                rec
            },
            None => {
                let name = id.clone();
                InstalledMarketplaceRecord {
                    id,
                    name,
                    directory_location: listing.entry.path.clone(),
                    repository: None,
                    trust_status: TrustStatus::Untrusted,
                    plugins,
                }
            },
        };
        assert(rec@ =~= expected->Ok_0);
        Ok(rec)
    }

    /// The installed marketplaces, from the directories of the plugin
    /// folder, matched against the catalog marketplaces (none where the
    /// catalog could not be loaded); see `installed_marketplaces_of`.
    pub fn collect_walked_installed_marketplaces(
        items: &Vec<ScanItem<MarketplaceListing>>,
        trusted: &Vec<Marketplace>,
    ) -> (r: Result<Vec<InstalledMarketplaceRecord>, TupiError>)
        ensures
            list_outcome_is(r, installed_marketplaces_of(items@, trusted@)),
    {
        let ghost step = marketplace_step(trusted@);
        let mut found: Vec<InstalledMarketplaceRecord> = Vec::new();
        let mut i: usize = 0;
        assert(items@.take(0) =~= Seq::<ScanItem<MarketplaceListing>>::empty());
        assert(found@.map_values(|s: InstalledMarketplaceRecord| s@)
            =~= Seq::<InstalledMarketplaceView>::empty());
        while i < items.len()
            invariant
                i <= items.len(),
                step == marketplace_step(trusted@),
                fold_scan(items@.take(i as int), step) == Ok::<
                    Seq<InstalledMarketplaceView>,
                    (ErrorKind, Seq<char>),
                >(found@.map_values(|s: InstalledMarketplaceRecord| s@)),
            decreases items.len() - i,
        {
            let ghost t = items@.take(i + 1);
            proof {
                assert(t.drop_last() =~= items@.take(i as int));
                assert(t.last() == items@[i as int]);
            }
            match &items[i] {
                ScanItem::Failed(e) => {
                    proof {
                        lemma_fold_scan_error_sticks(items@, step, i + 1);
                    }
                    return Err(super::global_agents::copy_error(e));
                },
                ScanItem::Found(m) => {
                    match Self::installed_marketplace(m, trusted) {
                        Err(e) => {
                            proof {
                                lemma_fold_scan_error_sticks(items@, step, i + 1);
                            }
                            return Err(e);
                        },
                        Ok(rec) => {
                            let ghost before = found@;
                            found.push(rec);
                            assert(found@.map_values(|s: InstalledMarketplaceRecord| s@)
                                =~= before.map_values(|s: InstalledMarketplaceRecord| s@).push(
                                found@.last()@,
                            ));
                        },
                    }
                },
            }
            i = i + 1;
        }
        assert(items@.take(items.len() as int) =~= items@);
        Ok(sort_records(found))
    }
}

// ---------------------------------------------------------------------------
// Stored inventory
// ---------------------------------------------------------------------------

/// A stored installed marketplace.
#[derive(Debug)]
pub struct InstalledMarketplaceRow {
    pub marketplace_id: String,
    pub marketplace_name: String,
    pub directory_location: String,
    pub repository: Option<String>,
    pub trust_status: String,
}

/// A stored plugin, under the directory of its marketplace.
#[derive(Debug)]
pub struct InstalledPluginRow {
    pub marketplace_directory_location: String,
    pub plugin_name: String,
    pub plugin_directory_location: String,
}

/// A stored skill, under the directory of its plugin.
#[derive(Debug)]
pub struct InstalledSkillRow {
    pub plugin_directory_location: String,
    pub skill_name: String,
    pub skill_directory_location: String,
}

/// A stored plugin agent, under the directory of its plugin.
#[derive(Debug)]
pub struct InstalledPluginAgentRow {
    pub plugin_directory_location: String,
    pub agent_name: String,
    pub file_location: String,
    pub description: Option<String>,
}

/// The rows of the four tables that store the inventory.
#[derive(Debug)]
pub struct InstalledRows {
    pub marketplaces: Vec<InstalledMarketplaceRow>,
    pub plugins: Vec<InstalledPluginRow>,
    pub skills: Vec<InstalledSkillRow>,
    pub agents: Vec<InstalledPluginAgentRow>,
}


/// The skill that a row stands for.
pub open spec fn skill_of_row(r: InstalledSkillRow) -> SkillView {
    SkillView { name: r.skill_name@, directory_location: r.skill_directory_location@ }
}

/// The plugin agent that a row stands for.
pub open spec fn plugin_agent_of_row(r: InstalledPluginAgentRow) -> PluginAgentView {
    PluginAgentView {
        name: r.agent_name@,
        file_location: r.file_location@,
        description: opt_view(r.description),
    }
}

/// The skills stored under a plugin directory, in row order.
pub open spec fn skills_under(rows: Seq<InstalledSkillRow>, dir: Seq<char>) -> Seq<SkillView> {
    select(rows, skill_in(dir)).map_values(
        |r: InstalledSkillRow| skill_of_row(r),
    )
}

/// The agents stored under a plugin directory, in row order.
pub open spec fn agents_under(rows: Seq<InstalledPluginAgentRow>, dir: Seq<char>) -> Seq<PluginAgentView> {
    select(rows, agent_in(dir)).map_values(
        |r: InstalledPluginAgentRow| plugin_agent_of_row(r),
    )
}

/// The plugin rows stored under a marketplace directory, in row order.
pub open spec fn plugins_under(rows: Seq<InstalledPluginRow>, dir: Seq<char>) -> Seq<InstalledPluginRow> {
    select(rows, plugin_in(dir))
}

/// Whether a skill row lies under the plugin directory `dir`.
pub open spec fn skill_in(dir: Seq<char>) -> spec_fn(InstalledSkillRow) -> bool {
    |r: InstalledSkillRow| r.plugin_directory_location@ == dir
}

/// Whether an agent row lies under the plugin directory `dir`.
pub open spec fn agent_in(dir: Seq<char>) -> spec_fn(InstalledPluginAgentRow) -> bool {
    |r: InstalledPluginAgentRow| r.plugin_directory_location@ == dir
}

/// Whether a plugin row lies under the marketplace directory `dir`.
pub open spec fn plugin_in(dir: Seq<char>) -> spec_fn(InstalledPluginRow) -> bool {
    |r: InstalledPluginRow| r.marketplace_directory_location@ == dir
}

/// The plugins that rows stand for: each gets the skills and agents stored
/// under its directory, unless an earlier plugin (one whose directory is in
/// `used`) already took them.
pub open spec fn assemble_plugins(
    ps: Seq<InstalledPluginRow>,
    used: Seq<Seq<char>>,
    skills: Seq<InstalledSkillRow>,
    agents: Seq<InstalledPluginAgentRow>,
) -> Seq<PluginView>
    decreases ps.len(),
{
    if ps.len() == 0 {
        Seq::empty()
    } else {
        let p = ps[0];
        let dir = p.plugin_directory_location@;
        let fresh = !used.contains(dir);
        seq![
            PluginView {
                name: p.plugin_name@,
                directory_location: dir,
                skills: if fresh {
                    skills_under(skills, dir)
                } else {
                    Seq::empty()
                },
                agents: if fresh {
                    agents_under(agents, dir)
                } else {
                    Seq::empty()
                },
            },
        ] + assemble_plugins(ps.drop_first(), used.push(dir), skills, agents)
    }
}

/// The directories of plugin rows.
pub open spec fn plugin_dirs(ps: Seq<InstalledPluginRow>) -> Seq<Seq<char>> {
    ps.map_values(|p: InstalledPluginRow| p.plugin_directory_location@)
}

/// The marketplaces that rows stand for, each with the plugins stored under
/// its directory unless an earlier marketplace with that directory took
/// them.
pub open spec fn assemble_marketplaces(
    ms: Seq<InstalledMarketplaceRow>,
    used_m: Seq<Seq<char>>,
    used_p: Seq<Seq<char>>,
    plugins: Seq<InstalledPluginRow>,
    skills: Seq<InstalledSkillRow>,
    agents: Seq<InstalledPluginAgentRow>,
) -> Seq<InstalledMarketplaceView>
    decreases ms.len(),
{
    if ms.len() == 0 {
        Seq::empty()
    } else {
        let m = ms[0];
        let dir = m.directory_location@;
        let ps = if used_m.contains(dir) {
            Seq::empty()
        } else {
            plugins_under(plugins, dir)
        };
        seq![
            InstalledMarketplaceView {
                id: m.marketplace_id@,
                name: m.marketplace_name@,
                directory_location: dir,
                repository: opt_view(m.repository),
                trust_status: status_of_label(m.trust_status@),
                plugins: assemble_plugins(ps, used_p, skills, agents),
            },
        ] + assemble_marketplaces(
            ms.drop_first(),
            used_m.push(dir),
            used_p + plugin_dirs(ps),
            plugins,
            skills,
            agents,
        )
    }
}

/// The inventory that stored rows stand for.
pub open spec fn inventory_of_rows(rows: InstalledRows) -> Seq<InstalledMarketplaceView> {
    assemble_marketplaces(
        rows.marketplaces@,
        Seq::empty(),
        Seq::empty(),
        rows.plugins@,
        rows.skills@,
        rows.agents@,
    )
}

/// The texts of strings.
pub open spec fn texts(s: Seq<String>) -> Seq<Seq<char>> {
    s.map_values(|x: String| x@)
}

/// Whether `s` holds `t`.
fn contains_text(s: &Vec<String>, t: &String) -> (r: bool)
    ensures
        r == texts(s@).contains(t@),
{
    let ghost v = s@.map_values(|x: String| x@);
    let mut i: usize = 0;
    while i < s.len()
        invariant
            i <= s.len(),
            v == texts(s@),
            forall|k: int| 0 <= k < i ==> v[k] != t@,
        decreases s.len() - i,
    {
        if s[i] == *t {
            assert(v[i as int] == t@);
            return true;
        }
        i = i + 1;
    }
    false
}

proof fn lemma_select_step<T>(s: Seq<T>, keep: spec_fn(T) -> bool, i: int)
    requires
        0 <= i < s.len(),
    ensures
        select(s.take(i + 1), keep) == if keep(s[i]) {
            select(s.take(i), keep).push(s[i])
        } else {
            select(s.take(i), keep)
        },
{
    let t = s.take(i + 1);
    assert(t.drop_last() =~= s.take(i));
    assert(t.last() == s[i]);
}

/// The skills stored under a plugin directory.
fn skills_under_exec(rows: &Vec<InstalledSkillRow>, dir: &String) -> (out: Vec<InstalledSkillRecord>)
    ensures
        out@.map_values(|s: InstalledSkillRecord| s@) == skills_under(rows@, dir@),
{
    let ghost keep = skill_in(dir@);
    let mut out: Vec<InstalledSkillRecord> = Vec::new();
    let mut i: usize = 0;
    assert(rows@.take(0) =~= Seq::<InstalledSkillRow>::empty());
    assert(out@.map_values(|s: InstalledSkillRecord| s@) =~= Seq::<SkillView>::empty());
    while i < rows.len()
        invariant
            i <= rows.len(),
            keep == skill_in(dir@),
            out@.map_values(|s: InstalledSkillRecord| s@) == select(rows@.take(i as int), keep).map_values(
                |r: InstalledSkillRow| skill_of_row(r),
            ),
        decreases rows.len() - i,
    {
        proof {
            lemma_select_step(rows@, keep, i as int);
        }
        if rows[i].plugin_directory_location == *dir {
            let ghost before = out@;
            out.push(
                InstalledSkillRecord {
                    name: rows[i].skill_name.clone(),
                    directory_location: rows[i].skill_directory_location.clone(),
                },
            );
            assert(out@.map_values(|s: InstalledSkillRecord| s@) =~= before.map_values(
                |s: InstalledSkillRecord| s@,
            ).push(skill_of_row(rows@[i as int])));
            assert(select(rows@.take(i + 1), keep).map_values(|r: InstalledSkillRow| skill_of_row(r))
                =~= select(rows@.take(i as int), keep).map_values(
                |r: InstalledSkillRow| skill_of_row(r),
            ).push(skill_of_row(rows@[i as int])));
        }
        i = i + 1;
    }
    assert(rows@.take(rows.len() as int) =~= rows@);
    out
}

/// The agents stored under a plugin directory.
fn agents_under_exec(rows: &Vec<InstalledPluginAgentRow>, dir: &String) -> (out: Vec<
    InstalledPluginAgentRecord,
>)
    ensures
        out@.map_values(|s: InstalledPluginAgentRecord| s@) == agents_under(rows@, dir@),
{
    let ghost keep = agent_in(dir@);
    let mut out: Vec<InstalledPluginAgentRecord> = Vec::new();
    let mut i: usize = 0;
    assert(rows@.take(0) =~= Seq::<InstalledPluginAgentRow>::empty());
    assert(out@.map_values(|s: InstalledPluginAgentRecord| s@) =~= Seq::<PluginAgentView>::empty());
    while i < rows.len()
        invariant
            i <= rows.len(),
            keep == agent_in(dir@),
            out@.map_values(|s: InstalledPluginAgentRecord| s@) == select(
                rows@.take(i as int),
                keep,
            ).map_values(|r: InstalledPluginAgentRow| plugin_agent_of_row(r)),
        decreases rows.len() - i,
    {
        proof {
            lemma_select_step(rows@, keep, i as int);
        }
        if rows[i].plugin_directory_location == *dir {
            let ghost before = out@;
            out.push(
                InstalledPluginAgentRecord {
                    name: rows[i].agent_name.clone(),
                    file_location: rows[i].file_location.clone(),
                    description: copy_opt(&rows[i].description),
                },
            );
            assert(out@.map_values(|s: InstalledPluginAgentRecord| s@) =~= before.map_values(
                |s: InstalledPluginAgentRecord| s@,
            ).push(plugin_agent_of_row(rows@[i as int])));
            assert(select(rows@.take(i + 1), keep).map_values(
                |r: InstalledPluginAgentRow| plugin_agent_of_row(r),
            ) =~= select(rows@.take(i as int), keep).map_values(
                |r: InstalledPluginAgentRow| plugin_agent_of_row(r),
            ).push(plugin_agent_of_row(rows@[i as int])));
        }
        i = i + 1;
    }
    assert(rows@.take(rows.len() as int) =~= rows@);
    out
}

/// The indexes of the plugin rows stored under a marketplace directory.
fn plugin_rows_under(rows: &Vec<InstalledPluginRow>, dir: &String) -> (out: Vec<usize>)
    ensures
        out@.map_values(|k: usize| rows@[k as int]) == plugins_under(rows@, dir@),
        forall|j: int| 0 <= j < out@.len() ==> #[trigger] out@[j] < rows@.len(),
{
    let ghost keep = plugin_in(dir@);
    let mut out: Vec<usize> = Vec::new();
    let mut i: usize = 0;
    assert(rows@.take(0) =~= Seq::<InstalledPluginRow>::empty());
    assert(out@.map_values(|k: usize| rows@[k as int]) =~= Seq::<InstalledPluginRow>::empty());
    while i < rows.len()
        invariant
            i <= rows.len(),
            keep == plugin_in(dir@),
            out@.map_values(|k: usize| rows@[k as int]) == select(rows@.take(i as int), keep),
            forall|j: int| 0 <= j < out@.len() ==> #[trigger] out@[j] < rows@.len(),
        decreases rows.len() - i,
    {
        proof {
            lemma_select_step(rows@, keep, i as int);
        }
        if rows[i].marketplace_directory_location == *dir {
            let ghost before = out@;
            out.push(i);
            assert(out@.map_values(|k: usize| rows@[k as int]) =~= before.map_values(
                |k: usize| rows@[k as int],
            ).push(rows@[i as int]));
        }
        i = i + 1;
    }
    assert(rows@.take(rows.len() as int) =~= rows@);
    out
}

/// The marketplace row that stores a marketplace.
pub open spec fn marketplace_row_matches(r: InstalledMarketplaceRow, m: InstalledMarketplaceView) -> bool {
    &&& r.marketplace_id@ == m.id
    &&& r.marketplace_name@ == m.name
    &&& r.directory_location@ == m.directory_location
    &&& opt_view(r.repository) == m.repository
    &&& r.trust_status@ == status_label(m.trust_status)
}

/// Whether rows store an inventory: a row per marketplace, in order, and a
/// row per plugin, skill and agent, each under its owner's directory, in
/// inventory order.
pub open spec fn stores_inventory(rows: InstalledRows, ms: Seq<InstalledMarketplaceView>) -> bool {
    &&& rows.marketplaces@.len() == ms.len()
    &&& forall|i: int|
        0 <= i < ms.len() ==> marketplace_row_matches(#[trigger] rows.marketplaces@[i], ms[i])
    &&& rows.plugins@.map_values(
        |p: InstalledPluginRow|
            (p.marketplace_directory_location@, p.plugin_name@, p.plugin_directory_location@),
    ) == plugin_entries(ms)
    &&& rows.skills@.map_values(
        |s: InstalledSkillRow| (s.plugin_directory_location@, skill_of_row(s)),
    ) == skill_entries(ms)
    &&& rows.agents@.map_values(
        |a: InstalledPluginAgentRow| (a.plugin_directory_location@, plugin_agent_of_row(a)),
    ) == agent_entries(ms)
}

impl AppState {
    /// The rows that store an inventory: one per marketplace, then per
    /// plugin under its marketplace's directory, and per skill and agent
    /// under its plugin's directory, in inventory order.
    pub fn installed_marketplace_rows(marketplaces: &Vec<InstalledMarketplaceRecord>) -> (rows:
        InstalledRows)
        ensures
            stores_inventory(rows, marketplaces@.map_values(|m: InstalledMarketplaceRecord| m@)),
    {
        let ghost mv = marketplaces@.map_values(|m: InstalledMarketplaceRecord| m@);
        let mut mrows: Vec<InstalledMarketplaceRow> = Vec::new();
        let mut prows: Vec<InstalledPluginRow> = Vec::new();
        let mut srows: Vec<InstalledSkillRow> = Vec::new();
        let mut arows: Vec<InstalledPluginAgentRow> = Vec::new();
        let mut i: usize = 0;
        assert(mv.take(0) =~= Seq::<InstalledMarketplaceView>::empty());
        assert(prows@.map_values(|p: InstalledPluginRow| (p.marketplace_directory_location@, p.plugin_name@, p.plugin_directory_location@)) =~= Seq::<(Seq<char>, Seq<char>, Seq<char>)>::empty());
        assert(srows@.map_values(|s: InstalledSkillRow| (s.plugin_directory_location@, skill_of_row(s))) =~= Seq::<(Seq<char>, SkillView)>::empty());
        assert(arows@.map_values(|a: InstalledPluginAgentRow| (a.plugin_directory_location@, plugin_agent_of_row(a))) =~= Seq::<(Seq<char>, PluginAgentView)>::empty());
        while i < marketplaces.len()
            invariant
                i <= marketplaces.len(),
                mv == marketplaces@.map_values(|m: InstalledMarketplaceRecord| m@),
                mrows@.len() == i,
                forall|k: int| 0 <= k < i ==> {
                    let m = #[trigger] marketplaces@[k];
                    let r = mrows@[k];
                    &&& r.marketplace_id@ == m.id@
                    &&& r.marketplace_name@ == m.name@
                    &&& r.directory_location@ == m.directory_location@
                    &&& opt_view(r.repository) == opt_view(m.repository)
                    &&& r.trust_status@ == status_label(m.trust_status)
                },
                prows@.map_values(|p: InstalledPluginRow| (p.marketplace_directory_location@, p.plugin_name@, p.plugin_directory_location@))
                    == plugin_entries(mv.take(i as int)),
                srows@.map_values(|s: InstalledSkillRow| (s.plugin_directory_location@, skill_of_row(s)))
                    == skill_entries(mv.take(i as int)),
                arows@.map_values(|a: InstalledPluginAgentRow| (a.plugin_directory_location@, plugin_agent_of_row(a)))
                    == agent_entries(mv.take(i as int)),
            decreases marketplaces.len() - i,
        {
            let m = &marketplaces[i];
            mrows.push(
                InstalledMarketplaceRow {
                    marketplace_id: m.id.clone(),
                    marketplace_name: m.name.clone(),
                    directory_location: m.directory_location.clone(),
                    repository: copy_opt(&m.repository),
                    trust_status: owned(Self::trust_status_label(&m.trust_status)),
                },
            );
            proof {
                let t = mv.take(i + 1);
                assert(t.drop_last() =~= mv.take(i as int));
                assert(t.last() == m@);
            }
            let mut j: usize = 0;
            let ghost p0 = prows@;
            let ghost s0 = srows@;
            let ghost a0 = arows@;
            let ghost pv = m.plugins@.map_values(|p: InstalledPluginRecord| p@);
            assert(pv.take(0) =~= Seq::<PluginView>::empty());
            assert(plugin_entries_of(m.directory_location@, pv.take(0)) =~= Seq::<(Seq<char>, Seq<char>, Seq<char>)>::empty());
            assert(skill_entries_of(pv.take(0)) =~= Seq::<(Seq<char>, SkillView)>::empty());
            assert(agent_entries_of(pv.take(0)) =~= Seq::<(Seq<char>, PluginAgentView)>::empty());
            assert(prows@.map_values(|p: InstalledPluginRow| (p.marketplace_directory_location@, p.plugin_name@, p.plugin_directory_location@))
                =~= p0.map_values(|p: InstalledPluginRow| (p.marketplace_directory_location@, p.plugin_name@, p.plugin_directory_location@))
                    + plugin_entries_of(m.directory_location@, pv.take(0)));
            assert(srows@.map_values(|s: InstalledSkillRow| (s.plugin_directory_location@, skill_of_row(s)))
                =~= s0.map_values(|s: InstalledSkillRow| (s.plugin_directory_location@, skill_of_row(s))) + skill_entries_of(pv.take(0)));
            assert(arows@.map_values(|a: InstalledPluginAgentRow| (a.plugin_directory_location@, plugin_agent_of_row(a)))
                =~= a0.map_values(|a: InstalledPluginAgentRow| (a.plugin_directory_location@, plugin_agent_of_row(a))) + agent_entries_of(pv.take(0)));
            while j < m.plugins.len()
                invariant
                    j <= m.plugins.len(),
                    pv == m.plugins@.map_values(|p: InstalledPluginRecord| p@),
                    prows@.map_values(|p: InstalledPluginRow| (p.marketplace_directory_location@, p.plugin_name@, p.plugin_directory_location@))
                        == p0.map_values(|p: InstalledPluginRow| (p.marketplace_directory_location@, p.plugin_name@, p.plugin_directory_location@))
                            + plugin_entries_of(m.directory_location@, pv.take(j as int)),
                    srows@.map_values(|s: InstalledSkillRow| (s.plugin_directory_location@, skill_of_row(s)))
                        == s0.map_values(|s: InstalledSkillRow| (s.plugin_directory_location@, skill_of_row(s)))
                            + skill_entries_of(pv.take(j as int)),
                    arows@.map_values(|a: InstalledPluginAgentRow| (a.plugin_directory_location@, plugin_agent_of_row(a)))
                        == a0.map_values(|a: InstalledPluginAgentRow| (a.plugin_directory_location@, plugin_agent_of_row(a)))
                            + agent_entries_of(pv.take(j as int)),
                decreases m.plugins.len() - j,
            {
                let p = &m.plugins[j];
                let ghost pb = prows@;
                prows.push(
                    InstalledPluginRow {
                        marketplace_directory_location: m.directory_location.clone(),
                        plugin_name: p.name.clone(),
                        plugin_directory_location: p.directory_location.clone(),
                    },
                );
                proof {
                    let t = pv.take(j + 1);
                    assert(t.drop_last() =~= pv.take(j as int));
                    assert(t.last() == p@);
                    lemma_plugin_entries_of_push(m.directory_location@, pv.take(j as int), p@);
                    assert(prows@.map_values(|p: InstalledPluginRow| (p.marketplace_directory_location@, p.plugin_name@, p.plugin_directory_location@))
                        =~= pb.map_values(|p: InstalledPluginRow| (p.marketplace_directory_location@, p.plugin_name@, p.plugin_directory_location@)).push((m.directory_location@, p.name@, p.directory_location@)));
                    lemma_skill_entries_of_push(pv.take(j as int), p@);
                    lemma_agent_entries_of_push(pv.take(j as int), p@);
                }
                let mut k: usize = 0;
                let ghost s1 = srows@;
                let ghost sv = p.skills@.map_values(|s: InstalledSkillRecord| s@);
                assert(sv.take(0) =~= Seq::<SkillView>::empty());
                assert(s1.map_values(|s: InstalledSkillRow| (s.plugin_directory_location@, skill_of_row(s))) + tag_dir(p.directory_location@, sv.take(0)) =~= s1.map_values(|s: InstalledSkillRow| (s.plugin_directory_location@, skill_of_row(s))));
                while k < p.skills.len()
                    invariant
                        k <= p.skills.len(),
                        sv == p.skills@.map_values(|s: InstalledSkillRecord| s@),
                        srows@.map_values(|s: InstalledSkillRow| (s.plugin_directory_location@, skill_of_row(s)))
                            == s1.map_values(|s: InstalledSkillRow| (s.plugin_directory_location@, skill_of_row(s)))
                                + tag_dir(p.directory_location@, sv.take(k as int)),
                    decreases p.skills.len() - k,
                {
                    let s = &p.skills[k];
                    let ghost sb = srows@;
                    srows.push(
                        InstalledSkillRow {
                            plugin_directory_location: p.directory_location.clone(),
                            skill_name: s.name.clone(),
                            skill_directory_location: s.directory_location.clone(),
                        },
                    );
                    proof {
                        let t = sv.take(k + 1);
                        assert(t.drop_last() =~= sv.take(k as int));
                        assert(tag_dir(p.directory_location@, t) =~= tag_dir(p.directory_location@, sv.take(k as int)).push((p.directory_location@, s@)));
                        assert(srows@.map_values(|s: InstalledSkillRow| (s.plugin_directory_location@, skill_of_row(s)))
                            =~= sb.map_values(|s: InstalledSkillRow| (s.plugin_directory_location@, skill_of_row(s))).push((p.directory_location@, s@)));
                    }
                    k = k + 1;
                }
                assert(sv.take(p.skills.len() as int) =~= sv);
                let mut k: usize = 0;
                let ghost a1 = arows@;
                let ghost av = p.agents@.map_values(|a: InstalledPluginAgentRecord| a@);
                assert(av.take(0) =~= Seq::<PluginAgentView>::empty());
                assert(a1.map_values(|a: InstalledPluginAgentRow| (a.plugin_directory_location@, plugin_agent_of_row(a))) + tag_dir(p.directory_location@, av.take(0)) =~= a1.map_values(|a: InstalledPluginAgentRow| (a.plugin_directory_location@, plugin_agent_of_row(a))));
                while k < p.agents.len()
                    invariant
                        k <= p.agents.len(),
                        av == p.agents@.map_values(|a: InstalledPluginAgentRecord| a@),
                        arows@.map_values(|a: InstalledPluginAgentRow| (a.plugin_directory_location@, plugin_agent_of_row(a)))
                            == a1.map_values(|a: InstalledPluginAgentRow| (a.plugin_directory_location@, plugin_agent_of_row(a)))
                                + tag_dir(p.directory_location@, av.take(k as int)),
                    decreases p.agents.len() - k,
                {
                    let a = &p.agents[k];
                    let ghost ab = arows@;
                    arows.push(
                        InstalledPluginAgentRow {
                            plugin_directory_location: p.directory_location.clone(),
                            agent_name: a.name.clone(),
                            file_location: a.file_location.clone(),
                            description: copy_opt(&a.description),
                        },
                    );
                    proof {
                        let t = av.take(k + 1);
                        assert(t.drop_last() =~= av.take(k as int));
                        assert(tag_dir(p.directory_location@, t) =~= tag_dir(p.directory_location@, av.take(k as int)).push((p.directory_location@, a@)));
                        assert(arows@.map_values(|a: InstalledPluginAgentRow| (a.plugin_directory_location@, plugin_agent_of_row(a)))
                            =~= ab.map_values(|a: InstalledPluginAgentRow| (a.plugin_directory_location@, plugin_agent_of_row(a))).push((p.directory_location@, a@)));
                    }
                    k = k + 1;
                }
                assert(av.take(p.agents.len() as int) =~= av);
                j = j + 1;
            }
            proof {
                assert(pv.take(m.plugins.len() as int) =~= pv);
                lemma_entries_push(mv.take(i as int), m@);
            }
            i = i + 1;
        }
        assert(mv.take(marketplaces.len() as int) =~= mv);
        assert forall|k: int| 0 <= k < mv.len() implies marketplace_row_matches(
            #[trigger] mrows@[k],
            mv[k],
        ) by {
            assert(mv[k] == marketplaces@[k]@);
        }
        InstalledRows { marketplaces: mrows, plugins: prows, skills: srows, agents: arows }
    }
}

/// Items tagged with a directory.
pub open spec fn tag_dir<V>(dir: Seq<char>, s: Seq<V>) -> Seq<(Seq<char>, V)> {
    s.map_values(|v: V| (dir, v))
}

/// The plugin entries (marketplace directory, name, directory) of plugins.
pub open spec fn plugin_entries_of(mdir: Seq<char>, ps: Seq<PluginView>) -> Seq<(Seq<char>, Seq<char>, Seq<char>)> {
    ps.map_values(|p: PluginView| (mdir, p.name, p.directory_location))
}

/// The skills of plugins, each tagged with its plugin's directory, in order.
pub open spec fn skill_entries_of(ps: Seq<PluginView>) -> Seq<(Seq<char>, SkillView)>
    decreases ps.len(),
{
    if ps.len() == 0 {
        Seq::empty()
    } else {
        skill_entries_of(ps.drop_last()) + tag_dir(ps.last().directory_location, ps.last().skills)
    }
}

/// The agents of plugins, each tagged with its plugin's directory, in order.
pub open spec fn agent_entries_of(ps: Seq<PluginView>) -> Seq<(Seq<char>, PluginAgentView)>
    decreases ps.len(),
{
    if ps.len() == 0 {
        Seq::empty()
    } else {
        agent_entries_of(ps.drop_last()) + tag_dir(ps.last().directory_location, ps.last().agents)
    }
}

/// The plugin entries of an inventory, in order.
pub open spec fn plugin_entries(ms: Seq<InstalledMarketplaceView>) -> Seq<(Seq<char>, Seq<char>, Seq<char>)>
    decreases ms.len(),
{
    if ms.len() == 0 {
        Seq::empty()
    } else {
        plugin_entries(ms.drop_last()) + plugin_entries_of(ms.last().directory_location, ms.last().plugins)
    }
}

/// The skill entries of an inventory, in order.
pub open spec fn skill_entries(ms: Seq<InstalledMarketplaceView>) -> Seq<(Seq<char>, SkillView)>
    decreases ms.len(),
{
    if ms.len() == 0 {
        Seq::empty()
    } else {
        skill_entries(ms.drop_last()) + skill_entries_of(ms.last().plugins)
    }
}

/// The agent entries of an inventory, in order.
pub open spec fn agent_entries(ms: Seq<InstalledMarketplaceView>) -> Seq<(Seq<char>, PluginAgentView)>
    decreases ms.len(),
{
    if ms.len() == 0 {
        Seq::empty()
    } else {
        agent_entries(ms.drop_last()) + agent_entries_of(ms.last().plugins)
    }
}

proof fn lemma_plugin_entries_of_push(mdir: Seq<char>, ps: Seq<PluginView>, p: PluginView)
    ensures
        plugin_entries_of(mdir, ps.push(p)) == plugin_entries_of(mdir, ps).push((mdir, p.name, p.directory_location)),
{
    assert(plugin_entries_of(mdir, ps.push(p)) =~= plugin_entries_of(mdir, ps).push((mdir, p.name, p.directory_location)));
}

proof fn lemma_skill_entries_of_push(ps: Seq<PluginView>, p: PluginView)
    ensures
        skill_entries_of(ps.push(p)) == skill_entries_of(ps) + tag_dir(p.directory_location, p.skills),
{
    assert(ps.push(p).drop_last() =~= ps);
}

proof fn lemma_agent_entries_of_push(ps: Seq<PluginView>, p: PluginView)
    ensures
        agent_entries_of(ps.push(p)) == agent_entries_of(ps) + tag_dir(p.directory_location, p.agents),
{
    assert(ps.push(p).drop_last() =~= ps);
}

proof fn lemma_entries_push(ms: Seq<InstalledMarketplaceView>, m: InstalledMarketplaceView)
    ensures
        plugin_entries(ms.push(m)) == plugin_entries(ms) + plugin_entries_of(m.directory_location, m.plugins),
        skill_entries(ms.push(m)) == skill_entries(ms) + skill_entries_of(m.plugins),
        agent_entries(ms.push(m)) == agent_entries(ms) + agent_entries_of(m.plugins),
{
    assert(ms.push(m).drop_last() =~= ms);
}


/// The plugins that the rows at `idx` stand for, as `assemble_plugins`
/// says; `used` gains their directories.
fn assemble_plugins_exec(
    rows: &Vec<InstalledPluginRow>,
    idx: &Vec<usize>,
    used: &mut Vec<String>,
    skills: &Vec<InstalledSkillRow>,
    agents: &Vec<InstalledPluginAgentRow>,
) -> (out: Vec<InstalledPluginRecord>)
    requires
        forall|j: int| 0 <= j < idx@.len() ==> #[trigger] idx@[j] < rows@.len(),
    ensures
        out@.map_values(|p: InstalledPluginRecord| p@) == assemble_plugins(
            idx@.map_values(|k: usize| rows@[k as int]),
            texts(old(used)@),
            skills@,
            agents@,
        ),
        texts(final(used)@) == texts(old(used)@) + plugin_dirs(
            idx@.map_values(|k: usize| rows@[k as int]),
        ),
{
    let ghost ps = idx@.map_values(|k: usize| rows@[k as int]);
    let ghost u0 = texts(used@);
    let mut out: Vec<InstalledPluginRecord> = Vec::new();
    let mut j: usize = 0;
    assert(ps.skip(0) =~= ps);
    assert(ps.take(0) =~= Seq::<InstalledPluginRow>::empty());
    assert(u0 + plugin_dirs(ps.take(0)) =~= u0);
    assert(out@.map_values(|p: InstalledPluginRecord| p@) + assemble_plugins(ps, u0, skills@, agents@)
        =~= assemble_plugins(ps, u0, skills@, agents@));
    while j < idx.len()
        invariant
            j <= idx.len(),
            ps == idx@.map_values(|k: usize| rows@[k as int]),
            forall|q: int| 0 <= q < idx@.len() ==> #[trigger] idx@[q] < rows@.len(),
            texts(used@) == u0 + plugin_dirs(ps.take(j as int)),
            out@.map_values(|p: InstalledPluginRecord| p@) + assemble_plugins(
                ps.skip(j as int),
                texts(used@),
                skills@,
                agents@,
            ) == assemble_plugins(ps, u0, skills@, agents@),
        decreases idx.len() - j,
    {
        let r = &rows[idx[j]];
        assert(*r == ps[j as int]);
        let fresh = !contains_text(used, &r.plugin_directory_location);
        let (sk, ag) = if fresh {
            (
                skills_under_exec(skills, &r.plugin_directory_location),
                agents_under_exec(agents, &r.plugin_directory_location),
            )
        } else {
            let e1: Vec<InstalledSkillRecord> = Vec::new();
            let e2: Vec<InstalledPluginAgentRecord> = Vec::new();
            assert(e1@.map_values(|s: InstalledSkillRecord| s@) =~= Seq::<SkillView>::empty());
            assert(e2@.map_values(|a: InstalledPluginAgentRecord| a@) =~= Seq::<PluginAgentView>::empty());
            (e1, e2)
        };
        let rec = InstalledPluginRecord {
            name: r.plugin_name.clone(),
            directory_location: r.plugin_directory_location.clone(),
            skills: sk,
            agents: ag,
        };
        let ghost before = out@;
        let ghost ub = texts(used@);
        let ghost rest = assemble_plugins(ps.skip(j + 1), ub.push(r.plugin_directory_location@), skills@, agents@);
        proof {
            let t = ps.skip(j as int);
            assert(t[0] == ps[j as int]);
            assert(t.drop_first() =~= ps.skip(j + 1));
            assert(assemble_plugins(t, ub, skills@, agents@) == seq![rec@] + rest);
        }
        out.push(rec);
        used.push(r.plugin_directory_location.clone());
        proof {
            assert(out@.map_values(|p: InstalledPluginRecord| p@) =~= before.map_values(
                |p: InstalledPluginRecord| p@,
            ).push(rec@));
            assert(out@.map_values(|p: InstalledPluginRecord| p@) + rest =~= before.map_values(
                |p: InstalledPluginRecord| p@,
            ) + (seq![rec@] + rest));
            assert(texts(used@) =~= ub.push(r.plugin_directory_location@));
            assert(ps.take(j + 1) =~= ps.take(j as int).push(ps[j as int]));
            assert(plugin_dirs(ps.take(j + 1)) =~= plugin_dirs(ps.take(j as int)).push(
                ps[j as int].plugin_directory_location@,
            ));
            assert(u0 + plugin_dirs(ps.take(j + 1)) =~= (u0 + plugin_dirs(ps.take(j as int))).push(
                ps[j as int].plugin_directory_location@,
            ));
        }
        j = j + 1;
    }
    proof {
        assert(ps.take(idx.len() as int) =~= ps);
        assert(ps.skip(idx.len() as int) =~= Seq::<InstalledPluginRow>::empty());
        assert(out@.map_values(|p: InstalledPluginRecord| p@) + assemble_plugins(
            ps.skip(idx.len() as int),
            texts(used@),
            skills@,
            agents@,
        ) =~= out@.map_values(|p: InstalledPluginRecord| p@));
    }
    out
}

impl AppState {
    /// The stored inventory, read back from its rows, with the state of the
    /// last scan, or `default_scan_root` and nothing else where no scan was
    /// stored. Each marketplace gets the plugins stored under its directory
    /// and each plugin the skills and agents stored under its own, in row
    /// order; rows under a directory that an earlier marketplace or plugin
    /// already took are not given out twice.
    pub fn load_installed_marketplaces_state(
        &self,
        rows: InstalledRows,
        scan_state: Option<ScanStateRow>,
        default_scan_root: String,
    ) -> (st: InstalledMarketplacesState)
        ensures
            st.marketplaces@.map_values(|m: InstalledMarketplaceRecord| m@) == inventory_of_rows(rows),
            match scan_state {
                Some(s) => st.scan_root@ == s.scan_root@ && opt_view(st.refreshed_at) == opt_view(
                    s.refreshed_at,
                ) && opt_view(st.error_message) == opt_view(s.error_message),
                None => st.scan_root@ == default_scan_root@ && st.refreshed_at is None
                    && st.error_message is None,
            },
    {
        let ghost ms = rows.marketplaces@;
        let ghost target = inventory_of_rows(rows);
        let mut used_m: Vec<String> = Vec::new();
        let mut used_p: Vec<String> = Vec::new();
        let mut out: Vec<InstalledMarketplaceRecord> = Vec::new();
        let mut i: usize = 0;
        assert(ms.skip(0) =~= ms);
        assert(texts(used_m@) =~= Seq::<Seq<char>>::empty());
        assert(texts(used_p@) =~= Seq::<Seq<char>>::empty());
        assert(out@.map_values(|m: InstalledMarketplaceRecord| m@) + target =~= target);
        while i < rows.marketplaces.len()
            invariant
                i <= rows.marketplaces.len(),
                ms == rows.marketplaces@,
                target == inventory_of_rows(rows),
                out@.map_values(|m: InstalledMarketplaceRecord| m@) + assemble_marketplaces(
                    ms.skip(i as int),
                    texts(used_m@),
                    texts(used_p@),
                    rows.plugins@,
                    rows.skills@,
                    rows.agents@,
                ) == target,
            decreases rows.marketplaces.len() - i,
        {
            let m = &rows.marketplaces[i];
            let taken = contains_text(&used_m, &m.directory_location);
            let idx = if taken {
                let e: Vec<usize> = Vec::new();
                assert(e@.map_values(|k: usize| rows.plugins@[k as int]) =~= Seq::<InstalledPluginRow>::empty());
                e
            } else {
                plugin_rows_under(&rows.plugins, &m.directory_location)
            };
            let ghost ps = idx@.map_values(|k: usize| rows.plugins@[k as int]);
            let ghost um = texts(used_m@);
            let ghost up = texts(used_p@);
            let plugins = assemble_plugins_exec(&rows.plugins, &idx, &mut used_p, &rows.skills, &rows.agents);
            let rec = InstalledMarketplaceRecord {
                id: m.marketplace_id.clone(),
                name: m.marketplace_name.clone(),
                directory_location: m.directory_location.clone(),
                repository: copy_opt(&m.repository),
                trust_status: Self::trust_status_from_str(m.trust_status.as_str()),
                plugins,
            };
            let ghost before = out@;
            let ghost rest = assemble_marketplaces(
                ms.skip(i + 1),
                um.push(m.directory_location@),
                up + plugin_dirs(ps),
                rows.plugins@,
                rows.skills@,
                rows.agents@,
            );
            proof {
                let t = ms.skip(i as int);
                assert(t[0] == ms[i as int]);
                assert(t.drop_first() =~= ms.skip(i + 1));
                assert(rec@ =~= InstalledMarketplaceView {
                    id: m.marketplace_id@,
                    name: m.marketplace_name@,
                    directory_location: m.directory_location@,
                    repository: opt_view(m.repository),
                    trust_status: status_of_label(m.trust_status@),
                    plugins: assemble_plugins(ps, up, rows.skills@, rows.agents@),
                });
                assert(assemble_marketplaces(t, um, up, rows.plugins@, rows.skills@, rows.agents@)
                    == seq![rec@] + rest);
            }
            out.push(rec);
            used_m.push(m.directory_location.clone());
            proof {
                assert(out@.map_values(|m: InstalledMarketplaceRecord| m@) =~= before.map_values(
                    |m: InstalledMarketplaceRecord| m@,
                ).push(rec@));
                assert(out@.map_values(|m: InstalledMarketplaceRecord| m@) + rest =~= before.map_values(
                    |m: InstalledMarketplaceRecord| m@,
                ) + (seq![rec@] + rest));
                assert(texts(used_m@) =~= um.push(m.directory_location@));
            }
            i = i + 1;
        }
        proof {
            assert(ms.skip(rows.marketplaces.len() as int) =~= Seq::<InstalledMarketplaceRow>::empty());
            assert(out@.map_values(|m: InstalledMarketplaceRecord| m@) + assemble_marketplaces(
                ms.skip(rows.marketplaces.len() as int),
                texts(used_m@),
                texts(used_p@),
                rows.plugins@,
                rows.skills@,
                rows.agents@,
            ) =~= out@.map_values(|m: InstalledMarketplaceRecord| m@));
        }
        match scan_state {
            Some(s) => InstalledMarketplacesState {
                marketplaces: out,
                scan_root: s.scan_root,
                refreshed_at: s.refreshed_at,
                error_message: s.error_message,
            },
            None => InstalledMarketplacesState {
                marketplaces: out,
                scan_root: default_scan_root,
                refreshed_at: None,
                error_message: None,
            },
        }
    }
}


impl AppState {
    /// The outcome of a refresh of the installed marketplaces, given where
    /// the plugin folder is (or why it is unknown, in which case
    /// `default_root` is recorded as scanned and `collected` is not looked
    /// at), what the scan collected, the stored scan state, and the time of
    /// the refresh. A failure is recorded with its message and keeps the
    /// time of the last successful scan; a success replaces the stored
    /// inventory.
    pub fn refresh_installed_marketplaces(
        &self,
        root: Result<String, TupiError>,
        default_root: String,
        collected: Result<Vec<InstalledMarketplaceRecord>, TupiError>,
        previous: Option<ScanStateRow>,
        refreshed_at: String,
    ) -> (out: ScanRefresh<InstalledMarketplacesState, InstalledRows>)
        ensures
            match (root, collected) {
                (Err(e), _) => failed_refresh(out, e, default_root@, previous),
                (Ok(r), Err(e)) => failed_refresh(out, e, r@, previous),
                (Ok(r), Ok(ms)) => {
                    &&& out.result matches Ok(st)
                    &&& st.marketplaces@.map_values(|m: InstalledMarketplaceRecord| m@)
                        == ms@.map_values(|m: InstalledMarketplaceRecord| m@)
                    &&& st.scan_root@ == r@
                    &&& opt_view(st.refreshed_at) == Some(refreshed_at@)
                    &&& st.error_message is None
                    &&& out.rows matches Some(rows)
                    &&& stores_inventory(rows, ms@.map_values(|m: InstalledMarketplaceRecord| m@))
                    &&& succeeded_scan(out.scan_state, r@, refreshed_at@)
                },
            },
    {
        match root {
            Err(e) => {
                let msg = e.message();
                ScanRefresh {
                    scan_state: ScanStateRow::after_failure(previous, default_root, msg),
                    rows: None,
                    result: Err(e),
                }
            },
            Ok(r) => match collected {
                Err(e) => {
                    let msg = e.message();
                    ScanRefresh {
                        scan_state: ScanStateRow::after_failure(previous, r, msg),
                        rows: None,
                        result: Err(e),
                    }
                },
                Ok(ms) => {
                    let rows = Self::installed_marketplace_rows(&ms);
                    let scan_state = ScanStateRow::after_success(r.clone(), refreshed_at.clone());
                    ScanRefresh {
                        scan_state,
                        rows: Some(rows),
                        result: Ok(
                            InstalledMarketplacesState {
                                marketplaces: ms,
                                scan_root: r,
                                refreshed_at: Some(refreshed_at),
                                error_message: None,
                            },
                        ),
                    }
                },
            },
        }
    }
}


/// The trusted catalog marketplaces, or none where the catalog could not be
/// read: an installed marketplace is then never trusted.
pub open spec fn trusted_marketplaces(trusted: Result<Vec<Marketplace>, TupiError>) -> Seq<Marketplace> {
    match trusted {
        Ok(t) => t@,
        Err(_) => Seq::empty(),
    }
}

proof fn lemma_untrusted_without_catalog(items: Seq<ScanItem<MarketplaceListing>>)
    requires
        fold_scan(items, marketplace_step(Seq::empty())) is Ok,
    ensures
        forall|i: int|
            0 <= i < fold_scan(items, marketplace_step(Seq::empty()))->Ok_0.len() ==> (
            #[trigger] fold_scan(items, marketplace_step(Seq::empty()))->Ok_0[i]).trust_status
                == TrustStatus::Untrusted,
    decreases items.len(),
{
    if items.len() > 0 {
        lemma_untrusted_without_catalog(items.drop_last());
        let found = fold_scan(items.drop_last(), marketplace_step(Seq::empty()))->Ok_0;
        let r = fold_scan(items, marketplace_step(Seq::empty()))->Ok_0;
        assert forall|i: int| 0 <= i < r.len() implies (#[trigger] r[i]).trust_status
            == TrustStatus::Untrusted by {
            if i < found.len() {
                assert(r[i] == found[i]);
            }
        }
    }
}

impl AppState {
    /// The installed marketplaces under the plugin folder `root`, given
    /// whether it exists and is a folder, what the walk of it met, and the
    /// catalog marketplaces (or the error met reading the catalog, in which
    /// case no marketplace is trusted). A missing folder holds none; a path
    /// that is not a folder is an error; otherwise see
    /// `collect_walked_installed_marketplaces`.
    pub fn collect_installed_marketplaces(
        root: &str,
        root_exists: bool,
        root_is_dir: bool,
        items: &Vec<ScanItem<MarketplaceListing>>,
        trusted: &Result<Vec<Marketplace>, TupiError>,
    ) -> (r: Result<Vec<InstalledMarketplaceRecord>, TupiError>)
        ensures
            !root_exists ==> (r matches Ok(out) && out.len() == 0),
            root_exists && !root_is_dir ==> (r matches Err(e) && e@ == (
                ErrorKind::PluginRead,
                root@ + " is not a directory"@,
            )),
            root_exists && root_is_dir ==> list_outcome_is(
                r,
                installed_marketplaces_of(items@, trusted_marketplaces(*trusted)),
            ),
            trusted is Err ==> (r matches Ok(out) ==> forall|i: int|
                0 <= i < out.len() ==> (#[trigger] out@[i]).trust_status == TrustStatus::Untrusted),
    {
        if !Self::check_scan_root(root, root_exists, root_is_dir, ErrorKind::PluginRead)? {
            return Ok(Vec::new());
        }
        let none: Vec<Marketplace> = Vec::new();
        let catalog = match trusted {
            Ok(t) => t,
            Err(_) => &none,
        };
        let r = Self::collect_walked_installed_marketplaces(items, catalog);
        proof {
            if trusted is Err && r is Ok {
                broadcast use vstd::seq_lib::group_to_multiset_ensures;

                let out = r->Ok_0;
                assert(none@ =~= Seq::<Marketplace>::empty());
                let found = fold_scan(items@, marketplace_step(Seq::empty()))->Ok_0;
                lemma_untrusted_without_catalog(items@);
                crate::order::lemma_sort_by_key_sorted_permutation(
                    found,
                    |v: InstalledMarketplaceView| InstalledMarketplaceRecord::view_key(v),
                );
                let sorted = crate::order::sort_by_key(
                    found,
                    |v: InstalledMarketplaceView| InstalledMarketplaceRecord::view_key(v),
                );
                assert forall|i: int| 0 <= i < out.len() implies (#[trigger] out@[i]).trust_status
                    == TrustStatus::Untrusted by {
                    assert(out@.map_values(|x: InstalledMarketplaceRecord| x@)[i] == sorted[i]);
                    assert(sorted.to_multiset().count(sorted[i]) > 0);
                    assert(found.contains(sorted[i]));
                    let j = choose|j: int| 0 <= j < found.len() && found[j] == sorted[i];
                    assert(found[j].trust_status == TrustStatus::Untrusted);
                }
            }
        }
        r
    }
}

} // verus!
