//! The catalog in force: the cached copy of the last refresh, or the
//! catalog file of the workspace; where refreshes come from; and the
//! columns that older databases lack.
use vstd::prelude::*;

use super::{copy_opt, join_path, normalized_text, opt_view, path_join, AppState, CatalogState,
    RefreshRecord};
use crate::catalog::{accept_parsed_catalog, asset_count, catalog_problem, summarize,
    CatalogSummary, TrustedCatalog};
use crate::error::{ErrorKind, TupiError};
use crate::text::{blank, is_blank, joined3, owned, text_eq};
use crate::trust::{lemma_label_round_trip, status_label, status_of_label, TrustStatus};

verus! {

// ---------------------------------------------------------------------------
// Where refreshes come from
// ---------------------------------------------------------------------------

/// The branch that catalog refreshes use: the configured one, trimmed, or
/// `main` where none is configured.
pub open spec fn branch_for(configured: Option<Seq<char>>) -> Seq<char> {
    match normalized_text(configured) {
        Some(b) => b,
        None => "main"@,
    }
}

/// Where a catalog refresh reads from: a repository, or the active catalog
/// where none is configured, and a branch.
#[derive(Debug)]
pub struct CatalogSource {
    pub repository: Option<String>,
    pub branch: String,
}

impl AppState {
    /// The repository that catalog refreshes clone, from the configured
    /// value (`TUPI_CATALOG_REPOSITORY`): trimmed, and absent where blank.
    pub fn source_repository(&self, configured: Option<String>) -> (r: Option<String>)
        ensures
            opt_view(r) == normalized_text(opt_view(configured)),
    {
        Self::normalize_optional_text(configured)
    }

    /// The branch that catalog refreshes use, from the configured value
    /// (`TUPI_CATALOG_BRANCH`): trimmed, or `main` where blank or absent.
    pub fn source_branch(&self, configured: Option<String>) -> (r: String)
        ensures
            r@ == branch_for(opt_view(configured)),
    {
        match Self::normalize_optional_text(configured) {
            Some(b) => b,
            None => owned("main"),
        }
    }

    /// Where a catalog refresh reads from, given the configured repository
    /// and branch; a refresh must target `main`.
    pub fn catalog_refresh_source(
        &self,
        configured_repository: Option<String>,
        configured_branch: Option<String>,
    ) -> (r: Result<CatalogSource, TupiError>)
        ensures
            branch_for(opt_view(configured_branch)) == "main"@ ==> (r matches Ok(s) && opt_view(
                s.repository,
            ) == normalized_text(opt_view(configured_repository)) && s.branch@ == "main"@),
            branch_for(opt_view(configured_branch)) != "main"@ ==> (r matches Err(e) && e@ == (
                ErrorKind::CatalogValidation,
                "catalog refresh must target main"@,
            )),
    {
        let repository = self.source_repository(configured_repository);
        let branch = self.source_branch(configured_branch);
        proof {
            reveal_strlit("main");
        }
        if !text_eq(branch.as_str(), "main") {
            return Err(TupiError::CatalogValidation(owned("catalog refresh must target main")));
        }
        Ok(CatalogSource { repository, branch })
    }

    /// The record of a refresh that read `parsed` from `source` at
    /// `refreshed_at`: the parsed catalog must pass the catalog rules, and
    /// is then trusted.
    pub fn catalog_refresh_record(
        &self,
        parsed: Result<TrustedCatalog, String>,
        source: CatalogSource,
        refreshed_at: String,
    ) -> (r: Result<RefreshRecord, TupiError>)
        requires
            parsed matches Ok(c) ==> asset_count(c) <= usize::MAX,
        ensures
            match parsed {
                Err(msg) => r matches Err(e) && e@ == (ErrorKind::CatalogParse, msg@),
                Ok(c) => match catalog_problem(c) {
                    Some(p) => r matches Err(e) && e@ == p,
                    None => r matches Ok(rec) && rec.summary.version == c.version
                        && rec.summary.catalog_revision@ == c.catalog_revision@
                        && rec.summary.marketplaces == c.marketplaces@.len()
                        && rec.summary.assets == asset_count(c)
                        && rec.trust_status == TrustStatus::Trusted
                        && opt_view(rec.source_repository) == opt_view(source.repository)
                        && rec.source_branch@ == source.branch@
                        && rec.refreshed_at@ == refreshed_at@,
                },
            },
    {
        let catalog = accept_parsed_catalog(parsed)?;
        let summary = summarize(&catalog);
        Ok(
            RefreshRecord {
                summary,
                trust_status: TrustStatus::Trusted,
                source_repository: source.repository,
                source_branch: source.branch,
                refreshed_at,
            },
        )
    }
}

// ---------------------------------------------------------------------------
// The catalog in force
// ---------------------------------------------------------------------------

/// The stored copy of the last refreshed catalog: its summary, as read
/// back, and the columns of its row.
#[derive(Debug)]
pub struct CachedCatalogRow {
    pub summary: CatalogSummary,
    pub trust_status: String,
    pub source_repository: Option<String>,
    pub source_branch: String,
    pub refreshed_at: String,
    pub stale: i64,
}

/// What was found of the catalog in force: the cached copy of the last
/// refresh, or else the active catalog as parsed, or the error met reading
/// it.
#[derive(Debug)]
pub enum StoredCatalog {
    Cached(CachedCatalogRow),
    Active(Result<TrustedCatalog, String>),
    Unreadable(TupiError),
}

/// Whether a state is the one that a cached row stands for.
pub open spec fn cached_state_is(st: CatalogState, row: CachedCatalogRow) -> bool {
    &&& st.summary == row.summary
    &&& st.trust_status == status_of_label(row.trust_status@)
    &&& opt_view(st.source_repository) == opt_view(row.source_repository)
    &&& st.source_branch@ == row.source_branch@
    &&& opt_view(st.refreshed_at) == Some(row.refreshed_at@)
    &&& st.stale == (row.stale != 0)
}

/// Whether a state is the one of an active catalog that was never
/// refreshed: trusted, stale, with the configured source.
pub open spec fn active_state_is(
    st: CatalogState,
    c: TrustedCatalog,
    configured_repository: Option<Seq<char>>,
    configured_branch: Option<Seq<char>>,
) -> bool {
    &&& st.summary.version == c.version
    &&& st.summary.catalog_revision@ == c.catalog_revision@
    &&& st.summary.marketplaces == c.marketplaces@.len()
    &&& st.summary.assets == asset_count(c)
    &&& st.trust_status == TrustStatus::Trusted
    &&& opt_view(st.source_repository) == normalized_text(configured_repository)
    &&& st.source_branch@ == branch_for(configured_branch)
    &&& st.refreshed_at is None
    &&& st.stale
}

/// The cached row that a successful refresh stores: the refresh's summary,
/// trust status label, source and time, not stale.
pub open spec fn cached_row_is(row: CachedCatalogRow, record: RefreshRecord) -> bool {
    &&& row.summary == record.summary
    &&& row.trust_status@ == status_label(record.trust_status)
    &&& opt_view(row.source_repository) == opt_view(record.source_repository)
    &&& row.source_branch@ == record.source_branch@
    &&& row.refreshed_at@ == record.refreshed_at@
    &&& row.stale == 0
}

impl AppState {
    /// The row that caches the catalog of a successful refresh.
    pub fn cache_row_of(record: &RefreshRecord) -> (row: CachedCatalogRow)
        ensures
            cached_row_is(row, *record),
    {
        CachedCatalogRow {
            summary: record.summary.duplicate(),
            trust_status: owned(Self::trust_status_label(&record.trust_status)),
            source_repository: copy_opt(&record.source_repository),
            source_branch: record.source_branch.clone(),
            refreshed_at: record.refreshed_at.clone(),
            stale: 0,
        }
    }
}

/// Loading after a successful refresh gives back that refresh: the state
/// read from the row it cached has the refresh's summary, trust status,
/// source and time, and is not stale.
pub proof fn lemma_catalog_refresh_then_load(record: RefreshRecord, row: CachedCatalogRow, st: CatalogState)
    requires
        cached_row_is(row, record),
        cached_state_is(st, row),
    ensures
        st.summary == record.summary,
        st.trust_status == record.trust_status,
        opt_view(st.source_repository) == opt_view(record.source_repository),
        st.source_branch@ == record.source_branch@,
        opt_view(st.refreshed_at) == Some(record.refreshed_at@),
        !st.stale,
{
    lemma_label_round_trip(record.trust_status);
}

/// A catalog whose summary can be counted.
pub open spec fn countable(stored: StoredCatalog) -> bool {
    stored matches StoredCatalog::Active(Ok(c)) ==> asset_count(c) <= usize::MAX
}

impl AppState {
    /// The state that a cached row stands for.
    pub fn cached_catalog_state(row: CachedCatalogRow) -> (st: CatalogState)
        ensures
            cached_state_is(st, row),
    {
        let trust_status = Self::trust_status_from_str(row.trust_status.as_str());
        CatalogState {
            summary: row.summary,
            trust_status,
            source_repository: row.source_repository,
            source_branch: row.source_branch,
            refreshed_at: Some(row.refreshed_at),
            stale: row.stale != 0,
        }
    }

    /// The cached catalog text, where one is stored and is not blank.
    pub fn cached_catalog_yaml(value: Option<String>) -> (r: Option<String>)
        ensures
            match value {
                Some(v) => if blank(v@) {
                    r is None
                } else {
                    opt_view(r) == Some(v@)
                },
                None => r is None,
            },
    {
        match value {
            Some(v) => if is_blank(v.as_str()) {
                None
            } else {
                Some(v)
            },
            None => None,
        }
    }

    /// The error for a catalog file that could not be read.
    pub fn catalog_read_error(&self, cause: &str) -> (e: TupiError)
        ensures
            e@ == (ErrorKind::CatalogRead, self.catalog_path@ + " ("@ + cause@ + ")"@),
    {
        let msg = joined3(self.catalog_path.as_str(), " (", crate::text::joined(cause, ")").as_str());
        assert(msg@ =~= self.catalog_path@ + " ("@ + cause@ + ")"@);
        TupiError::CatalogRead(msg)
    }

    /// The catalog in force: the cached copy of the last refresh where there
    /// is one; else the active catalog, which must parse and pass the
    /// catalog rules, trusted but stale, with the configured source.
    pub fn load_catalog_state(
        &self,
        stored: StoredCatalog,
        configured_repository: Option<String>,
        configured_branch: Option<String>,
    ) -> (r: Result<CatalogState, TupiError>)
        requires
            countable(stored),
        ensures
            match stored {
                StoredCatalog::Cached(row) => r matches Ok(st) && cached_state_is(st, row),
                StoredCatalog::Unreadable(e) => r matches Err(x) && x@ == e@,
                StoredCatalog::Active(Err(msg)) => r matches Err(x) && x@ == (
                    ErrorKind::CatalogParse,
                    msg@,
                ),
                StoredCatalog::Active(Ok(c)) => match catalog_problem(c) {
                    Some(p) => r matches Err(x) && x@ == p,
                    None => r matches Ok(st) && active_state_is(
                        st,
                        c,
                        opt_view(configured_repository),
                        opt_view(configured_branch),
                    ),
                },
            },
    {
        match stored {
            StoredCatalog::Cached(row) => Ok(Self::cached_catalog_state(row)),
            StoredCatalog::Unreadable(e) => Err(e),
            StoredCatalog::Active(parsed) => {
                let catalog = accept_parsed_catalog(parsed)?;
                let summary = summarize(&catalog);
                Ok(
                    CatalogState {
                        summary,
                        trust_status: TrustStatus::Trusted,
                        source_repository: self.source_repository(configured_repository),
                        source_branch: self.source_branch(configured_branch),
                        refreshed_at: None,
                        stale: true,
                    },
                )
            },
        }
    }

    /// The summary of the catalog in force; see `load_catalog_state`.
    pub fn load_catalog_summary(
        &self,
        stored: StoredCatalog,
        configured_repository: Option<String>,
        configured_branch: Option<String>,
    ) -> (r: Result<CatalogSummary, TupiError>)
        requires
            countable(stored),
        ensures
            match stored {
                StoredCatalog::Cached(row) => r == Ok::<CatalogSummary, TupiError>(row.summary),
                StoredCatalog::Unreadable(e) => r matches Err(x) && x@ == e@,
                StoredCatalog::Active(Err(msg)) => r matches Err(x) && x@ == (
                    ErrorKind::CatalogParse,
                    msg@,
                ),
                StoredCatalog::Active(Ok(c)) => match catalog_problem(c) {
                    Some(p) => r matches Err(x) && x@ == p,
                    None => r matches Ok(s) && s.version == c.version && s.catalog_revision@
                        == c.catalog_revision@ && s.marketplaces == c.marketplaces@.len()
                        && s.assets == asset_count(c),
                },
            },
    {
        let st = self.load_catalog_state(stored, configured_repository, configured_branch)?;
        Ok(st.summary)
    }
}

/// The cached row after a refresh failed: the same catalog, marked stale.
pub open spec fn marked_stale(row: CachedCatalogRow) -> CachedCatalogRow {
    CachedCatalogRow { stale: 1, ..row }
}

impl AppState {
    /// What a failed refresh leaves of the cache: the catalog cached before
    /// is kept and marked stale; where nothing was cached, nothing is.
    pub fn catalog_refresh_failed(cached: Option<CachedCatalogRow>) -> (r: Option<CachedCatalogRow>)
        ensures
            match cached {
                Some(row) => r == Some(marked_stale(row)),
                None => r is None,
            },
    {
        match cached {
            Some(row) => Some(CachedCatalogRow { stale: 1, ..row }),
            None => None,
        }
    }
}

/// A failed refresh keeps the catalog in force and marks it stale: loading
/// the state after it gives the summary cached before, marked stale.
pub proof fn lemma_failed_refresh_keeps_catalog(row: CachedCatalogRow, st: CatalogState)
    requires
        cached_state_is(st, marked_stale(row)),
    ensures
        st.summary == row.summary,
        st.stale,
        st.trust_status == status_of_label(row.trust_status@),
        opt_view(st.refreshed_at) == Some(row.refreshed_at@),
{
}

// ---------------------------------------------------------------------------
// Columns that older databases lack
// ---------------------------------------------------------------------------

/// A column that a table must have, and the statement that adds it.
pub open spec fn needed_column(
    columns: Seq<Seq<char>>,
    name: Seq<char>,
    statement: Seq<char>,
) -> Seq<Seq<char>> {
    if columns.contains(name) {
        Seq::empty()
    } else {
        seq![statement]
    }
}

/// The statements that add the columns the catalog cache lacks, in order.
pub open spec fn cache_migrations(columns: Seq<Seq<char>>) -> Seq<Seq<char>> {
    needed_column(
        columns,
        "catalog_yaml"@,
        "ALTER TABLE catalog_cache ADD COLUMN catalog_yaml TEXT NOT NULL DEFAULT ''"@,
    ) + needed_column(
        columns,
        "source_repository"@,
        "ALTER TABLE catalog_cache ADD COLUMN source_repository TEXT"@,
    ) + needed_column(
        columns,
        "source_branch"@,
        "ALTER TABLE catalog_cache ADD COLUMN source_branch TEXT NOT NULL DEFAULT 'main'"@,
    ) + needed_column(
        columns,
        "stale"@,
        "ALTER TABLE catalog_cache ADD COLUMN stale INTEGER NOT NULL DEFAULT 0"@,
    )
}

/// The statements that add the columns the global agent tables lack, in
/// order: first those of the agents, then those of the scan state.
pub open spec fn global_agent_migrations(
    agent_columns: Seq<Seq<char>>,
    scan_columns: Seq<Seq<char>>,
) -> Seq<Seq<char>> {
    needed_column(
        agent_columns,
        "description"@,
        "ALTER TABLE global_agents ADD COLUMN description TEXT"@,
    ) + needed_column(
        agent_columns,
        "trust_status"@,
        "ALTER TABLE global_agents ADD COLUMN trust_status TEXT NOT NULL DEFAULT 'Untrusted'"@,
    ) + needed_column(
        scan_columns,
        "refreshed_at"@,
        "ALTER TABLE global_agent_scan_state ADD COLUMN refreshed_at TEXT"@,
    ) + needed_column(
        scan_columns,
        "error_message"@,
        "ALTER TABLE global_agent_scan_state ADD COLUMN error_message TEXT"@,
    )
}

/// The texts of strings.
pub open spec fn column_names(columns: Seq<String>) -> Seq<Seq<char>> {
    columns.map_values(|c: String| c@)
}

/// Whether `columns` names `name`.
fn has_column(columns: &Vec<String>, name: &str) -> (r: bool)
    ensures
        r == column_names(columns@).contains(name@),
{
    let ghost v = column_names(columns@);
    let mut i: usize = 0;
    while i < columns.len()
        invariant
            i <= columns.len(),
            v == column_names(columns@),
            forall|k: int| 0 <= k < i ==> v[k] != name@,
        decreases columns.len() - i,
    {
        if text_eq(columns[i].as_str(), name) {
            assert(v[i as int] == name@);
            return true;
        }
        i = i + 1;
    }
    false
}

/// Adds `statement` to `out` unless `columns` names `name`.
fn add_if_missing(out: &mut Vec<String>, columns: &Vec<String>, name: &str, statement: &str)
    ensures
        column_names(final(out)@) == column_names(old(out)@) + needed_column(
            column_names(columns@),
            name@,
            statement@,
        ),
{
    let ghost before = out@;
    if !has_column(columns, name) {
        out.push(owned(statement));
        assert(column_names(out@) =~= column_names(before) + seq![statement@]);
    } else {
        assert(column_names(out@) =~= column_names(before) + Seq::<Seq<char>>::empty());
    }
}

impl AppState {
    /// The statements to run on a catalog cache table that has the given
    /// columns, so that it has all the columns that the cache uses.
    pub fn cache_column_migrations(columns: &Vec<String>) -> (out: Vec<String>)
        ensures
            column_names(out@) == cache_migrations(column_names(columns@)),
    {
        let mut out: Vec<String> = Vec::new();
        assert(column_names(out@) =~= Seq::<Seq<char>>::empty());
        add_if_missing(
            &mut out,
            columns,
            "catalog_yaml",
            "ALTER TABLE catalog_cache ADD COLUMN catalog_yaml TEXT NOT NULL DEFAULT ''",
        );
        add_if_missing(
            &mut out,
            columns,
            "source_repository",
            "ALTER TABLE catalog_cache ADD COLUMN source_repository TEXT",
        );
        add_if_missing(
            &mut out,
            columns,
            "source_branch",
            "ALTER TABLE catalog_cache ADD COLUMN source_branch TEXT NOT NULL DEFAULT 'main'",
        );
        add_if_missing(
            &mut out,
            columns,
            "stale",
            "ALTER TABLE catalog_cache ADD COLUMN stale INTEGER NOT NULL DEFAULT 0",
        );
        assert(column_names(out@) =~= cache_migrations(column_names(columns@)));
        out
    }

    /// The statements to run on global agent tables that have the given
    /// columns, so that they have all the columns that the scan uses.
    pub fn global_agent_column_migrations(
        agent_columns: &Vec<String>,
        scan_columns: &Vec<String>,
    ) -> (out: Vec<String>)
        ensures
            column_names(out@) == global_agent_migrations(
                column_names(agent_columns@),
                column_names(scan_columns@),
            ),
    {
        let mut out: Vec<String> = Vec::new();
        assert(column_names(out@) =~= Seq::<Seq<char>>::empty());
        add_if_missing(
            &mut out,
            agent_columns,
            "description",
            "ALTER TABLE global_agents ADD COLUMN description TEXT",
        );
        add_if_missing(
            &mut out,
            agent_columns,
            "trust_status",
            "ALTER TABLE global_agents ADD COLUMN trust_status TEXT NOT NULL DEFAULT 'Untrusted'",
        );
        add_if_missing(
            &mut out,
            scan_columns,
            "refreshed_at",
            "ALTER TABLE global_agent_scan_state ADD COLUMN refreshed_at TEXT",
        );
        add_if_missing(
            &mut out,
            scan_columns,
            "error_message",
            "ALTER TABLE global_agent_scan_state ADD COLUMN error_message TEXT",
        );
        assert(column_names(out@) =~= global_agent_migrations(
            column_names(agent_columns@),
            column_names(scan_columns@),
        ));
        out
    }
}

// ---------------------------------------------------------------------------
// Folders
// ---------------------------------------------------------------------------

/// The `.copilot` folder under the user's home folder, or under the
/// current folder where the home folder is unknown.
pub open spec fn copilot_dir_for(home: Option<Seq<char>>) -> Seq<char> {
    match home {
        Some(h) => path_join(h, ".copilot"@),
        None => ".copilot"@,
    }
}

impl AppState {
    /// A folder under `~/.copilot`; not knowing the home folder is the
    /// error.
    pub fn resolve_copilot_child_dir(home: &Result<String, TupiError>, child: &str) -> (r: Result<
        String,
        TupiError,
    >)
        ensures
            match home {
                Ok(h) => r matches Ok(p) && p@ == path_join(path_join(h@, ".copilot"@), child@),
                Err(e) => r matches Err(x) && x@ == e@,
            },
    {
        match home {
            Ok(h) => {
                let dir = join_path(h.as_str(), ".copilot");
                Ok(join_path(dir.as_str(), child))
            },
            Err(e) => Err(super::global_agents::copy_error(e)),
        }
    }

    /// A folder under `~/.copilot`, or under `.copilot` in the current
    /// folder where the home folder is unknown.
    pub fn default_copilot_child_dir(home: &Result<String, TupiError>, child: &str) -> (p: String)
        ensures
            p@ == path_join(
                copilot_dir_for(
                    match home {
                        Ok(h) => Some(h@),
                        Err(_) => None,
                    },
                ),
                child@,
            ),
    {
        let dir = match home {
            Ok(h) => join_path(h.as_str(), ".copilot"),
            Err(_) => {
                proof {
                    reveal_strlit(".copilot");
                }
                owned(".copilot")
            },
        };
        join_path(dir.as_str(), child)
    }

    /// The folder of the user's global agents.
    pub fn resolve_global_agents_root(&self, home: &Result<String, TupiError>) -> (r: Result<
        String,
        TupiError,
    >)
        ensures
            match home {
                Ok(h) => r matches Ok(p) && p@ == path_join(path_join(h@, ".copilot"@), "agents"@),
                Err(e) => r matches Err(x) && x@ == e@,
            },
    {
        Self::resolve_copilot_child_dir(home, "agents")
    }

    /// The folder of the user's global agents, with a fallback.
    pub fn default_global_agents_root(&self, home: &Result<String, TupiError>) -> (p: String)
        ensures
            p@ == path_join(
                copilot_dir_for(
                    match home {
                        Ok(h) => Some(h@),
                        Err(_) => None,
                    },
                ),
                "agents"@,
            ),
    {
        Self::default_copilot_child_dir(home, "agents")
    }

    /// The folder of the installed plugins.
    pub fn resolve_installed_plugins_root(&self, home: &Result<String, TupiError>) -> (r: Result<
        String,
        TupiError,
    >)
        ensures
            match home {
                Ok(h) => r matches Ok(p) && p@ == path_join(
                    path_join(h@, ".copilot"@),
                    "installed-plugins"@,
                ),
                Err(e) => r matches Err(x) && x@ == e@,
            },
    {
        Self::resolve_copilot_child_dir(home, "installed-plugins")
    }

    /// The folder of the installed plugins, with a fallback.
    pub fn default_installed_plugins_root(&self, home: &Result<String, TupiError>) -> (p: String)
        ensures
            p@ == path_join(
                copilot_dir_for(
                    match home {
                        Ok(h) => Some(h@),
                        Err(_) => None,
                    },
                ),
                "installed-plugins"@,
            ),
    {
        Self::default_copilot_child_dir(home, "installed-plugins")
    }

    /// The local workspace of a repository: under the cache folder, in the
    /// folder of its kind, named by its sanitized key.
    pub fn repository_workspace(&self, namespace: &str, cache_key: &str) -> (p: String)
        ensures
            p@ == path_join(
                path_join(self.cache_dir@, namespace@),
                cache_key@.map_values(|c: char| super::cache_key_char(c)),
            ),
    {
        let dir = join_path(self.cache_dir.as_str(), namespace);
        let key = Self::sanitize_cache_key(cache_key);
        join_path(dir.as_str(), key.as_str())
    }

    /// The places where the file of a catalog agent listed at
    /// `catalog_path` may be, in the order in which they are tried: the path
    /// itself, with `.md`, with `.agent.md`, and where the path is a folder,
    /// its `README.md` and `README.agent.md`.
    pub fn catalog_agent_file_candidates(
        workspace: &str,
        catalog_path: &str,
        direct_is_dir: bool,
    ) -> (out: Vec<String>)
        ensures
            out@.map_values(|s: String| s@) == ({
                let direct = path_join(workspace@, catalog_path@);
                let base = seq![
                    direct,
                    path_join(workspace@, catalog_path@ + ".md"@),
                    path_join(workspace@, catalog_path@ + ".agent.md"@),
                ];
                if direct_is_dir {
                    base + seq![
                        path_join(direct, "README.md"@),
                        path_join(direct, "README.agent.md"@),
                    ]
                } else {
                    base
                }
            }),
    {
        let direct = join_path(workspace, catalog_path);
        let mut out: Vec<String> = Vec::new();
        out.push(direct.clone());
        out.push(join_path(workspace, crate::text::joined(catalog_path, ".md").as_str()));
        out.push(join_path(workspace, crate::text::joined(catalog_path, ".agent.md").as_str()));
        if direct_is_dir {
            out.push(join_path(direct.as_str(), "README.md"));
            out.push(join_path(direct.as_str(), "README.agent.md"));
        }
        assert(out@.map_values(|s: String| s@) =~= {
            let d = path_join(workspace@, catalog_path@);
            let base = seq![
                d,
                path_join(workspace@, catalog_path@ + ".md"@),
                path_join(workspace@, catalog_path@ + ".agent.md"@),
            ];
            if direct_is_dir {
                base + seq![path_join(d, "README.md"@), path_join(d, "README.agent.md"@)]
            } else {
                base
            }
        });
        out
    }
}


/// The columns named by the statements of a migration of the catalog cache.
pub open spec fn cache_columns() -> Seq<Seq<char>> {
    seq!["catalog_yaml"@, "source_repository"@, "source_branch"@, "stale"@]
}

/// The columns named by the statements of a migration of the global agent
/// tables: those of the agents, then those of the scan state.
pub open spec fn global_agent_columns() -> (Seq<Seq<char>>, Seq<Seq<char>>) {
    (seq!["description"@, "trust_status"@], seq!["refreshed_at"@, "error_message"@])
}

proof fn lemma_concat_holds(a: Seq<Seq<char>>, b: Seq<Seq<char>>, i: int)
    requires
        0 <= i < b.len(),
    ensures
        (a + b).contains(b[i]),
{
    assert((a + b)[a.len() + i] == b[i]);
}

/// Migrating the catalog cache once is enough: with the columns that the
/// statements add, nothing is left to add.
pub proof fn lemma_cache_migrations_complete(columns: Seq<Seq<char>>)
    ensures
        cache_migrations(columns + cache_columns()) == Seq::<Seq<char>>::empty(),
{
    let c = cache_columns();
    lemma_concat_holds(columns, c, 0);
    lemma_concat_holds(columns, c, 1);
    lemma_concat_holds(columns, c, 2);
    lemma_concat_holds(columns, c, 3);
    assert(cache_migrations(columns + c) =~= Seq::<Seq<char>>::empty());
}

/// Migrating the global agent tables once is enough: with the columns that
/// the statements add, nothing is left to add.
pub proof fn lemma_global_agent_migrations_complete(
    agent_columns: Seq<Seq<char>>,
    scan_columns: Seq<Seq<char>>,
)
    ensures
        global_agent_migrations(
            agent_columns + global_agent_columns().0,
            scan_columns + global_agent_columns().1,
        ) == Seq::<Seq<char>>::empty(),
{
    let (a, b) = global_agent_columns();
    lemma_concat_holds(agent_columns, a, 0);
    lemma_concat_holds(agent_columns, a, 1);
    lemma_concat_holds(scan_columns, b, 0);
    lemma_concat_holds(scan_columns, b, 1);
    assert(global_agent_migrations(agent_columns + a, scan_columns + b) =~= Seq::<
        Seq<char>,
    >::empty());
}

} // verus!
