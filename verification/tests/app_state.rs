use tupi::catalog::{CatalogSummary, Marketplace, TrustedCatalog};
use tupi::error::{ErrorKind, TupiError};
use tupi::profile::Profile;
use tupi::state::catalog_store::{CachedCatalogRow, CatalogSource, StoredCatalog};
use tupi::state::repo_sync::GitProgress;
use tupi::state::AppState;
use tupi::trust::TrustStatus;

fn state() -> AppState {
    AppState {
        db_path: String::from("/work/.tupi/state.sqlite"),
        catalog_path: String::from("/work/catalog/trusted-assets.yaml"),
        cache_dir: String::from("/work/.tupi/catalog-cache"),
    }
}

fn valid_catalog() -> TrustedCatalog {
    TrustedCatalog {
        version: 2,
        catalog_revision: "rev-9".into(),
        marketplaces: vec![Marketplace {
            id: "official".into(),
            name: "Official".into(),
            repository: "https://example.com/repo.git".into(),
            branch: "main".into(),
            revision: "abc".into(),
        }],
        agents: vec![],
        prompts: vec![],
        skills: vec![],
        instructions: vec![],
    }
}

#[test]
fn upsert_profile_generates_database_backed_id_and_optional_description() {
    let normalized = AppState::normalize_profile(Profile {
        id: String::new(),
        name: String::from(" myProject "),
        project_location: Some(String::from("  D:\\workspace\\myProject  ")),
        description: Some(String::from("  Example repo  ")),
        enabled: true,
        version: Some(String::from("1")),
        catalog_revision: Some(String::from("catalog-1")),
        selected_assets: vec![String::from(" writer "), String::new()],
    })
    .unwrap();
    assert!(normalized.id.is_empty());
    let saved = AppState::assign_profile_id(normalized, String::from("9f3c2a71d04e8b65"));

    assert!(!saved.id.is_empty());
    assert_eq!(saved.id, "9f3c2a71d04e8b65");
    assert_eq!(saved.name, "myProject");
    assert_eq!(saved.project_location.as_deref(), Some("D:\\workspace\\myProject"));
    assert_eq!(saved.description.as_deref(), Some("Example repo"));
    assert_eq!(saved.selected_assets, vec![String::from("writer")]);
    assert_eq!(saved.version.as_deref(), Some("1"));
    assert!(saved.enabled);
}

#[test]
fn rejects_profile_without_project_location() {
    let error = AppState::normalize_profile(Profile {
        id: String::new(),
        name: String::from("myProject"),
        project_location: None,
        description: None,
        enabled: true,
        version: Some(String::from("1")),
        catalog_revision: Some(String::from("catalog-1")),
        selected_assets: Vec::new(),
    })
    .unwrap_err();

    assert!(error.message().contains("project location is required"));
    assert_eq!(error.kind(), ErrorKind::ProfileValidation);
}

#[test]
fn rejects_profile_without_name_and_keeps_given_id() {
    let p = |name: &str, id: &str| Profile {
        id: id.into(),
        name: name.into(),
        project_location: Some("/p".into()),
        description: Some("   ".into()),
        enabled: false,
        version: None,
        catalog_revision: Some(" c ".into()),
        selected_assets: vec![],
    };
    let e = AppState::normalize_profile(p("   ", "x")).unwrap_err();
    assert_eq!(e.message(), "profile validation failed: project display name is required");
    let q = AppState::normalize_profile(p("n", "  id-1 ")).unwrap();
    assert_eq!(q.id, "id-1");
    assert_eq!(q.description, None);
    assert_eq!(q.catalog_revision.as_deref(), Some("c"));
    let again = AppState::normalize_profile(q).unwrap();
    assert_eq!(again.id, "id-1");
    assert_eq!(again.catalog_revision.as_deref(), Some("c"));
}

#[test]
fn trust_labels_round_trip() {
    for t in [TrustStatus::Trusted, TrustStatus::Untrusted, TrustStatus::Stale, TrustStatus::Invalid, TrustStatus::Missing] {
        let label = AppState::trust_status_label(&t);
        assert_eq!(AppState::trust_status_from_str(label), t);
    }
    assert_eq!(AppState::trust_status_label(&TrustStatus::Missing), "Missing");
    assert_eq!(AppState::trust_status_from_str("trusted"), TrustStatus::Untrusted);
}

#[test]
fn cache_keys_keep_only_safe_characters() {
    assert_eq!(AppState::sanitize_cache_key("awesome-copilot_1"), "awesome-copilot_1");
    assert_eq!(AppState::sanitize_cache_key("a b/c.é"), "a-b-c--");
}

#[test]
fn optional_texts_are_trimmed_or_dropped() {
    assert_eq!(AppState::normalize_optional_text(Some("  x ".into())).as_deref(), Some("x"));
    assert_eq!(AppState::normalize_optional_text(Some(" \t ".into())), None);
    assert_eq!(AppState::normalize_optional_text(None), None);
}

#[test]
fn workspace_display_name_is_the_folder_above_catalog() {
    assert_eq!(state().workspace_display_name(), "work");
    let s = AppState { db_path: String::new(), catalog_path: "trusted-assets.yaml".into(), cache_dir: String::new() };
    assert_eq!(s.workspace_display_name(), "Project");
    assert_eq!(state().project_profile_defaults().display_name, "work");
}

#[test]
fn home_folder_comes_from_the_first_set_variable() {
    let r = AppState::resolve_user_home_dir(Some(String::new()), Some("/home/u".into()), None, None).unwrap();
    assert_eq!(r, "/home/u");
    let r = AppState::resolve_user_home_dir(Some("C:\\Users\\u".into()), Some("/home/u".into()), None, None).unwrap();
    assert_eq!(r, "C:\\Users\\u");
    let r = AppState::resolve_user_home_dir(None, None, Some("/drive".into()), Some("users/u".into())).unwrap();
    assert_eq!(r, "/drive/users/u");
    let e = AppState::resolve_user_home_dir(None, None, Some("D:".into()), None).unwrap_err();
    assert_eq!((e.kind(), e.detail().as_str()), (ErrorKind::AgentRead, "could not resolve the user home directory"));
}

#[test]
fn copilot_folders_fall_back_to_the_current_folder() {
    let home: Result<String, TupiError> = Ok("/home/u".into());
    assert_eq!(state().resolve_global_agents_root(&home).unwrap(), "/home/u/.copilot/agents");
    assert_eq!(state().default_installed_plugins_root(&home), "/home/u/.copilot/installed-plugins");
    let missing: Result<String, TupiError> = Err(TupiError::AgentRead("could not resolve the user home directory".into()));
    assert_eq!(state().default_global_agents_root(&missing), ".copilot/agents");
    assert!(state().resolve_installed_plugins_root(&missing).is_err());
}

#[test]
fn repository_workspaces_and_agent_candidates() {
    assert_eq!(
        state().repository_workspace("marketplaces", "awesome copilot"),
        "/work/.tupi/catalog-cache/marketplaces/awesome-copilot"
    );
    let c = AppState::catalog_agent_file_candidates("/ws", "agents/planner", false);
    assert_eq!(c, vec!["/ws/agents/planner", "/ws/agents/planner.md", "/ws/agents/planner.agent.md"]);
    let c = AppState::catalog_agent_file_candidates("/ws", "agents/planner", true);
    assert_eq!(c.len(), 5);
    assert_eq!(c[3], "/ws/agents/planner/README.md");
    assert_eq!(c[4], "/ws/agents/planner/README.agent.md");
}

#[test]
fn refresh_source_defaults_to_main_and_refuses_other_branches() {
    let s = state().catalog_refresh_source(Some("  https://example.com/c.git ".into()), None).unwrap();
    assert_eq!(s.repository.as_deref(), Some("https://example.com/c.git"));
    assert_eq!(s.branch, "main");
    let s = state().catalog_refresh_source(Some(" ".into()), Some(" main ".into())).unwrap();
    assert_eq!(s.repository, None);
    let e = state().catalog_refresh_source(None, Some("dev".into())).unwrap_err();
    assert_eq!((e.kind(), e.detail().as_str()), (ErrorKind::CatalogValidation, "catalog refresh must target main"));
    assert_eq!(state().source_branch(Some("dev".into())), "dev");
}

#[test]
fn refresh_record_summarizes_the_fetched_catalog() {
    let source = CatalogSource { repository: None, branch: "main".into() };
    let rec = state().catalog_refresh_record(Ok(valid_catalog()), source, "2026-01-01T00:00:00Z".into()).unwrap();
    assert_eq!(rec.summary.version, 2);
    assert_eq!(rec.summary.catalog_revision, "rev-9");
    assert_eq!(rec.summary.marketplaces, 1);
    assert_eq!(rec.summary.assets, 0);
    assert_eq!(rec.trust_status, TrustStatus::Trusted);
    assert_eq!(rec.refreshed_at, "2026-01-01T00:00:00Z");
    let source = CatalogSource { repository: None, branch: "main".into() };
    let e = state().catalog_refresh_record(Err("bad".into()), source, "t".into()).unwrap_err();
    assert_eq!(e.kind(), ErrorKind::CatalogParse);
}

#[test]
fn catalog_state_prefers_the_cache() {
    let row = CachedCatalogRow {
        summary: CatalogSummary { version: 1, catalog_revision: "c".into(), marketplaces: 3, assets: 4 },
        trust_status: "Stale".into(),
        source_repository: Some("https://example.com/c.git".into()),
        source_branch: "main".into(),
        refreshed_at: "2026-01-01T00:00:00Z".into(),
        stale: 0,
    };
    let st = state().load_catalog_state(StoredCatalog::Cached(row), None, None).unwrap();
    assert_eq!(st.trust_status, TrustStatus::Stale);
    assert_eq!(st.summary.assets, 4);
    assert_eq!(st.refreshed_at.as_deref(), Some("2026-01-01T00:00:00Z"));
    assert!(!st.stale);

    let st = state()
        .load_catalog_state(StoredCatalog::Active(Ok(valid_catalog())), None, Some("release".into()))
        .unwrap();
    assert_eq!(st.summary.version, 2);
    assert_eq!(st.trust_status, TrustStatus::Trusted);
    assert_eq!(st.source_branch, "release");
    assert_eq!(st.refreshed_at, None);
    assert!(st.stale);

    let e = state()
        .load_catalog_summary(StoredCatalog::Unreadable(state().catalog_read_error("No such file")), None, None)
        .unwrap_err();
    assert_eq!(e.message(), "failed to read catalog: /work/catalog/trusted-assets.yaml (No such file)");
    let s = state().load_catalog_summary(StoredCatalog::Active(Ok(valid_catalog())), None, None).unwrap();
    assert_eq!(s.catalog_revision, "rev-9");
}

#[test]
fn blank_cached_catalog_text_is_ignored() {
    assert_eq!(AppState::cached_catalog_yaml(Some("  \n".into())), None);
    assert_eq!(AppState::cached_catalog_yaml(Some("version: 1".into())).as_deref(), Some("version: 1"));
    assert_eq!(AppState::cached_catalog_yaml(None), None);
}

#[test]
fn migrations_add_only_missing_columns() {
    let cols: Vec<String> = vec!["id".into(), "catalog_yaml".into(), "stale".into()];
    let m = AppState::cache_column_migrations(&cols);
    assert_eq!(
        m,
        vec![
            "ALTER TABLE catalog_cache ADD COLUMN source_repository TEXT",
            "ALTER TABLE catalog_cache ADD COLUMN source_branch TEXT NOT NULL DEFAULT 'main'",
        ]
    );
    let all: Vec<String> = vec!["catalog_yaml".into(), "source_repository".into(), "source_branch".into(), "stale".into()];
    assert!(AppState::cache_column_migrations(&all).is_empty());
    let m = AppState::global_agent_column_migrations(&vec!["description".into()], &vec![]);
    assert_eq!(
        m,
        vec![
            "ALTER TABLE global_agents ADD COLUMN trust_status TEXT NOT NULL DEFAULT 'Untrusted'",
            "ALTER TABLE global_agent_scan_state ADD COLUMN refreshed_at TEXT",
            "ALTER TABLE global_agent_scan_state ADD COLUMN error_message TEXT",
        ]
    );
}

#[test]
fn git_commands_clone_or_fetch_then_check_out() {
    let c = AppState::workspace_git_commands("/c/m/x", "https://e.com/x.git", "main", "trusted marketplace repository", false);
    assert_eq!(c.len(), 2);
    assert_eq!(c[0].args, vec!["clone", "--branch", "main", "--single-branch", "https://e.com/x.git", "/c/m/x"]);
    assert_eq!(c[0].failure, "failed to clone trusted marketplace repository");
    assert_eq!(c[1].args, vec!["-C", "/c/m/x", "checkout", "-B", "main", "origin/main"]);
    assert_eq!(c[1].failure, "failed to check out trusted marketplace repository branch");
    let c = AppState::workspace_git_commands("/c/m/x", "https://e.com/x.git", "main", "repo", true);
    assert_eq!(c[0].args, vec!["-C", "/c/m/x", "fetch", "origin", "main"]);
    assert_eq!(c[0].failure, "failed to fetch repo");
    assert!(AppState::must_clear_folder(true, false));
    assert!(!AppState::must_clear_folder(true, true));
}

#[test]
fn catalog_is_read_from_the_fetched_commit() {
    let dir = state().catalog_clone_dir();
    assert_eq!(dir, "/work/.tupi/catalog-cache/source-repo");
    let c = AppState::catalog_git_commands(&dir, "https://e.com/c.git", "main", false);
    assert_eq!(c.len(), 3);
    assert_eq!(
        c[0].args,
        vec!["clone", "--no-checkout", "--branch", "main", "--single-branch", "https://e.com/c.git", dir.as_str()]
    );
    assert_eq!(c[1].args, vec!["-C", dir.as_str(), "rev-parse", "origin/main"]);
    assert_eq!(c[1].failure, "failed to verify trusted catalog branch");
    assert_eq!(c[2].args, vec!["-C", dir.as_str(), "show", "origin/main:catalog/trusted-assets.yaml"]);
    assert!(c[2].quiet);
    let p = AppState::finish_catalog_fetch("main", GitProgress::Finished, &b"version: 1".to_vec());
    assert_eq!(p.unwrap().unwrap(), "version: 1");
    let e = AppState::finish_catalog_fetch("main", GitProgress::Finished, &vec![0xff]).unwrap().unwrap_err();
    assert!(e.detail().starts_with("origin/main:catalog/trusted-assets.yaml ("));
}

#[test]
fn git_run_stops_at_the_first_failure() {
    let c = AppState::workspace_git_commands("/c/m/x", "https://e.com/x.git", "main", "repo", false);
    assert!(matches!(AppState::next_git_step(&c, &vec![]), GitProgress::Run(0)));
    assert!(matches!(AppState::next_git_step(&c, &vec![Ok(true)]), GitProgress::Run(1)));
    assert!(matches!(AppState::next_git_step(&c, &vec![Ok(true), Ok(true)]), GitProgress::Finished));
    match AppState::next_git_step(&c, &vec![Ok(false)]) {
        GitProgress::Failed(e) => assert_eq!((e.kind(), e.detail().as_str()), (ErrorKind::CatalogRead, "failed to clone repo")),
        other => panic!("unexpected {:?}", other),
    }
    match AppState::next_git_step(&c, &vec![Ok(true), Err(String::from("no git"))]) {
        GitProgress::Failed(e) => assert_eq!(e.detail(), "no git"),
        other => panic!("unexpected {:?}", other),
    }
    let done = state().finish_workspace_sync("marketplaces", "a b", GitProgress::Finished).unwrap().unwrap();
    assert_eq!(done, "/work/.tupi/catalog-cache/marketplaces/a-b");
    assert!(state().finish_workspace_sync("marketplaces", "a", GitProgress::Run(1)).is_none());
}

#[test]
fn failed_refresh_keeps_the_cached_catalog_and_marks_it_stale() {
    let row = CachedCatalogRow {
        summary: CatalogSummary { version: 1, catalog_revision: "c".into(), marketplaces: 1, assets: 0 },
        trust_status: "Trusted".into(),
        source_repository: None,
        source_branch: "main".into(),
        refreshed_at: "t0".into(),
        stale: 0,
    };
    let marked = AppState::catalog_refresh_failed(Some(row)).unwrap();
    assert_eq!(marked.stale, 1);
    let st = state().load_catalog_state(StoredCatalog::Cached(marked), None, None).unwrap();
    assert!(st.stale);
    assert_eq!(st.summary.catalog_revision, "c");
    assert!(AppState::catalog_refresh_failed(None).is_none());
}

#[test]
fn a_profile_with_an_id_keeps_it() {
    let normalized = AppState::normalize_profile(Profile {
        id: String::from("  keep-me "),
        name: String::from("p"),
        project_location: Some(String::from("/w/p")),
        description: None,
        enabled: false,
        version: None,
        catalog_revision: None,
        selected_assets: vec![],
    })
    .unwrap();
    let saved = AppState::assign_profile_id(normalized, String::from("fresh"));
    assert_eq!(saved.id, "keep-me");
    assert_eq!(saved.name, "p");
    assert_eq!(saved.project_location.as_deref(), Some("/w/p"));
    assert!(!saved.enabled);
}

#[test]
fn loading_after_a_refresh_gives_back_that_refresh() {
    let source = CatalogSource { repository: Some("https://example.com/c.git".into()), branch: "main".into() };
    let rec = state().catalog_refresh_record(Ok(valid_catalog()), source, "2026-03-03T00:00:00Z".into()).unwrap();
    let row = AppState::cache_row_of(&rec);
    assert_eq!(row.trust_status, "Trusted");
    assert_eq!(row.stale, 0);
    assert_eq!(row.source_branch, "main");
    let st = state().load_catalog_state(StoredCatalog::Cached(row), None, Some("release".into())).unwrap();
    assert_eq!(st.summary.version, rec.summary.version);
    assert_eq!(st.summary.catalog_revision, rec.summary.catalog_revision);
    assert_eq!(st.summary.marketplaces, rec.summary.marketplaces);
    assert_eq!(st.summary.assets, rec.summary.assets);
    assert_eq!(st.trust_status, TrustStatus::Trusted);
    assert_eq!(st.source_repository.as_deref(), Some("https://example.com/c.git"));
    assert_eq!(st.source_branch, "main");
    assert_eq!(st.refreshed_at.as_deref(), Some("2026-03-03T00:00:00Z"));
    assert!(!st.stale);
}
