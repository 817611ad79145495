use tupi::catalog::Marketplace;
use tupi::error::{ErrorKind, TupiError};
use tupi::state::installed_marketplaces::{
    DirEntryInfo, MarketplaceListing, PluginAgentFile, PluginListing, SkillCandidate,
};
use tupi::state::{AppState, ScanItem, ScanStateRow};
use tupi::trust::TrustStatus;

fn state() -> AppState {
    AppState {
        db_path: String::from("/work/.tupi/state.sqlite"),
        catalog_path: String::from("/work/catalog/trusted-assets.yaml"),
        cache_dir: String::from("/work/.tupi/catalog-cache"),
    }
}

fn dir(path: &str) -> DirEntryInfo {
    let name = path.rsplit('/').next().unwrap().to_string();
    DirEntryInfo { path: path.into(), name: Some(name) }
}

fn agent(path: &str, contents: &str) -> ScanItem<PluginAgentFile> {
    let name = path.rsplit('/').next().unwrap().to_string();
    ScanItem::Found(PluginAgentFile { path: path.into(), file_name: Some(name), is_file: true, contents: Ok(contents.into()) })
}

fn agents_subfolder(path: &str) -> ScanItem<PluginAgentFile> {
    let name = path.rsplit('/').next().unwrap().to_string();
    ScanItem::Found(PluginAgentFile { path: path.into(), file_name: Some(name), is_file: false, contents: Ok(String::new()) })
}

fn skill(path: &str, has_skill_file: bool) -> ScanItem<SkillCandidate> {
    let name = path.rsplit('/').next().unwrap().to_string();
    ScanItem::Found(SkillCandidate { path: path.into(), name: Some(name), is_dir: true, has_skill_file })
}

fn awesome() -> Marketplace {
    Marketplace {
        id: "awesome-copilot".into(),
        name: "Awesome Copilot".into(),
        repository: "https://github.com/github/awesome-copilot".into(),
        branch: "main".into(),
        revision: "abc123".into(),
    }
}

const ROOT: &str = "/home/u/.copilot/installed-plugins";

fn trusted_inventory() -> Vec<ScanItem<MarketplaceListing>> {
    let editor = format!("{}/awesome-copilot/editor", ROOT);
    let agents_dir = format!("{}/agents", editor);
    vec![
        ScanItem::Found(MarketplaceListing {
            entry: dir(&format!("{}/awesome-copilot", ROOT)),
            plugins: vec![
                ScanItem::Found(PluginListing {
                    entry: dir(&format!("{}/awesome-copilot/plugins", ROOT)),
                    skills: vec![],
                    agents: vec![],
                }),
                ScanItem::Found(PluginListing {
                    entry: dir(&editor),
                    skills: vec![
                        skill(&format!("{}/skills/microsoft-foundry", editor), true),
                        skill(&format!("{}/skills/not-a-skill", editor), false),
                    ],
                    agents: vec![
                        agent(
                            &format!("{}/planner.agent.md", agents_dir),
                            "---\ndescription: Plans work carefully\n---\n# Planner",
                        ),
                        agent(&format!("{}/notes.md", agents_dir), "# Not an agent"),
                        agents_subfolder(&format!("{}/nested", agents_dir)),
                    ],
                }),
            ],
        }),
        ScanItem::Found(MarketplaceListing { entry: dir(&format!("{}/local-only", ROOT)), plugins: vec![] }),
    ]
}

#[test]
fn discovers_installed_marketplaces_and_matches_catalog_trust() {
    let marketplaces = AppState::collect_walked_installed_marketplaces(&trusted_inventory(), &vec![awesome()]).unwrap();

    assert_eq!(marketplaces.len(), 2);
    assert_eq!(marketplaces[0].id, "awesome-copilot");
    assert_eq!(marketplaces[0].name, "Awesome Copilot");
    assert_eq!(marketplaces[0].repository.as_deref(), Some("https://github.com/github/awesome-copilot"));
    assert_eq!(marketplaces[0].trust_status, TrustStatus::Trusted);
    assert_eq!(marketplaces[0].plugins.len(), 2);
    assert_eq!(marketplaces[0].plugins[0].name, "editor");
    assert_eq!(marketplaces[0].plugins[0].skills.len(), 1);
    assert_eq!(marketplaces[0].plugins[0].skills[0].name, "microsoft-foundry");
    assert_eq!(marketplaces[0].plugins[0].agents.len(), 1);
    assert_eq!(marketplaces[0].plugins[0].agents[0].name, "planner");
    assert_eq!(marketplaces[0].plugins[0].agents[0].description.as_deref(), Some("Plans work carefully"));
    assert_eq!(
        marketplaces[0].plugins[0].agents[0].file_location,
        format!("{}/awesome-copilot/editor/agents/planner.agent.md", ROOT)
    );
    assert_eq!(marketplaces[0].plugins[1].name, "plugins");
    assert!(marketplaces[0].plugins[1].skills.is_empty());
    assert!(marketplaces[0].plugins[1].agents.is_empty());
    assert_eq!(marketplaces[1].id, "local-only");
    assert_eq!(marketplaces[1].name, "local-only");
    assert_eq!(marketplaces[1].repository, None);
    assert_eq!(marketplaces[1].trust_status, TrustStatus::Untrusted);
    assert!(marketplaces[1].plugins.is_empty());
}

#[test]
fn missing_installed_marketplaces_root_returns_empty_inventory() {
    let marketplaces =
        AppState::collect_installed_marketplaces(ROOT, false, false, &vec![], &Ok(vec![awesome()])).unwrap();

    assert!(marketplaces.is_empty());
}

#[test]
fn root_that_is_not_a_folder_is_an_error() {
    let e = AppState::check_scan_root("/x/file", true, false, ErrorKind::PluginRead).unwrap_err();
    assert_eq!((e.kind(), e.detail().as_str()), (ErrorKind::PluginRead, "/x/file is not a directory"));
    assert!(AppState::check_scan_root("/x", true, true, ErrorKind::AgentRead).unwrap());
}

#[test]
fn persists_installed_marketplace_scan_state() {
    let plugin_root = format!("{}/awesome-copilot/assistant", ROOT);
    let skill_dir = format!("{}/skills/validate-agent", plugin_root);
    let agent_path = format!("{}/agents/validator.agent.md", plugin_root);
    let items = vec![ScanItem::Found(MarketplaceListing {
        entry: dir(&format!("{}/awesome-copilot", ROOT)),
        plugins: vec![ScanItem::Found(PluginListing {
            entry: dir(&plugin_root),
            skills: vec![skill(&skill_dir, true)],
            agents: vec![agent(&agent_path, "---\ndescription: Checks agent configuration\n---\n# Validator")],
        })],
    })];
    let marketplaces = AppState::collect_walked_installed_marketplaces(&items, &vec![]).unwrap();
    let rows = AppState::installed_marketplace_rows(&marketplaces);
    let scan = ScanStateRow::after_success(ROOT.into(), "2026-01-01T00:00:00Z".into());

    let stored = state().load_installed_marketplaces_state(rows, Some(scan), "/default".into());

    assert_eq!(stored.scan_root, ROOT);
    assert_eq!(stored.refreshed_at.as_deref(), Some("2026-01-01T00:00:00Z"));
    assert_eq!(stored.error_message, None);
    assert_eq!(stored.marketplaces.len(), 1);
    assert_eq!(stored.marketplaces[0].id, "awesome-copilot");
    assert_eq!(stored.marketplaces[0].name, "awesome-copilot");
    assert_eq!(stored.marketplaces[0].trust_status, TrustStatus::Untrusted);
    assert_eq!(stored.marketplaces[0].plugins.len(), 1);
    assert_eq!(stored.marketplaces[0].plugins[0].name, "assistant");
    assert_eq!(stored.marketplaces[0].plugins[0].directory_location, plugin_root);
    assert_eq!(stored.marketplaces[0].plugins[0].skills.len(), 1);
    assert_eq!(stored.marketplaces[0].plugins[0].skills[0].name, "validate-agent");
    assert_eq!(stored.marketplaces[0].plugins[0].skills[0].directory_location, skill_dir);
    assert_eq!(stored.marketplaces[0].plugins[0].agents.len(), 1);
    assert_eq!(stored.marketplaces[0].plugins[0].agents[0].name, "validator");
    assert_eq!(stored.marketplaces[0].plugins[0].agents[0].file_location, agent_path);
    assert_eq!(
        stored.marketplaces[0].plugins[0].agents[0].description.as_deref(),
        Some("Checks agent configuration")
    );
}

#[test]
fn stored_inventory_reads_back_whole() {
    let marketplaces = AppState::collect_walked_installed_marketplaces(&trusted_inventory(), &vec![awesome()]).unwrap();
    let rows = AppState::installed_marketplace_rows(&marketplaces);
    assert_eq!(rows.marketplaces.len(), 2);
    assert_eq!(rows.plugins.len(), 2);
    assert_eq!(rows.skills.len(), 1);
    assert_eq!(rows.agents.len(), 1);
    assert_eq!(rows.marketplaces[0].trust_status, "Trusted");
    let stored = state().load_installed_marketplaces_state(rows, None, "/default".into());
    assert_eq!(stored.scan_root, "/default");
    assert_eq!(stored.marketplaces.len(), 2);
    assert_eq!(stored.marketplaces[0].trust_status, TrustStatus::Trusted);
    assert_eq!(stored.marketplaces[0].plugins[0].agents[0].name, "planner");
    assert_eq!(stored.marketplaces[0].plugins[1].name, "plugins");
    assert!(stored.marketplaces[1].plugins.is_empty());
}

#[test]
fn unnamed_entries_and_walk_failures_are_errors() {
    let items = vec![ScanItem::Found(MarketplaceListing {
        entry: DirEntryInfo { path: "/r/ ".into(), name: Some(" ".into()) },
        plugins: vec![],
    })];
    let e = AppState::collect_walked_installed_marketplaces(&items, &vec![]).unwrap_err();
    assert_eq!(e.kind(), ErrorKind::PluginValidation);
    assert_eq!(e.detail(), "installed marketplace /r/  must have a valid directory name");

    let items = vec![ScanItem::Found(MarketplaceListing {
        entry: dir("/r/m"),
        plugins: vec![ScanItem::Failed(TupiError::PluginRead(String::from("/r/m (denied)")))],
    })];
    let e = AppState::collect_walked_installed_marketplaces(&items, &vec![]).unwrap_err();
    assert_eq!(e.detail(), "/r/m (denied)");
}

#[test]
fn trust_matches_catalog_id_ignoring_case() {
    let items = vec![ScanItem::Found(MarketplaceListing { entry: dir("/r/Awesome-Copilot"), plugins: vec![] })];
    let ms = AppState::collect_walked_installed_marketplaces(&items, &vec![awesome()]).unwrap();
    assert_eq!(ms[0].id, "Awesome-Copilot");
    assert_eq!(ms[0].name, "Awesome Copilot");
    assert_eq!(ms[0].trust_status, TrustStatus::Trusted);
}

#[test]
fn refresh_of_installed_marketplaces_records_failures() {
    let previous = ScanStateRow { scan_root: ROOT.into(), refreshed_at: Some("t0".into()), error_message: None };
    let out = state().refresh_installed_marketplaces(
        Ok(ROOT.into()),
        "/default".into(),
        Err(TupiError::PluginRead(String::from("/r is not a directory"))),
        Some(previous),
        "t1".into(),
    );
    assert!(out.rows.is_none());
    assert_eq!(out.scan_state.refreshed_at.as_deref(), Some("t0"));
    assert_eq!(out.scan_state.error_message.as_deref(), Some("failed to read plugin: /r is not a directory"));
    let e = out.result.unwrap_err();
    assert_eq!(e.kind(), ErrorKind::PluginRead);
}

#[test]
fn unreadable_catalog_trusts_no_installed_marketplace() {
    let unread: Result<Vec<Marketplace>, TupiError> = Err(TupiError::CatalogRead(String::from("/c (missing)")));
    let ms = AppState::collect_installed_marketplaces(ROOT, true, true, &trusted_inventory(), &unread).unwrap();
    assert_eq!(ms.len(), 2);
    assert!(ms.iter().all(|m| m.trust_status == TrustStatus::Untrusted));
    let e = AppState::collect_installed_marketplaces("/f", true, false, &vec![], &Ok(vec![])).unwrap_err();
    assert_eq!(e.detail(), "/f is not a directory");
}
