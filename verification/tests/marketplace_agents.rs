use tupi::catalog::{Marketplace, TrustedCatalog};
use tupi::error::{ErrorKind, TupiError};
use tupi::state::marketplace_agents::{
    AgentFileEntry, AgentRoot, MarketplaceAgentFile, MarketplaceAgentRow, MarketplaceScan,
};
use tupi::state::{AppState, ScanItem};
use tupi::trust::TrustStatus;

fn state() -> AppState {
    AppState {
        db_path: String::from("/work/.tupi/state.sqlite"),
        catalog_path: String::from("/work/catalog/trusted-assets.yaml"),
        cache_dir: String::from("/work/.tupi/catalog-cache"),
    }
}

fn entry(path: &str, name: &str) -> ScanItem<AgentFileEntry> {
    ScanItem::Found(AgentFileEntry { path: path.into(), name: name.into(), name_is_text: true })
}

fn agent_file(dir: &str, name: &str, contents: &str) -> ScanItem<MarketplaceAgentFile> {
    ScanItem::Found(MarketplaceAgentFile {
        path: format!("{}/{}", dir, name),
        directory: dir.into(),
        file_name: Some(name.into()),
        contents: Ok(contents.into()),
    })
}

fn catalog_with(ids: &[(&str, &str)]) -> TrustedCatalog {
    TrustedCatalog {
        version: 1,
        catalog_revision: "trusted-test".into(),
        marketplaces: ids
            .iter()
            .map(|(id, name)| Marketplace {
                id: (*id).into(),
                name: (*name).into(),
                repository: format!("https://github.com/github/{}", id),
                branch: "main".into(),
                revision: "abc123".into(),
            })
            .collect(),
        agents: vec![],
        prompts: vec![],
        skills: vec![],
        instructions: vec![],
    }
}

#[test]
fn discovers_sorted_markdown_agents_from_nested_directories() {
    let roots = vec![AgentRoot {
        marketplace_id: "official".into(),
        items: vec![
            entry("/r/agents/writer.md", "writer.md"),
            entry("/r/agents/nested/planner.md", "planner.md"),
            entry("/r/agents/nested/notes.txt", "notes.txt"),
        ],
    }];

    let agents = AppState::discover_agents_from_roots(&roots).unwrap();

    assert_eq!(agents.len(), 2);
    assert_eq!(agents[0].name, "planner");
    assert_eq!(agents[1].name, "writer");
}

#[test]
fn rejects_duplicate_agent_names_across_marketplaces() {
    let roots = vec![
        AgentRoot { marketplace_id: "official".into(), items: vec![entry("/first/agents/writer.md", "writer.md")] },
        AgentRoot {
            marketplace_id: "awesome-copilot".into(),
            items: vec![entry("/second/agents/Writer.md", "Writer.md")],
        },
    ];

    let error = AppState::discover_agents_from_roots(&roots).unwrap_err();

    assert!(error.message().contains("duplicate agent name Writer"));
    assert_eq!(
        error.detail(),
        "duplicate agent name Writer found in trusted marketplace official and awesome-copilot"
    );
}

#[test]
fn discovers_trusted_marketplace_agents_from_agent_markdown_files() {
    let items = vec![
        agent_file("/w/agents", "planner.agent.md", "---\ndescription: Planner agent\n---\n# Planner\n"),
        agent_file("/w/agents/nested", "writer.agent.md", "# Writer\n"),
        agent_file("/w/agents", "ignored.md", "# Ignore me\n"),
    ];

    let agents = AppState::discover_marketplace_agents(&items).unwrap();

    assert_eq!(agents.len(), 2);
    assert_eq!(agents[0].name, "planner");
    assert_eq!(agents[0].description.as_deref(), Some("Planner agent"));
    assert_eq!(agents[0].trust_status, TrustStatus::Trusted);
    assert_eq!(agents[1].name, "writer");
    assert_eq!(agents[1].description, None);
    assert_eq!(agents[1].trust_status, TrustStatus::Trusted);
}

#[test]
fn list_marketplaces_includes_persisted_marketplace_agents() {
    let catalog = catalog_with(&[("awesome-copilot", "awesome-copilot")]);
    let scans = vec![MarketplaceScan {
        marketplace_id: "awesome-copilot".into(),
        agents: Ok(Some(vec![agent_file(
            "/ws/agents",
            "planner.agent.md",
            "---\ndescription: Trusted planner\n---\n",
        )])),
    }];
    let rows = state().refresh_marketplace_agents(&scans).unwrap();

    let marketplaces = state().list_marketplaces(&catalog, &rows);

    assert_eq!(marketplaces.len(), 1);
    assert_eq!(marketplaces[0].id, "awesome-copilot");
    assert_eq!(marketplaces[0].agents.len(), 1);
    assert_eq!(marketplaces[0].agents[0].name, "planner");
    assert_eq!(marketplaces[0].agents[0].description.as_deref(), Some("Trusted planner"));
    assert_eq!(marketplaces[0].agents[0].trust_status, TrustStatus::Trusted);
}

#[test]
fn marketplaces_are_listed_by_name_then_id_with_their_own_agents() {
    let catalog = catalog_with(&[("zeta", "Beta"), ("alpha", "Beta"), ("mid", "Alpha")]);
    let rows = vec![
        MarketplaceAgentRow {
            marketplace_id: "zeta".into(),
            agent_name: "one".into(),
            description: None,
            trust_status: "Trusted".into(),
        },
        MarketplaceAgentRow {
            marketplace_id: "ZETA".into(),
            agent_name: "other".into(),
            description: None,
            trust_status: "Trusted".into(),
        },
    ];
    let ms = state().list_marketplaces(&catalog, &rows);
    let ids: Vec<&str> = ms.iter().map(|m| m.id.as_str()).collect();
    assert_eq!(ids, vec!["mid", "alpha", "zeta"]);
    assert!(ms[0].agents.is_empty());
    assert_eq!(ms[2].agents.len(), 1);
    assert_eq!(ms[2].agents[0].name, "one");
    assert_eq!(ms[2].repository, "https://github.com/github/zeta");
}

#[test]
fn refresh_stores_marketplaces_in_id_order_and_stops_at_first_error() {
    let scans = vec![
        MarketplaceScan {
            marketplace_id: "zeta".into(),
            agents: Ok(Some(vec![agent_file("/z/agents", "b.agent.md", "# b"), agent_file("/z/agents", "A.agent.md", "# a")])),
        },
        MarketplaceScan { marketplace_id: "alpha".into(), agents: Ok(None) },
        MarketplaceScan {
            marketplace_id: "beta".into(),
            agents: Ok(Some(vec![agent_file("/b/agents", "c.agent.md", "---\ndescription: C\n---\n")])),
        },
    ];
    let rows = state().refresh_marketplace_agents(&scans).unwrap();
    let got: Vec<(&str, &str)> = rows.iter().map(|r| (r.marketplace_id.as_str(), r.agent_name.as_str())).collect();
    assert_eq!(got, vec![("beta", "c"), ("zeta", "A"), ("zeta", "b")]);
    assert_eq!(rows[0].description.as_deref(), Some("C"));
    assert_eq!(rows[0].trust_status, "Trusted");

    let failing = vec![
        MarketplaceScan { marketplace_id: "alpha".into(), agents: Ok(None) },
        MarketplaceScan {
            marketplace_id: "beta".into(),
            agents: Err(TupiError::CatalogRead(String::from("failed to clone trusted marketplace repository"))),
        },
    ];
    let e = state().refresh_marketplace_agents(&failing).unwrap_err();
    assert_eq!(e.detail(), "failed to clone trusted marketplace repository");
}

#[test]
fn later_scan_of_the_same_marketplace_replaces_the_earlier() {
    let scans = vec![
        MarketplaceScan { marketplace_id: "m".into(), agents: Ok(Some(vec![agent_file("/m", "old.agent.md", "# o")])) },
        MarketplaceScan { marketplace_id: "m".into(), agents: Ok(Some(vec![agent_file("/m", "new.agent.md", "# n")])) },
    ];
    let rows = state().refresh_marketplace_agents(&scans).unwrap();
    assert_eq!(rows.len(), 1);
    assert_eq!(rows[0].agent_name, "new");
}

#[test]
fn duplicate_marketplace_agent_names_are_an_error() {
    let items = vec![
        agent_file("/w/agents", "planner.agent.md", "# p"),
        agent_file("/w/agents/nested", "Planner.agent.md", "# P"),
    ];
    let e = AppState::discover_marketplace_agents(&items).unwrap_err();
    assert_eq!(e.kind(), ErrorKind::CatalogValidation);
    assert_eq!(e.detail(), "duplicate trusted marketplace agent Planner found under /w/agents/nested");
}

#[test]
fn marketplace_agent_files_need_a_readable_name_and_text() {
    let items = vec![ScanItem::Found(MarketplaceAgentFile {
        path: "/w/agents/x".into(),
        directory: "/w/agents".into(),
        file_name: None,
        contents: Ok(String::new()),
    })];
    let e = AppState::discover_marketplace_agents(&items).unwrap_err();
    assert_eq!(e.detail(), "agent file /w/agents/x must have a valid filename");

    let items = vec![ScanItem::Found(MarketplaceAgentFile {
        path: "/w/agents/x.agent.md".into(),
        directory: "/w/agents".into(),
        file_name: Some("x.agent.md".into()),
        contents: Err(String::from("denied")),
    })];
    let e = AppState::discover_marketplace_agents(&items).unwrap_err();
    assert_eq!((e.kind(), e.detail().as_str()), (ErrorKind::CatalogRead, "/w/agents/x.agent.md (denied)"));

    let skipped = vec![agent_file("/w", " .agent.md", "# blank"), agent_file("/w", "X.AGENT.MD", "# upper")];
    assert!(AppState::discover_marketplace_agents(&skipped).unwrap().is_empty());
}

#[test]
fn markdown_extension_and_stem_follow_file_name_rules() {
    let named = |name: &str, text: bool| {
        AppState::agent_file_name(&AgentFileEntry { path: format!("/a/{}", name), name: name.into(), name_is_text: text })
    };
    assert_eq!(named("plan.MD", true).unwrap().as_deref(), Some("plan"));
    assert_eq!(named(" spaced .md", true).unwrap().as_deref(), Some("spaced"));
    assert_eq!(named("a.b.md", true).unwrap().as_deref(), Some("a.b"));
    assert_eq!(named(".md", true).unwrap(), None);
    assert_eq!(named("md", true).unwrap(), None);
    assert_eq!(named("notes.txt", true).unwrap(), None);
    let e = named("bad.md", false).unwrap_err();
    assert_eq!(e.detail(), "agent file /a/bad.md must have a valid name");
    let e = named("  .md", true).unwrap_err();
    assert_eq!(e.detail(), "agent file /a/  .md must have a valid name");
}

#[test]
fn listing_agents_with_none_found_is_an_error() {
    let roots = vec![AgentRoot { marketplace_id: "official".into(), items: vec![entry("/r/notes.txt", "notes.txt")] }];
    let e = state().list_available_agents(&roots).unwrap_err();
    assert_eq!(e.kind(), ErrorKind::CatalogRead);
    assert_eq!(e.detail(), "no Markdown agents were found in trusted marketplace workspaces");
    let roots = vec![AgentRoot { marketplace_id: "official".into(), items: vec![entry("/r/a.md", "a.md")] }];
    assert_eq!(state().list_available_agents(&roots).unwrap()[0].name, "a");
}

#[test]
fn walk_failures_stop_agent_discovery() {
    let roots = vec![AgentRoot {
        marketplace_id: "official".into(),
        items: vec![ScanItem::Failed(TupiError::CatalogRead(String::from("/r/agents (denied)")))],
    }];
    let e = AppState::discover_agents_from_roots(&roots).unwrap_err();
    assert_eq!(e.detail(), "/r/agents (denied)");
}

#[test]
fn stored_agents_are_listed_by_name_whatever_the_row_order() {
    let catalog = catalog_with(&[("m", "M")]);
    let row = |name: &str| MarketplaceAgentRow {
        marketplace_id: "m".into(),
        agent_name: name.into(),
        description: None,
        trust_status: "Trusted".into(),
    };
    let ms = state().list_marketplaces(&catalog, &vec![row("zed"), row("Beta"), row("alpha")]);
    let names: Vec<&str> = ms[0].agents.iter().map(|a| a.name.as_str()).collect();
    assert_eq!(names, vec!["alpha", "Beta", "zed"]);
}
