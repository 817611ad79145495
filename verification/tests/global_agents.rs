use tupi::error::{ErrorKind, TupiError};
use tupi::state::global_agents::{GlobalAgentFile, ScanRefresh};
use tupi::state::{AppState, GlobalAgentRecord, ScanItem, ScanStateRow};
use tupi::trust::TrustStatus;

fn state() -> AppState {
    AppState {
        db_path: String::from("/work/.tupi/state.sqlite"),
        catalog_path: String::from("/work/catalog/trusted-assets.yaml"),
        cache_dir: String::from("/work/.tupi/catalog-cache"),
    }
}

fn file(path: &str, name: &str, contents: &str) -> ScanItem<GlobalAgentFile> {
    ScanItem::Found(GlobalAgentFile {
        path: path.into(),
        file_name: Some(name.into()),
        contents: Ok(contents.as_bytes().to_vec()),
    })
}

#[test]
fn stores_null_description_when_frontmatter_description_is_missing() {
    let contents = "---\nname: Planner\n---\n# Planner\n";

    let description = AppState::extract_frontmatter_description(contents).unwrap();

    assert_eq!(description, None);
}

#[test]
fn reads_description_from_front_matter() {
    let d = AppState::extract_frontmatter_description("---\ndescription: Trusted planner\n---\n# Planner\n").unwrap();
    assert_eq!(d.as_deref(), Some("Trusted planner"));
    let d = AppState::extract_frontmatter_description("---\r\ndescription:   spaced   \r\n---\r\nbody").unwrap();
    assert_eq!(d.as_deref(), Some("spaced"));
    let d = AppState::extract_frontmatter_description("\u{feff}---\ndescription: With bom\n---\n").unwrap();
    assert_eq!(d.as_deref(), Some("With bom"));
}

#[test]
fn no_front_matter_means_no_description() {
    assert_eq!(AppState::extract_frontmatter_description("# Writer\n").unwrap(), None);
    let e = AppState::extract_frontmatter_description("---\ndescription: open\n").unwrap_err();
    assert_eq!(e.detail(), "agent frontmatter is missing a closing delimiter");
    let e = AppState::extract_frontmatter_description("---\ndescription: 5\n...\n").unwrap_err();
    assert_eq!(e.detail(), "agent frontmatter description must be a string");
    assert_eq!(AppState::extract_frontmatter_description("---\ndescription: \"  \"\n---\n").unwrap(), None);
}

#[test]
fn invalid_front_matter_is_an_error() {
    let e = AppState::extract_frontmatter_description("---\ndescription: [unclosed\n---\n").unwrap_err();
    assert_eq!(e.kind(), ErrorKind::AgentValidation);
}

#[test]
fn discovers_global_agents_with_frontmatter_description_and_trust_status() {
    let trusted_contents = "---\ndescription: Trusted planner\n---\n# Planner\n";
    let items = vec![file("/home/u/.copilot/agents/planner.agent.md", "planner.agent.md", trusted_contents)];
    let trusted = vec![trusted_contents.as_bytes().to_vec()];

    let agents =
        AppState::collect_global_agents("/home/u/.copilot/agents", true, true, &items, &Ok(trusted)).unwrap();

    assert_eq!(agents.len(), 1);
    assert_eq!(agents[0].name, "planner");
    assert_eq!(agents[0].description.as_deref(), Some("Trusted planner"));
    assert_eq!(agents[0].trust_status, TrustStatus::Trusted);
}

#[test]
fn marks_global_agents_untrusted_when_bytes_do_not_match_trusted_source() {
    let trusted = vec!["---\ndescription: Trusted writer\n---\n# Writer\n".as_bytes().to_vec()];
    let items = vec![file(
        "/home/u/.copilot/agents/writer.agent.md",
        "writer.agent.md",
        "---\ndescription: Local writer\n---\n# Writer\nchanged\n",
    )];

    let agents =
        AppState::collect_global_agents("/home/u/.copilot/agents", true, true, &items, &Ok(trusted)).unwrap();

    assert_eq!(agents.len(), 1);
    assert_eq!(agents[0].name, "writer");
    assert_eq!(agents[0].description.as_deref(), Some("Local writer"));
    assert_eq!(agents[0].trust_status, TrustStatus::Untrusted);
}

#[test]
fn persists_scan_state_and_global_agents() {
    let root = "/home/u/.copilot/agents";
    let items = vec![file(
        "/home/u/.copilot/agents/copilot.agent.md",
        "copilot.agent.md",
        "---\ndescription: Local Copilot\n---\n# Copilot\n",
    )];
    let agents = AppState::collect_walked_global_agents(&items, &vec![]).unwrap();
    let rows = AppState::global_agent_rows(&agents);
    let scan = ScanStateRow::after_success(root.into(), "2026-01-01T00:00:00Z".into());

    let stored = state().load_global_agents_state(rows, Some(scan), String::from("/default"));

    assert_eq!(stored.scan_root, root);
    assert_eq!(stored.refreshed_at.as_deref(), Some("2026-01-01T00:00:00Z"));
    assert_eq!(stored.error_message, None);
    assert_eq!(stored.agents.len(), 1);
    assert_eq!(stored.agents[0].name, "copilot");
    assert_eq!(stored.agents[0].description.as_deref(), Some("Local Copilot"));
    assert_eq!(stored.agents[0].trust_status, TrustStatus::Untrusted);
}

#[test]
fn agents_are_listed_by_name_ignoring_case_and_others_skipped() {
    let items = vec![
        file("/a/zeta.agent.md", "zeta.agent.md", "# z"),
        file("/a/notes.md", "notes.md", "# n"),
        file("/a/Alpha.AGENT.md", "Alpha.AGENT.md", "# a"),
        file("/a/beta.agent.md", "beta.agent.md", "# b"),
    ];
    let e = AppState::collect_walked_global_agents(&items, &vec![]).unwrap_err();
    assert_eq!(e.kind(), ErrorKind::AgentValidation);
    assert_eq!(e.detail(), "agent file /a/Alpha.AGENT.md must end with a non-empty .agent.md name");

    let items = vec![
        file("/a/zeta.agent.md", "zeta.agent.md", "# z"),
        file("/a/notes.md", "notes.md", "# n"),
        file("/a/Beta.agent.md", "Beta.agent.md", "# B"),
        file("/b/alpha.agent.md", "alpha.agent.md", "# a"),
    ];
    let agents = AppState::collect_walked_global_agents(&items, &vec![]).unwrap();
    let names: Vec<&str> = agents.iter().map(|a| a.name.as_str()).collect();
    assert_eq!(names, vec!["alpha", "Beta", "zeta"]);
}

#[test]
fn unreadable_or_unnamed_files_are_errors() {
    let items = vec![ScanItem::Found(GlobalAgentFile {
        path: "/a/x".into(),
        file_name: None,
        contents: Ok(vec![]),
    })];
    let e = AppState::collect_walked_global_agents(&items, &vec![]).unwrap_err();
    assert_eq!(e.detail(), "agent file /a/x must have a valid filename");

    let items = vec![ScanItem::Found(GlobalAgentFile {
        path: "/a/x.agent.md".into(),
        file_name: Some("x.agent.md".into()),
        contents: Err(String::from("permission denied")),
    })];
    let e = AppState::collect_walked_global_agents(&items, &vec![]).unwrap_err();
    assert_eq!((e.kind(), e.detail().as_str()), (ErrorKind::AgentRead, "/a/x.agent.md (permission denied)"));

    let items = vec![ScanItem::Found(GlobalAgentFile {
        path: "/a/x.agent.md".into(),
        file_name: Some("x.agent.md".into()),
        contents: Ok(vec![0xff, 0xfe]),
    })];
    let e = AppState::collect_walked_global_agents(&items, &vec![]).unwrap_err();
    assert_eq!(e.kind(), ErrorKind::AgentRead);
    assert!(e.detail().starts_with("/a/x.agent.md is not valid UTF-8 ("));
    assert!(e.detail().contains("invalid utf-8"));
}

#[test]
fn first_walk_failure_is_the_error() {
    let items = vec![
        file("/a/one.agent.md", "one.agent.md", "# 1"),
        ScanItem::Failed(TupiError::AgentRead(String::from("/a/sub (denied)"))),
        file("/a/two.agent.md", "two.agent.md", "# 2"),
    ];
    let e = AppState::collect_walked_global_agents(&items, &vec![]).unwrap_err();
    assert_eq!(e.detail(), "/a/sub (denied)");
}

#[test]
fn failed_scan_keeps_the_last_successful_time() {
    let previous = ScanStateRow {
        scan_root: "/old".into(),
        refreshed_at: Some("2026-01-01T00:00:00Z".into()),
        error_message: None,
    };
    let s = ScanStateRow::after_failure(Some(previous), "/new".into(), "boom".into());
    assert_eq!(s.scan_root, "/new");
    assert_eq!(s.refreshed_at.as_deref(), Some("2026-01-01T00:00:00Z"));
    assert_eq!(s.error_message.as_deref(), Some("boom"));
    let s = ScanStateRow::after_failure(None, "/new".into(), "boom".into());
    assert_eq!(s.refreshed_at, None);
}

#[test]
fn refresh_records_failure_message_or_replaces_agents() {
    let out: ScanRefresh<_, _> = state().refresh_global_agents(
        Err(TupiError::AgentRead(String::from("could not resolve the user home directory"))),
        String::from(".copilot/agents"),
        Ok(vec![]),
        None,
        String::from("2026-02-02T00:00:00Z"),
    );
    assert!(out.rows.is_none());
    assert_eq!(out.scan_state.scan_root, ".copilot/agents");
    assert_eq!(
        out.scan_state.error_message.as_deref(),
        Some("failed to read agent: could not resolve the user home directory")
    );
    assert!(out.result.is_err());

    let agents = vec![GlobalAgentRecord {
        name: "planner".into(),
        file_location: "/h/.copilot/agents/planner.agent.md".into(),
        description: None,
        trust_status: TrustStatus::Trusted,
    }];
    let out = state().refresh_global_agents(
        Ok(String::from("/h/.copilot/agents")),
        String::from(".copilot/agents"),
        Ok(agents),
        None,
        String::from("2026-02-02T00:00:00Z"),
    );
    let rows = out.rows.unwrap();
    assert_eq!(rows.len(), 1);
    assert_eq!(rows[0].trust_status, "Trusted");
    assert_eq!(out.scan_state.refreshed_at.as_deref(), Some("2026-02-02T00:00:00Z"));
    let st = out.result.unwrap();
    assert_eq!(st.agents[0].name, "planner");
    assert_eq!(st.scan_root, "/h/.copilot/agents");
}

#[test]
fn stored_rows_read_back_with_unknown_labels_untrusted() {
    let agents = vec![
        GlobalAgentRecord {
            name: "a".into(),
            file_location: "/x/a.agent.md".into(),
            description: Some("d".into()),
            trust_status: TrustStatus::Stale,
        },
    ];
    let mut rows = AppState::global_agent_rows(&agents);
    assert_eq!(rows[0].trust_status, "Stale");
    let st = state().load_global_agents_state(AppState::global_agent_rows(&agents), None, "/def".into());
    assert_eq!(st.agents[0].trust_status, TrustStatus::Stale);
    assert_eq!(st.scan_root, "/def");
    assert_eq!(st.refreshed_at, None);
    rows[0].trust_status = "Bogus".into();
    let st = state().load_global_agents_state(rows, None, "/def".into());
    assert_eq!(st.agents[0].trust_status, TrustStatus::Untrusted);
}

#[test]
fn agents_with_equal_keys_keep_the_walk_order() {
    let items = vec![file("/a/X.agent.md", "X.agent.md", "# 1"), file("/A/x.agent.md", "x.agent.md", "# 2")];
    let agents = AppState::collect_walked_global_agents(&items, &vec![]).unwrap();
    assert_eq!(agents[0].file_location, "/a/X.agent.md");
    assert_eq!(agents[1].file_location, "/A/x.agent.md");
    let items = vec![file("/A/x.agent.md", "x.agent.md", "# 2"), file("/a/X.agent.md", "X.agent.md", "# 1")];
    let agents = AppState::collect_walked_global_agents(&items, &vec![]).unwrap();
    assert_eq!(agents[0].file_location, "/A/x.agent.md");
    assert_eq!(agents[1].file_location, "/a/X.agent.md");
}

#[test]
fn missing_or_non_folder_agent_root() {
    let items = vec![file("/x/a.agent.md", "a.agent.md", "# a")];
    let none = AppState::collect_global_agents("/h/.copilot/agents", false, false, &items, &Ok(vec![])).unwrap();
    assert!(none.is_empty());
    let e = AppState::collect_global_agents("/h/.copilot/agents", true, false, &items, &Ok(vec![])).unwrap_err();
    assert_eq!((e.kind(), e.detail().as_str()), (ErrorKind::AgentRead, "/h/.copilot/agents is not a directory"));
}

#[test]
fn unreadable_catalog_trusts_no_global_agent() {
    let text = "---\ndescription: Trusted planner\n---\n# Planner\n";
    let items = vec![file("/h/planner.agent.md", "planner.agent.md", text)];
    let unread: Result<Vec<Vec<u8>>, TupiError> = Err(TupiError::CatalogRead(String::from("/c (missing)")));
    let agents = AppState::collect_global_agents("/h", true, true, &items, &unread).unwrap();
    assert_eq!(agents[0].trust_status, TrustStatus::Untrusted);
}

#[test]
fn trusted_bytes_come_only_from_files_found() {
    assert_eq!(AppState::first_existing_file(&vec![false, true, true]), Some(1));
    assert_eq!(AppState::first_existing_file(&vec![false, false]), None);
    let found = vec![None, Some(Err(String::from("denied"))), Some(Ok(vec![1u8, 2])), Some(Ok(vec![3u8]))];
    assert_eq!(AppState::trusted_agent_bytes(found), vec![vec![1u8, 2], vec![3u8]]);
}

#[test]
fn loaded_agents_are_listed_by_name_then_location() {
    let agents = vec![
        GlobalAgentRecord { name: "zeta".into(), file_location: "/z".into(), description: None, trust_status: TrustStatus::Untrusted },
        GlobalAgentRecord { name: "Alpha".into(), file_location: "/b".into(), description: None, trust_status: TrustStatus::Untrusted },
        GlobalAgentRecord { name: "alpha".into(), file_location: "/a".into(), description: None, trust_status: TrustStatus::Untrusted },
    ];
    let rows = AppState::global_agent_rows(&agents);
    let st = state().load_global_agents_state(rows, None, "/d".into());
    let got: Vec<&str> = st.agents.iter().map(|a| a.file_location.as_str()).collect();
    assert_eq!(got, vec!["/a", "/b", "/z"]);
}

#[test]
fn loading_after_a_failed_refresh_keeps_the_stored_agents() {
    let agents = vec![GlobalAgentRecord {
        name: "planner".into(),
        file_location: "/h/.copilot/agents/planner.agent.md".into(),
        description: Some("Plans".into()),
        trust_status: TrustStatus::Untrusted,
    }];
    let previous = ScanStateRow::after_success("/h/.copilot/agents".into(), "2026-01-01T00:00:00Z".into());
    let before = state().load_global_agents_state(
        AppState::global_agent_rows(&agents),
        Some(ScanStateRow::after_success("/h/.copilot/agents".into(), "2026-01-01T00:00:00Z".into())),
        "/default".into(),
    );

    let out = state().refresh_global_agents(
        Ok(String::from("/h/moved")),
        String::from("/default"),
        Err(TupiError::AgentRead(String::from("/h/moved is not a directory"))),
        Some(previous),
        String::from("2026-02-02T00:00:00Z"),
    );
    assert!(out.rows.is_none());
    let e = out.result.unwrap_err();
    let after = state().load_global_agents_state(AppState::global_agent_rows(&agents), Some(out.scan_state), "/default".into());

    assert_eq!(after.agents.len(), 1);
    assert_eq!(after.agents.len(), before.agents.len());
    assert_eq!(after.agents[0].name, before.agents[0].name);
    assert_eq!(after.agents[0].file_location, before.agents[0].file_location);
    assert_eq!(after.agents[0].description, before.agents[0].description);
    assert_eq!(after.agents[0].trust_status, before.agents[0].trust_status);
    assert_eq!(after.scan_root, "/h/moved");
    assert_eq!(after.refreshed_at, before.refreshed_at);
    assert_eq!(after.refreshed_at.as_deref(), Some("2026-01-01T00:00:00Z"));
    assert_eq!(after.error_message, Some(e.message()));
    assert_eq!(after.error_message.as_deref(), Some("failed to read agent: /h/moved is not a directory"));
}
