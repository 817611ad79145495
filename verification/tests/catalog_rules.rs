use tupi::catalog::{accept_parsed_catalog, summarize, validate_catalog, AssetEntry, Marketplace, TrustedCatalog};
use tupi::error::{ErrorKind, TupiError};

fn marketplace(id: &str, name: &str, repository: &str, branch: &str, revision: &str) -> Marketplace {
    Marketplace {
        id: id.into(),
        name: name.into(),
        repository: repository.into(),
        branch: branch.into(),
        revision: revision.into(),
    }
}

fn asset(id: &str, marketplace: &str, path: &str, revision: &str) -> AssetEntry {
    AssetEntry {
        id: id.into(),
        marketplace: marketplace.into(),
        path: path.into(),
        version: "1.0.0".into(),
        revision: revision.into(),
    }
}

fn catalog(marketplaces: Vec<Marketplace>, agents: Vec<AssetEntry>) -> TrustedCatalog {
    TrustedCatalog {
        version: 1,
        catalog_revision: "abc".into(),
        marketplaces,
        agents,
        prompts: vec![],
        skills: vec![],
        instructions: vec![],
    }
}

fn official() -> Marketplace {
    marketplace("official", "Official", "https://example.com/repo.git", "main", "abc")
}

fn detail_of(e: &TupiError) -> (ErrorKind, String) {
    (e.kind(), e.detail().clone())
}

#[test]
fn rejects_duplicate_marketplaces() {
    let catalog = TrustedCatalog {
        version: 1,
        catalog_revision: "abc".into(),
        marketplaces: vec![
            Marketplace {
                id: "official".into(),
                name: "Official".into(),
                repository: "https://example.com/repo.git".into(),
                branch: "main".into(),
                revision: "abc".into(),
            },
            Marketplace {
                id: "official".into(),
                name: "Official 2".into(),
                repository: "https://example.com/repo2.git".into(),
                branch: "main".into(),
                revision: "def".into(),
            },
        ],
        agents: vec![],
        prompts: vec![],
        skills: vec![],
        instructions: vec![],
    };

    assert!(validate_catalog(&catalog).is_err());
}

#[test]
fn rejects_unknown_marketplace() {
    let catalog = TrustedCatalog {
        version: 1,
        catalog_revision: "abc".into(),
        marketplaces: vec![Marketplace {
            id: "official".into(),
            name: "Official".into(),
            repository: "https://example.com/repo.git".into(),
            branch: "main".into(),
            revision: "abc".into(),
        }],
        agents: vec![AssetEntry {
            id: "agent".into(),
            marketplace: "missing".into(),
            path: "agents/agent".into(),
            version: "1.0.0".into(),
            revision: "abc".into(),
        }],
        prompts: vec![],
        skills: vec![],
        instructions: vec![],
    };

    assert!(validate_catalog(&catalog).is_err());
}

#[test]
fn duplicate_marketplace_error_names_the_id() {
    let c = catalog(
        vec![official(), marketplace("official", "Official 2", "https://example.com/repo2.git", "main", "def")],
        vec![],
    );
    let e = validate_catalog(&c).unwrap_err();
    assert_eq!(detail_of(&e), (ErrorKind::CatalogValidation, String::from("duplicate marketplace id: official")));
    assert_eq!(e.message(), "catalog validation failed: duplicate marketplace id: official");
}

#[test]
fn unknown_marketplace_error_names_asset_and_marketplace() {
    let c = catalog(vec![official()], vec![asset("agent", "missing", "agents/agent", "abc")]);
    let e = validate_catalog(&c).unwrap_err();
    assert_eq!(
        detail_of(&e),
        (ErrorKind::CatalogValidation, String::from("asset agent references unknown marketplace missing"))
    );
}

#[test]
fn accepts_a_valid_catalog() {
    let c = catalog(vec![official()], vec![asset("agent", "official", "agents/agent", "abc")]);
    assert!(validate_catalog(&c).is_ok());
}

#[test]
fn rejects_version_zero_and_blank_revision() {
    let mut c = catalog(vec![official()], vec![]);
    c.version = 0;
    let e = validate_catalog(&c).unwrap_err();
    assert_eq!(detail_of(&e), (ErrorKind::CatalogValidation, String::from("catalog version must be positive")));
    let mut c = catalog(vec![official()], vec![]);
    c.catalog_revision = "   ".into();
    let e = validate_catalog(&c).unwrap_err();
    assert_eq!(detail_of(&e), (ErrorKind::CatalogValidation, String::from("catalogRevision is required")));
}

#[test]
fn rejects_marketplace_not_pinned_to_main() {
    let c = catalog(vec![marketplace("official", "Official", "https://example.com/repo.git", "dev", "abc")], vec![]);
    let e = validate_catalog(&c).unwrap_err();
    assert_eq!(
        detail_of(&e),
        (ErrorKind::CatalogValidation, String::from("marketplace official must be pinned to main"))
    );
}

#[test]
fn rejects_moving_revision_and_spaced_id() {
    let c = catalog(vec![marketplace("official", "Official", "https://example.com/repo.git", "main", "latest")], vec![]);
    let e = validate_catalog(&c).unwrap_err();
    assert_eq!(detail_of(&e), (ErrorKind::CatalogValidation, String::from("marketplace.revision must be immutable")));
    let c = catalog(vec![marketplace("my market", "Official", "https://example.com/repo.git", "main", "abc")], vec![]);
    let e = validate_catalog(&c).unwrap_err();
    assert_eq!(detail_of(&e), (ErrorKind::CatalogValidation, String::from("marketplace.id must not contain spaces")));
    let c = catalog(vec![marketplace("", "Official", "https://example.com/repo.git", "main", "abc")], vec![]);
    let e = validate_catalog(&c).unwrap_err();
    assert_eq!(detail_of(&e), (ErrorKind::CatalogValidation, String::from("marketplace.id is required")));
}

#[test]
fn rejects_repository_that_is_not_a_url() {
    let c = catalog(vec![marketplace("official", "Official", "not a url", "main", "abc")], vec![]);
    let e = validate_catalog(&c).unwrap_err();
    assert_eq!(e.kind(), ErrorKind::Url);
    assert_eq!(e.detail(), "relative URL without a base");
    assert_eq!(e.message(), "url error: relative URL without a base");
}

#[test]
fn rejects_asset_with_blank_path_and_duplicate_assets() {
    let c = catalog(vec![official()], vec![asset("agent", "official", " ", "abc")]);
    let e = validate_catalog(&c).unwrap_err();
    assert_eq!(detail_of(&e), (ErrorKind::CatalogValidation, String::from("asset.path is required")));
    let c = catalog(
        vec![official()],
        vec![asset("agent", "official", "a", "abc"), asset("agent", "official", "b", "abc")],
    );
    let e = validate_catalog(&c).unwrap_err();
    assert_eq!(detail_of(&e), (ErrorKind::CatalogValidation, String::from("duplicate agent id: agent")));
}

#[test]
fn summarizes_counts_of_marketplaces_and_assets() {
    let mut c = catalog(vec![official()], vec![asset("agent", "official", "agents/agent", "abc")]);
    c.prompts.push(asset("prompt", "official", "prompts/p", "abc"));
    c.skills.push(asset("skill", "official", "skills/s", "abc"));
    let s = summarize(&c);
    assert_eq!(s.version, 1);
    assert_eq!(s.catalog_revision, "abc");
    assert_eq!(s.marketplaces, 1);
    assert_eq!(s.assets, 3);
}

#[test]
fn parse_failures_become_parse_errors() {
    let e = accept_parsed_catalog(Err(String::from("bad yaml"))).unwrap_err();
    assert_eq!(detail_of(&e), (ErrorKind::CatalogParse, String::from("bad yaml")));
    assert_eq!(e.message(), "failed to parse catalog yaml: bad yaml");
    let ok = accept_parsed_catalog(Ok(catalog(vec![official()], vec![]))).unwrap();
    assert_eq!(ok.marketplaces.len(), 1);
}
