//! Project profiles.
use vstd::prelude::*;

use crate::state::opt_view;

verus! {

/// A project profile: the project it belongs to and the assets it selects.
#[derive(Debug)]
pub struct Profile {
    pub id: String,
    pub name: String,
    pub project_location: Option<String>,
    pub description: Option<String>,
    pub enabled: bool,
    pub version: Option<String>,
    pub catalog_revision: Option<String>,
    pub selected_assets: Vec<String>,
}

/// The content of a profile, as texts.
pub struct ProfileView {
    pub id: Seq<char>,
    pub name: Seq<char>,
    pub project_location: Option<Seq<char>>,
    pub description: Option<Seq<char>>,
    pub enabled: bool,
    pub version: Option<Seq<char>>,
    pub catalog_revision: Option<Seq<char>>,
    pub selected_assets: Seq<Seq<char>>,
}

/// The texts of a sequence of strings.
pub open spec fn string_views(s: Seq<String>) -> Seq<Seq<char>> {
    s.map_values(|x: String| x@)
}

impl View for Profile {
    type V = ProfileView;

    open spec fn view(&self) -> ProfileView {
        ProfileView {
            id: self.id@,
            name: self.name@,
            project_location: opt_view(self.project_location),
            description: opt_view(self.description),
            enabled: self.enabled,
            version: opt_view(self.version),
            catalog_revision: opt_view(self.catalog_revision),
            selected_assets: string_views(self.selected_assets@),
        }
    }
}

/// The values a new profile starts from.
#[derive(Debug)]
pub struct ProjectProfileDefaults {
    pub display_name: String,
}

} // verus!
