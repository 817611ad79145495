//! Profile rules: what a stored profile looks like once normalized.
use vstd::prelude::*;

use super::{normalized_text, AppState};
use crate::error::{ErrorKind, TupiError};
use crate::profile::{string_views, Profile, ProfileView, ProjectProfileDefaults};
use crate::text::{lemma_trim_idempotent, owned, trim, trimmed};

verus! {

/// The selected assets, trimmed, without the blank ones, in order.
pub open spec fn kept_assets(s: Seq<Seq<char>>) -> Seq<Seq<char>>
    decreases s.len(),
{
    if s.len() == 0 {
        Seq::empty()
    } else {
        let rest = kept_assets(s.drop_last());
        if trim(s.last()).len() > 0 {
            rest.push(trim(s.last()))
        } else {
            rest
        }
    }
}

/// A profile as it is stored: every text trimmed, blank optional texts
/// dropped, blank selections dropped; a display name and a project location
/// are required. An empty id is left for the store to fill (see
/// `assign_profile_id`).
pub open spec fn normalized_profile(p: ProfileView) -> Result<ProfileView, (ErrorKind, Seq<char>)> {
    if trim(p.name).len() == 0 {
        Err((ErrorKind::ProfileValidation, "project display name is required"@))
    } else if normalized_text(p.project_location) is None {
        Err((ErrorKind::ProfileValidation, "project location is required"@))
    } else {
        Ok(
            ProfileView {
                id: trim(p.id),
                name: trim(p.name),
                project_location: normalized_text(p.project_location),
                description: normalized_text(p.description),
                enabled: p.enabled,
                version: normalized_text(p.version),
                catalog_revision: normalized_text(p.catalog_revision),
                selected_assets: kept_assets(p.selected_assets),
            },
        )
    }
}

proof fn lemma_normalized_text_idempotent(o: Option<Seq<char>>)
    ensures
        normalized_text(normalized_text(o)) == normalized_text(o),
{
    if let Some(s) = o {
        lemma_trim_idempotent(s);
    }
}

proof fn lemma_kept_assets_idempotent(s: Seq<Seq<char>>)
    ensures
        kept_assets(kept_assets(s)) == kept_assets(s),
    decreases s.len(),
{
    if s.len() > 0 {
        lemma_kept_assets_idempotent(s.drop_last());
        let rest = kept_assets(s.drop_last());
        if trim(s.last()).len() > 0 {
            let t = trim(s.last());
            lemma_trim_idempotent(s.last());
            let k = rest.push(t);
            assert(k.drop_last() =~= rest);
            assert(k.last() == t);
        }
    }
}

/// A profile that is stored keeps every selection that is not blank,
/// trimmed, in the order given, and no other.
pub proof fn lemma_stored_profile_keeps_selections(p: ProfileView)
    requires
        normalized_profile(p) is Ok,
    ensures
        normalized_profile(p)->Ok_0.selected_assets == p.selected_assets.map_values(
            |x: Seq<char>| trim(x),
        ).filter(non_blank()),
        forall|i: int|
            0 <= i < p.selected_assets.len() && trim(#[trigger] p.selected_assets[i]).len() > 0
                ==> normalized_profile(p)->Ok_0.selected_assets.contains(trim(p.selected_assets[i])),
{
    lemma_every_selection_kept(p.selected_assets);
}

/// Normalizing a normalized profile changes nothing.
pub proof fn lemma_normalize_profile_idempotent(p: ProfileView)
    requires
        normalized_profile(p) is Ok,
    ensures
        normalized_profile(normalized_profile(p)->Ok_0) == normalized_profile(p),
{
    let q = normalized_profile(p)->Ok_0;
    lemma_trim_idempotent(p.id);
    lemma_trim_idempotent(p.name);
    lemma_normalized_text_idempotent(p.project_location);
    lemma_normalized_text_idempotent(p.description);
    lemma_normalized_text_idempotent(p.version);
    lemma_normalized_text_idempotent(p.catalog_revision);
    lemma_kept_assets_idempotent(p.selected_assets);
}

/// The selections that are not blank once trimmed.
pub open spec fn non_blank() -> spec_fn(Seq<char>) -> bool {
    |t: Seq<char>| t.len() > 0
}

/// Every selection is kept, trimmed, unless nothing is left of it: the kept
/// selections are the given ones trimmed, filtered to the non-empty ones,
/// in order; so every non-blank selection is kept, and there are as many as
/// there are non-blank selections.
pub proof fn lemma_every_selection_kept(s: Seq<Seq<char>>)
    ensures
        kept_assets(s) == s.map_values(|x: Seq<char>| trim(x)).filter(non_blank()),
        forall|i: int| 0 <= i < s.len() && trim(#[trigger] s[i]).len() > 0 ==> kept_assets(s).contains(
            trim(s[i]),
        ),
        kept_assets(s).len() <= s.len(),
    decreases s.len(),
{
    let t = s.map_values(|x: Seq<char>| trim(x));
    reveal_with_fuel(Seq::filter, 1);
    if s.len() > 0 {
        lemma_every_selection_kept(s.drop_last());
        assert(t.drop_last() =~= s.drop_last().map_values(|x: Seq<char>| trim(x)));
        assert(t.last() == trim(s.last()));
    } else {
        assert(t =~= Seq::<Seq<char>>::empty());
    }
    assert(kept_assets(s) == t.filter(non_blank()));
    assert forall|i: int| 0 <= i < s.len() && trim(#[trigger] s[i]).len() > 0 implies kept_assets(
        s,
    ).contains(trim(s[i])) by {
        assert(t[i] == trim(s[i]));
        t.lemma_filter_contains(non_blank(), i);
    }
    t.lemma_filter_len(non_blank());
}

/// The selected assets, trimmed, without the blank ones.
fn normalize_assets(assets: Vec<String>) -> (out: Vec<String>)
    ensures
        string_views(out@) == kept_assets(string_views(assets@)),
{
    let mut out: Vec<String> = Vec::new();
    let mut i: usize = 0;
    while i < assets.len()
        invariant
            i <= assets.len(),
            string_views(out@) == kept_assets(string_views(assets@).take(i as int)),
        decreases assets.len() - i,
    {
        let t = trimmed(assets[i].as_str());
        proof {
            let s = string_views(assets@).take(i + 1);
            assert(s.drop_last() =~= string_views(assets@).take(i as int));
            assert(s.last() == assets@[i as int]@);
        }
        if !t.as_str().is_empty() {
            let ghost before = out@;
            out.push(t);
            assert(string_views(out@) =~= string_views(before).push(t@));
        }
        i = i + 1;
    }
    assert(string_views(assets@).take(assets.len() as int) =~= string_views(assets@));
    out
}

impl AppState {
    /// Normalizes a profile before it is stored: texts are trimmed, blank
    /// optional texts dropped, blank selections dropped; a display name and
    /// a project location are required. An empty id is kept empty, to be
    /// filled by `assign_profile_id` with an id that the store generates.
    pub fn normalize_profile(profile: Profile) -> (r: Result<Profile, TupiError>)
        ensures
            match r {
                Ok(q) => normalized_profile(profile@) == Ok::<ProfileView, (ErrorKind, Seq<char>)>(q@),
                Err(e) => normalized_profile(profile@) == Err::<ProfileView, (ErrorKind, Seq<char>)>(e@),
            },
    {
        let id = trimmed(profile.id.as_str());
        let name = trimmed(profile.name.as_str());
        let project_location = Self::normalize_optional_text(profile.project_location);
        if name.as_str().is_empty() {
            return Err(TupiError::ProfileValidation(owned("project display name is required")));
        }
        if project_location.is_none() {
            return Err(TupiError::ProfileValidation(owned("project location is required")));
        }
        let description = Self::normalize_optional_text(profile.description);
        let version = Self::normalize_optional_text(profile.version);
        let catalog_revision = Self::normalize_optional_text(profile.catalog_revision);
        let selected_assets = normalize_assets(profile.selected_assets);
        Ok(
            Profile {
                id,
                name,
                project_location,
                description,
                enabled: profile.enabled,
                version,
                catalog_revision,
                selected_assets,
            },
        )
    }

    /// The profile that is stored: one without an id takes `generated`, the
    /// id that the store made for it; one with an id keeps it. Nothing else
    /// changes.
    pub fn assign_profile_id(profile: Profile, generated: String) -> (r: Profile)
        ensures
            r@ == (ProfileView {
                id: if profile.id@.len() == 0 {
                    generated@
                } else {
                    profile.id@
                },
                ..profile@
            }),
    {
        let mut profile = profile;
        if profile.id.as_str().is_empty() {
            profile.id = generated;
        }
        profile
    }

    /// The values a new profile starts from: the workspace's display name.
    pub fn project_profile_defaults(&self) -> (d: ProjectProfileDefaults)
        ensures
            d.display_name@ == super::display_name_for(self.catalog_path@),
    {
        ProjectProfileDefaults { display_name: self.workspace_display_name() }
    }
}

} // verus!
