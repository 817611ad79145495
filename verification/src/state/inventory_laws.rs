//! What the stored inventory of installed marketplaces gives back: the
//! inventory that was stored, wherever its folders are distinct.
use vstd::prelude::*;

use super::installed_marketplaces::{
    agent_entries, agent_entries_of, agents_under, assemble_marketplaces, assemble_plugins,
    inventory_of_rows, marketplace_row_matches, plugin_agent_of_row, plugin_entries,
    plugin_entries_of, plugins_under, skill_entries, skill_entries_of, skill_of_row,
    skills_under, stores_inventory, tag_dir, InstalledMarketplaceRow, InstalledMarketplaceView,
    InstalledPluginAgentRow, InstalledPluginRow, InstalledRows, InstalledSkillRow, PluginAgentView,
    PluginView, SkillView,
};
use super::opt_view;
use crate::order::{lemma_select_all, lemma_select_concat, lemma_select_map, lemma_select_none, select};
use crate::trust::lemma_label_round_trip;

verus! {

// ---------------------------------------------------------------------------
// Items listed under a directory
// ---------------------------------------------------------------------------

/// Whether an entry is tagged with `d`.
pub open spec fn tagged_with<V>(d: Seq<char>) -> spec_fn((Seq<char>, V)) -> bool {
    |e: (Seq<char>, V)| e.0 == d
}

/// The item of an entry.
pub open spec fn item_of<V>() -> spec_fn((Seq<char>, V)) -> V {
    |e: (Seq<char>, V)| e.1
}

/// The items of entries tagged with `d`, in order.
pub open spec fn entries_under<V>(es: Seq<(Seq<char>, V)>, d: Seq<char>) -> Seq<V> {
    select(es, tagged_with::<V>(d)).map_values(item_of::<V>())
}

proof fn lemma_entries_under_concat<V>(a: Seq<(Seq<char>, V)>, b: Seq<(Seq<char>, V)>, d: Seq<char>)
    ensures
        entries_under(a + b, d) == entries_under(a, d) + entries_under(b, d),
{
    let keep = tagged_with::<V>(d);
    lemma_select_concat(a, b, keep);
    assert((select(a, keep) + select(b, keep)).map_values(item_of::<V>()) =~= select(
        a,
        keep,
    ).map_values(item_of::<V>()) + select(b, keep).map_values(item_of::<V>()));
}

proof fn lemma_entries_under_tag<V>(t: Seq<char>, vs: Seq<V>, d: Seq<char>)
    ensures
        entries_under(tag_dir(t, vs), d) == if t == d {
            vs
        } else {
            Seq::<V>::empty()
        },
{
    let keep = tagged_with::<V>(d);
    let s = tag_dir(t, vs);
    if t == d {
        assert forall|i: int| 0 <= i < s.len() implies #[trigger] keep(s[i]) by {}
        lemma_select_all(s, keep);
        assert(s.map_values(item_of::<V>()) =~= vs);
    } else {
        assert forall|i: int| 0 <= i < s.len() implies !#[trigger] keep(s[i]) by {}
        lemma_select_none(s, keep);
        assert(Seq::<(Seq<char>, V)>::empty().map_values(item_of::<V>()) =~= Seq::<
            V,
        >::empty());
    }
}

/// The items of plugins, each tagged with its plugin's directory.
pub open spec fn plugin_items<V>(ps: Seq<PluginView>, field: spec_fn(PluginView) -> Seq<V>) -> Seq<
    (Seq<char>, V),
>
    decreases ps.len(),
{
    if ps.len() == 0 {
        Seq::empty()
    } else {
        plugin_items(ps.drop_last(), field) + tag_dir(ps.last().directory_location, field(ps.last()))
    }
}

/// The items of all plugins of an inventory.
pub open spec fn inventory_items<V>(
    ms: Seq<InstalledMarketplaceView>,
    field: spec_fn(PluginView) -> Seq<V>,
) -> Seq<(Seq<char>, V)>
    decreases ms.len(),
{
    if ms.len() == 0 {
        Seq::empty()
    } else {
        inventory_items(ms.drop_last(), field) + plugin_items(ms.last().plugins, field)
    }
}

proof fn lemma_skill_items(ps: Seq<PluginView>, field: spec_fn(PluginView) -> Seq<SkillView>)
    requires
        forall|p: PluginView| #[trigger] field(p) == p.skills,
    ensures
        skill_entries_of(ps) == plugin_items(ps, field),
    decreases ps.len(),
{
    if ps.len() > 0 {
        lemma_skill_items(ps.drop_last(), field);
        assert(field(ps.last()) == ps.last().skills);
    }
}

proof fn lemma_agent_items(ps: Seq<PluginView>, field: spec_fn(PluginView) -> Seq<PluginAgentView>)
    requires
        forall|p: PluginView| #[trigger] field(p) == p.agents,
    ensures
        agent_entries_of(ps) == plugin_items(ps, field),
    decreases ps.len(),
{
    if ps.len() > 0 {
        lemma_agent_items(ps.drop_last(), field);
        assert(field(ps.last()) == ps.last().agents);
    }
}

proof fn lemma_inventory_skill_items(
    ms: Seq<InstalledMarketplaceView>,
    field: spec_fn(PluginView) -> Seq<SkillView>,
)
    requires
        forall|p: PluginView| #[trigger] field(p) == p.skills,
    ensures
        skill_entries(ms) == inventory_items(ms, field),
    decreases ms.len(),
{
    if ms.len() > 0 {
        lemma_inventory_skill_items(ms.drop_last(), field);
        lemma_skill_items(ms.last().plugins, field);
    }
}

proof fn lemma_inventory_agent_items(
    ms: Seq<InstalledMarketplaceView>,
    field: spec_fn(PluginView) -> Seq<PluginAgentView>,
)
    requires
        forall|p: PluginView| #[trigger] field(p) == p.agents,
    ensures
        agent_entries(ms) == inventory_items(ms, field),
    decreases ms.len(),
{
    if ms.len() > 0 {
        lemma_inventory_agent_items(ms.drop_last(), field);
        lemma_agent_items(ms.last().plugins, field);
    }
}

/// No plugin of `ps` has the directory `d`.
pub open spec fn no_plugin_dir(ps: Seq<PluginView>, d: Seq<char>) -> bool {
    forall|j: int| 0 <= j < ps.len() ==> (#[trigger] ps[j]).directory_location != d
}

/// The plugins of `ps` have distinct directories.
pub open spec fn distinct_plugin_dirs(ps: Seq<PluginView>) -> bool {
    forall|a: int, b: int|
        0 <= a < ps.len() && 0 <= b < ps.len() && a != b ==> (#[trigger] ps[a]).directory_location
            != (#[trigger] ps[b]).directory_location
}

proof fn lemma_plugin_items_absent<V>(
    ps: Seq<PluginView>,
    field: spec_fn(PluginView) -> Seq<V>,
    d: Seq<char>,
)
    requires
        no_plugin_dir(ps, d),
    ensures
        entries_under(plugin_items(ps, field), d) == Seq::<V>::empty(),
    decreases ps.len(),
{
    if ps.len() == 0 {
        lemma_select_none(Seq::<(Seq<char>, V)>::empty(), tagged_with::<V>(d));
        assert(Seq::<(Seq<char>, V)>::empty().map_values(item_of::<V>()) =~= Seq::<
            V,
        >::empty());
    } else {
        assert(ps[ps.len() - 1].directory_location != d);
        assert(no_plugin_dir(ps.drop_last(), d)) by {
            assert forall|j: int| 0 <= j < ps.drop_last().len() implies (
            #[trigger] ps.drop_last()[j]).directory_location != d by {
                assert(ps.drop_last()[j] == ps[j]);
            }
        }
        lemma_plugin_items_absent(ps.drop_last(), field, d);
        lemma_entries_under_concat(
            plugin_items(ps.drop_last(), field),
            tag_dir(ps.last().directory_location, field(ps.last())),
            d,
        );
        lemma_entries_under_tag(ps.last().directory_location, field(ps.last()), d);
        assert(Seq::<V>::empty() + Seq::<V>::empty() =~= Seq::<V>::empty());
    }
}

proof fn lemma_plugin_items_owner<V>(
    ps: Seq<PluginView>,
    field: spec_fn(PluginView) -> Seq<V>,
    j: int,
)
    requires
        0 <= j < ps.len(),
        distinct_plugin_dirs(ps),
    ensures
        entries_under(plugin_items(ps, field), ps[j].directory_location) == field(ps[j]),
    decreases ps.len(),
{
    let d = ps[j].directory_location;
    let last = ps.len() - 1;
    let init = ps.drop_last();
    assert(distinct_plugin_dirs(init)) by {
        assert forall|a: int, b: int|
            0 <= a < init.len() && 0 <= b < init.len() && a != b implies (
            #[trigger] init[a]).directory_location != (#[trigger] init[b]).directory_location by {
            assert(init[a] == ps[a]);
            assert(init[b] == ps[b]);
        }
    }
    lemma_entries_under_concat(
        plugin_items(init, field),
        tag_dir(ps.last().directory_location, field(ps.last())),
        d,
    );
    lemma_entries_under_tag(ps.last().directory_location, field(ps.last()), d);
    if j == last {
        assert(no_plugin_dir(init, d)) by {
            assert forall|k: int| 0 <= k < init.len() implies (
            #[trigger] init[k]).directory_location != d by {
                assert(init[k] == ps[k]);
                assert(ps[k].directory_location != ps[last].directory_location);
            }
        }
        lemma_plugin_items_absent(init, field, d);
        assert(Seq::<V>::empty() + field(ps[j]) =~= field(ps[j]));
    } else {
        assert(init[j] == ps[j]);
        assert(ps[last].directory_location != ps[j].directory_location);
        lemma_plugin_items_owner(init, field, j);
        assert(field(ps[j]) + Seq::<V>::empty() =~= field(ps[j]));
    }
}

/// The marketplaces of `ms` have distinct directories.
pub open spec fn distinct_marketplace_dirs(ms: Seq<InstalledMarketplaceView>) -> bool {
    forall|a: int, b: int|
        0 <= a < ms.len() && 0 <= b < ms.len() && a != b ==> (#[trigger] ms[a]).directory_location
            != (#[trigger] ms[b]).directory_location
}

/// No two plugins of an inventory share a directory, within a marketplace
/// or across two.
pub open spec fn distinct_inventory_plugin_dirs(ms: Seq<InstalledMarketplaceView>) -> bool {
    &&& forall|k: int| 0 <= k < ms.len() ==> distinct_plugin_dirs(#[trigger] ms[k].plugins)
    &&& forall|a: int, b: int, i: int, j: int|
        0 <= a < ms.len() && 0 <= b < ms.len() && a != b && 0 <= i < ms[a].plugins.len() && 0 <= j
            < ms[b].plugins.len() ==> (#[trigger] ms[a].plugins[i]).directory_location != (
        #[trigger] ms[b].plugins[j]).directory_location
}

proof fn lemma_distinct_drop_last(ms: Seq<InstalledMarketplaceView>)
    requires
        ms.len() > 0,
        distinct_inventory_plugin_dirs(ms),
    ensures
        distinct_inventory_plugin_dirs(ms.drop_last()),
{
    let init = ms.drop_last();
    assert forall|k: int| 0 <= k < init.len() implies distinct_plugin_dirs(
        #[trigger] init[k].plugins,
    ) by {
        assert(init[k] == ms[k]);
    }
    assert forall|a: int, b: int, i: int, j: int|
        0 <= a < init.len() && 0 <= b < init.len() && a != b && 0 <= i < init[a].plugins.len() && 0
            <= j < init[b].plugins.len() implies (#[trigger] init[a].plugins[i]).directory_location
        != (#[trigger] init[b].plugins[j]).directory_location by {
        assert(init[a] == ms[a]);
        assert(init[b] == ms[b]);
    }
}

proof fn lemma_inventory_items_absent<V>(
    ms: Seq<InstalledMarketplaceView>,
    field: spec_fn(PluginView) -> Seq<V>,
    d: Seq<char>,
)
    requires
        forall|k: int| 0 <= k < ms.len() ==> no_plugin_dir(#[trigger] ms[k].plugins, d),
    ensures
        entries_under(inventory_items(ms, field), d) == Seq::<V>::empty(),
    decreases ms.len(),
{
    if ms.len() == 0 {
        lemma_select_none(Seq::<(Seq<char>, V)>::empty(), tagged_with::<V>(d));
        assert(Seq::<(Seq<char>, V)>::empty().map_values(item_of::<V>()) =~= Seq::<
            V,
        >::empty());
    } else {
        let init = ms.drop_last();
        assert forall|k: int| 0 <= k < init.len() implies no_plugin_dir(
            #[trigger] init[k].plugins,
            d,
        ) by {
            assert(init[k] == ms[k]);
        }
        assert(no_plugin_dir(ms[ms.len() - 1].plugins, d));
        lemma_inventory_items_absent(init, field, d);
        lemma_plugin_items_absent(ms.last().plugins, field, d);
        lemma_entries_under_concat(
            inventory_items(init, field),
            plugin_items(ms.last().plugins, field),
            d,
        );
        assert(Seq::<V>::empty() + Seq::<V>::empty() =~= Seq::<V>::empty());
    }
}

proof fn lemma_inventory_items_owner<V>(
    ms: Seq<InstalledMarketplaceView>,
    field: spec_fn(PluginView) -> Seq<V>,
    k: int,
    j: int,
)
    requires
        0 <= k < ms.len(),
        0 <= j < ms[k].plugins.len(),
        distinct_inventory_plugin_dirs(ms),
    ensures
        entries_under(inventory_items(ms, field), ms[k].plugins[j].directory_location) == field(
            ms[k].plugins[j],
        ),
    decreases ms.len(),
{
    let p = ms[k].plugins[j];
    let d = p.directory_location;
    let last = ms.len() - 1;
    let init = ms.drop_last();
    lemma_distinct_drop_last(ms);
    lemma_entries_under_concat(inventory_items(init, field), plugin_items(ms.last().plugins, field), d);
    if k == last {
        assert forall|q: int| 0 <= q < init.len() implies no_plugin_dir(
            #[trigger] init[q].plugins,
            d,
        ) by {
            assert(init[q] == ms[q]);
            assert forall|i: int| 0 <= i < ms[q].plugins.len() implies (
            #[trigger] ms[q].plugins[i]).directory_location != d by {
                assert(ms[q].plugins[i].directory_location != ms[last].plugins[j].directory_location);
            }
        }
        lemma_inventory_items_absent(init, field, d);
        assert(distinct_plugin_dirs(ms[last].plugins));
        lemma_plugin_items_owner(ms.last().plugins, field, j);
        assert(Seq::<V>::empty() + field(p) =~= field(p));
    } else {
        assert(init[k] == ms[k]);
        lemma_inventory_items_owner(init, field, k, j);
        assert(no_plugin_dir(ms[last].plugins, d)) by {
            assert forall|i: int| 0 <= i < ms[last].plugins.len() implies (
            #[trigger] ms[last].plugins[i]).directory_location != d by {
                assert(ms[last].plugins[i].directory_location != ms[k].plugins[j].directory_location);
            }
        }
        lemma_plugin_items_absent(ms.last().plugins, field, d);
        assert(field(p) + Seq::<V>::empty() =~= field(p));
    }
}


// ---------------------------------------------------------------------------
// Rows read back
// ---------------------------------------------------------------------------

proof fn lemma_skills_under_entries(rows: Seq<InstalledSkillRow>, d: Seq<char>)
    ensures
        skills_under(rows, d) == entries_under(
            rows.map_values(|s: InstalledSkillRow| (s.plugin_directory_location@, skill_of_row(s))),
            d,
        ),
{
    let keep = super::installed_marketplaces::skill_in(d);
    let f = |s: InstalledSkillRow| (s.plugin_directory_location@, skill_of_row(s));
    lemma_select_map(rows, keep, f, tagged_with::<SkillView>(d));
    assert(select(rows, keep).map_values(f).map_values(item_of::<SkillView>()) =~= select(
        rows,
        keep,
    ).map_values(|r: InstalledSkillRow| skill_of_row(r)));
}

proof fn lemma_agents_under_entries(rows: Seq<InstalledPluginAgentRow>, d: Seq<char>)
    ensures
        agents_under(rows, d) == entries_under(
            rows.map_values(
                |a: InstalledPluginAgentRow| (a.plugin_directory_location@, plugin_agent_of_row(a)),
            ),
            d,
        ),
{
    let keep = super::installed_marketplaces::agent_in(d);
    let f = |a: InstalledPluginAgentRow| (a.plugin_directory_location@, plugin_agent_of_row(a));
    lemma_select_map(rows, keep, f, tagged_with::<PluginAgentView>(d));
    assert(select(rows, keep).map_values(f).map_values(item_of::<PluginAgentView>()) =~= select(
        rows,
        keep,
    ).map_values(|r: InstalledPluginAgentRow| plugin_agent_of_row(r)));
}

/// Whether a plugin entry lies under the marketplace directory `d`.
pub open spec fn under_marketplace(d: Seq<char>) -> spec_fn((Seq<char>, Seq<char>, Seq<char>)) -> bool {
    |e: (Seq<char>, Seq<char>, Seq<char>)| e.0 == d
}

proof fn lemma_plugins_under_entries(rows: Seq<InstalledPluginRow>, d: Seq<char>)
    ensures
        plugins_under(rows, d).map_values(
            |p: InstalledPluginRow|
                (p.marketplace_directory_location@, p.plugin_name@, p.plugin_directory_location@),
        ) == select(
            rows.map_values(
                |p: InstalledPluginRow|
                    (p.marketplace_directory_location@, p.plugin_name@, p.plugin_directory_location@),
            ),
            under_marketplace(d),
        ),
{
    let keep = super::installed_marketplaces::plugin_in(d);
    let f = |p: InstalledPluginRow|
        (p.marketplace_directory_location@, p.plugin_name@, p.plugin_directory_location@);
    lemma_select_map(rows, keep, f, under_marketplace(d));
}

proof fn lemma_plugin_entries_of_select(t: Seq<char>, ps: Seq<PluginView>, d: Seq<char>)
    ensures
        select(plugin_entries_of(t, ps), under_marketplace(d)) == if t == d {
            plugin_entries_of(t, ps)
        } else {
            Seq::<(Seq<char>, Seq<char>, Seq<char>)>::empty()
        },
{
    let s = plugin_entries_of(t, ps);
    let keep = under_marketplace(d);
    if t == d {
        assert forall|i: int| 0 <= i < s.len() implies #[trigger] keep(s[i]) by {}
        lemma_select_all(s, keep);
    } else {
        assert forall|i: int| 0 <= i < s.len() implies !#[trigger] keep(s[i]) by {}
        lemma_select_none(s, keep);
    }
}

proof fn lemma_plugin_entries_absent(ms: Seq<InstalledMarketplaceView>, d: Seq<char>)
    requires
        forall|k: int| 0 <= k < ms.len() ==> (#[trigger] ms[k]).directory_location != d,
    ensures
        select(plugin_entries(ms), under_marketplace(d)) == Seq::<
            (Seq<char>, Seq<char>, Seq<char>),
        >::empty(),
    decreases ms.len(),
{
    if ms.len() == 0 {
        lemma_select_none(plugin_entries(ms), under_marketplace(d));
    } else {
        let init = ms.drop_last();
        assert forall|k: int| 0 <= k < init.len() implies (#[trigger] init[k]).directory_location
            != d by {
            assert(init[k] == ms[k]);
        }
        assert(ms[ms.len() - 1].directory_location != d);
        lemma_plugin_entries_absent(init, d);
        lemma_select_concat(
            plugin_entries(init),
            plugin_entries_of(ms.last().directory_location, ms.last().plugins),
            under_marketplace(d),
        );
        lemma_plugin_entries_of_select(ms.last().directory_location, ms.last().plugins, d);
        assert(Seq::<(Seq<char>, Seq<char>, Seq<char>)>::empty() + Seq::<
            (Seq<char>, Seq<char>, Seq<char>),
        >::empty() =~= Seq::<(Seq<char>, Seq<char>, Seq<char>)>::empty());
    }
}

proof fn lemma_plugin_entries_owner(ms: Seq<InstalledMarketplaceView>, k: int)
    requires
        0 <= k < ms.len(),
        distinct_marketplace_dirs(ms),
    ensures
        select(plugin_entries(ms), under_marketplace(ms[k].directory_location))
            == plugin_entries_of(ms[k].directory_location, ms[k].plugins),
    decreases ms.len(),
{
    let d = ms[k].directory_location;
    let last = ms.len() - 1;
    let init = ms.drop_last();
    lemma_select_concat(
        plugin_entries(init),
        plugin_entries_of(ms.last().directory_location, ms.last().plugins),
        under_marketplace(d),
    );
    lemma_plugin_entries_of_select(ms.last().directory_location, ms.last().plugins, d);
    if k == last {
        assert forall|q: int| 0 <= q < init.len() implies (#[trigger] init[q]).directory_location
            != d by {
            assert(init[q] == ms[q]);
        }
        lemma_plugin_entries_absent(init, d);
        assert(Seq::<(Seq<char>, Seq<char>, Seq<char>)>::empty() + plugin_entries_of(
            d,
            ms[k].plugins,
        ) =~= plugin_entries_of(d, ms[k].plugins));
    } else {
        assert(init[k] == ms[k]);
        assert(distinct_marketplace_dirs(init)) by {
            assert forall|a: int, b: int|
                0 <= a < init.len() && 0 <= b < init.len() && a != b implies (
                #[trigger] init[a]).directory_location != (#[trigger] init[b]).directory_location by {
                assert(init[a] == ms[a]);
                assert(init[b] == ms[b]);
            }
        }
        assert(ms[last].directory_location != ms[k].directory_location);
        lemma_plugin_entries_owner(init, k);
        assert(plugin_entries_of(d, ms[k].plugins) + Seq::<
            (Seq<char>, Seq<char>, Seq<char>),
        >::empty() =~= plugin_entries_of(d, ms[k].plugins));
    }
}

proof fn lemma_push_contains(s: Seq<Seq<char>>, x: Seq<char>, y: Seq<char>)
    requires
        !s.contains(y),
        x != y,
    ensures
        !s.push(x).contains(y),
{
    if s.push(x).contains(y) {
        let i = choose|i: int| 0 <= i < s.push(x).len() && s.push(x)[i] == y;
        if i < s.len() {
            assert(s[i] == y);
        }
    }
}

proof fn lemma_concat_contains(a: Seq<Seq<char>>, b: Seq<Seq<char>>, y: Seq<char>)
    requires
        !a.contains(y),
        !b.contains(y),
    ensures
        !(a + b).contains(y),
{
    if (a + b).contains(y) {
        let i = choose|i: int| 0 <= i < (a + b).len() && (a + b)[i] == y;
        if i < a.len() {
            assert(a[i] == y);
        } else {
            assert(b[i - a.len()] == y);
        }
    }
}

proof fn lemma_assemble_plugins_back(
    ps: Seq<InstalledPluginRow>,
    plugins: Seq<PluginView>,
    used: Seq<Seq<char>>,
    skills: Seq<InstalledSkillRow>,
    agents: Seq<InstalledPluginAgentRow>,
)
    requires
        ps.len() == plugins.len(),
        forall|j: int|
            0 <= j < ps.len() ==> (#[trigger] ps[j]).plugin_name@ == plugins[j].name
                && ps[j].plugin_directory_location@ == plugins[j].directory_location,
        forall|j: int| 0 <= j < plugins.len() ==> !used.contains((#[trigger] plugins[j]).directory_location),
        distinct_plugin_dirs(plugins),
        forall|j: int|
            0 <= j < plugins.len() ==> skills_under(skills, (#[trigger] plugins[j]).directory_location)
                == plugins[j].skills,
        forall|j: int|
            0 <= j < plugins.len() ==> agents_under(agents, (#[trigger] plugins[j]).directory_location)
                == plugins[j].agents,
    ensures
        assemble_plugins(ps, used, skills, agents) == plugins,
    decreases ps.len(),
{
    if ps.len() == 0 {
        assert(plugins =~= Seq::<PluginView>::empty());
    } else {
        let p0 = plugins[0];
        let d0 = p0.directory_location;
        assert(ps[0].plugin_name@ == p0.name);
        let rest = plugins.drop_first();
        assert forall|j: int| 0 <= j < rest.len() implies !used.push(d0).contains(
            (#[trigger] rest[j]).directory_location,
        ) by {
            assert(rest[j] == plugins[j + 1]);
            assert(!used.contains(plugins[j + 1].directory_location));
            assert(plugins[0].directory_location != plugins[j + 1].directory_location);
            lemma_push_contains(used, d0, rest[j].directory_location);
        }
        assert(distinct_plugin_dirs(rest)) by {
            assert forall|a: int, b: int|
                0 <= a < rest.len() && 0 <= b < rest.len() && a != b implies (
                #[trigger] rest[a]).directory_location != (#[trigger] rest[b]).directory_location by {
                assert(rest[a] == plugins[a + 1]);
                assert(rest[b] == plugins[b + 1]);
            }
        }
        assert forall|j: int| 0 <= j < rest.len() implies skills_under(
            skills,
            (#[trigger] rest[j]).directory_location,
        ) == rest[j].skills && agents_under(agents, rest[j].directory_location)
            == rest[j].agents by {
            assert(rest[j] == plugins[j + 1]);
        }
        assert forall|j: int| 0 <= j < ps.drop_first().len() implies (
        #[trigger] ps.drop_first()[j]).plugin_name@ == rest[j].name
            && ps.drop_first()[j].plugin_directory_location@ == rest[j].directory_location by {
            assert(ps.drop_first()[j] == ps[j + 1]);
            assert(rest[j] == plugins[j + 1]);
        }
        lemma_assemble_plugins_back(ps.drop_first(), rest, used.push(d0), skills, agents);
        assert(!used.contains(d0));
        assert(skills_under(skills, d0) == p0.skills);
        assert(agents_under(agents, d0) == p0.agents);
        let v0 = PluginView {
            name: ps[0].plugin_name@,
            directory_location: ps[0].plugin_directory_location@,
            skills: skills_under(skills, d0),
            agents: agents_under(agents, d0),
        };
        assert(v0 =~= p0);
        assert(seq![v0] + rest =~= plugins);
    }
}

/// The facts about stored rows that reading back an inventory rests on.
pub open spec fn rows_hold(
    ms: Seq<InstalledMarketplaceView>,
    plugins: Seq<InstalledPluginRow>,
    skills: Seq<InstalledSkillRow>,
    agents: Seq<InstalledPluginAgentRow>,
) -> bool {
    &&& forall|i: int|
        0 <= i < ms.len() ==> plugins_under(plugins, (#[trigger] ms[i]).directory_location).map_values(
            |p: InstalledPluginRow|
                (p.marketplace_directory_location@, p.plugin_name@, p.plugin_directory_location@),
        ) == plugin_entries_of(ms[i].directory_location, ms[i].plugins)
    &&& forall|i: int, j: int|
        0 <= i < ms.len() && 0 <= j < ms[i].plugins.len() ==> skills_under(
            skills,
            (#[trigger] ms[i].plugins[j]).directory_location,
        ) == ms[i].plugins[j].skills && agents_under(agents, ms[i].plugins[j].directory_location)
            == ms[i].plugins[j].agents
}

proof fn lemma_assemble_marketplaces_back(
    mr: Seq<InstalledMarketplaceRow>,
    ms: Seq<InstalledMarketplaceView>,
    used_m: Seq<Seq<char>>,
    used_p: Seq<Seq<char>>,
    plugins: Seq<InstalledPluginRow>,
    skills: Seq<InstalledSkillRow>,
    agents: Seq<InstalledPluginAgentRow>,
)
    requires
        mr.len() == ms.len(),
        forall|i: int| 0 <= i < ms.len() ==> marketplace_row_matches(#[trigger] mr[i], ms[i]),
        forall|i: int| 0 <= i < ms.len() ==> !used_m.contains((#[trigger] ms[i]).directory_location),
        forall|i: int, j: int|
            0 <= i < ms.len() && 0 <= j < ms[i].plugins.len() ==> !used_p.contains(
                (#[trigger] ms[i].plugins[j]).directory_location,
            ),
        distinct_marketplace_dirs(ms),
        distinct_inventory_plugin_dirs(ms),
        rows_hold(ms, plugins, skills, agents),
    ensures
        assemble_marketplaces(mr, used_m, used_p, plugins, skills, agents) == ms,
    decreases mr.len(),
{
    if mr.len() == 0 {
        assert(ms =~= Seq::<InstalledMarketplaceView>::empty());
    } else {
        let m0 = ms[0];
        let dir = m0.directory_location;
        assert(marketplace_row_matches(mr[0], m0));
        assert(!used_m.contains(dir));
        let ps = plugins_under(plugins, dir);
        let pv = m0.plugins;
        let proj = |p: InstalledPluginRow|
            (p.marketplace_directory_location@, p.plugin_name@, p.plugin_directory_location@);
        assert(ps.map_values(proj) == plugin_entries_of(dir, pv));
        assert(ps.len() == pv.len()) by {
            assert(ps.map_values(proj).len() == plugin_entries_of(dir, pv).len());
        }
        assert forall|j: int| 0 <= j < ps.len() implies (#[trigger] ps[j]).plugin_name@
            == pv[j].name && ps[j].plugin_directory_location@ == pv[j].directory_location by {
            assert(ps.map_values(proj)[j] == plugin_entries_of(dir, pv)[j]);
        }
        assert forall|j: int| 0 <= j < pv.len() implies !used_p.contains(
            (#[trigger] pv[j]).directory_location,
        ) by {
            assert(pv[j] == ms[0].plugins[j]);
        }
        assert(distinct_plugin_dirs(pv));
        assert forall|j: int| 0 <= j < pv.len() implies skills_under(
            skills,
            (#[trigger] pv[j]).directory_location,
        ) == pv[j].skills && agents_under(agents, pv[j].directory_location) == pv[j].agents by {
            assert(pv[j] == ms[0].plugins[j]);
        }
        lemma_assemble_plugins_back(ps, pv, used_p, skills, agents);
        let rest_r = mr.drop_first();
        let rest = ms.drop_first();
        let new_m = used_m.push(dir);
        let new_p = used_p + super::installed_marketplaces::plugin_dirs(ps);
        assert forall|i: int| 0 <= i < rest.len() implies marketplace_row_matches(
            #[trigger] rest_r[i],
            rest[i],
        ) by {
            assert(rest_r[i] == mr[i + 1]);
            assert(rest[i] == ms[i + 1]);
        }
        assert forall|i: int| 0 <= i < rest.len() implies !new_m.contains(
            (#[trigger] rest[i]).directory_location,
        ) by {
            assert(rest[i] == ms[i + 1]);
            assert(ms[0].directory_location != ms[i + 1].directory_location);
            lemma_push_contains(used_m, dir, rest[i].directory_location);
        }
        assert forall|i: int, j: int|
            0 <= i < rest.len() && 0 <= j < rest[i].plugins.len() implies !new_p.contains(
            (#[trigger] rest[i].plugins[j]).directory_location,
        ) by {
            assert(rest[i] == ms[i + 1]);
            let y = ms[i + 1].plugins[j].directory_location;
            assert(!used_p.contains(y));
            let dirs = super::installed_marketplaces::plugin_dirs(ps);
            if dirs.contains(y) {
                let q = choose|q: int| 0 <= q < dirs.len() && dirs[q] == y;
                assert(dirs[q] == ps[q].plugin_directory_location@);
                assert(pv[q] == ms[0].plugins[q]);
                assert(ms[0].plugins[q].directory_location != ms[i + 1].plugins[j].directory_location);
            }
            lemma_concat_contains(used_p, dirs, y);
        }
        assert(distinct_marketplace_dirs(rest)) by {
            assert forall|a: int, b: int|
                0 <= a < rest.len() && 0 <= b < rest.len() && a != b implies (
                #[trigger] rest[a]).directory_location != (#[trigger] rest[b]).directory_location by {
                assert(rest[a] == ms[a + 1]);
                assert(rest[b] == ms[b + 1]);
            }
        }
        assert(distinct_inventory_plugin_dirs(rest)) by {
            assert forall|k: int| 0 <= k < rest.len() implies distinct_plugin_dirs(
                #[trigger] rest[k].plugins,
            ) by {
                assert(rest[k] == ms[k + 1]);
            }
            assert forall|a: int, b: int, i: int, j: int|
                0 <= a < rest.len() && 0 <= b < rest.len() && a != b && 0 <= i
                    < rest[a].plugins.len() && 0 <= j < rest[b].plugins.len() implies (
                #[trigger] rest[a].plugins[i]).directory_location != (
            #[trigger] rest[b].plugins[j]).directory_location by {
                assert(rest[a] == ms[a + 1]);
                assert(rest[b] == ms[b + 1]);
            }
        }
        assert(rows_hold(rest, plugins, skills, agents)) by {
            assert forall|i: int| 0 <= i < rest.len() implies plugins_under(
                plugins,
                (#[trigger] rest[i]).directory_location,
            ).map_values(
                |p: InstalledPluginRow|
                    (p.marketplace_directory_location@, p.plugin_name@, p.plugin_directory_location@),
            ) == plugin_entries_of(rest[i].directory_location, rest[i].plugins) by {
                assert(rest[i] == ms[i + 1]);
            }
            assert forall|i: int, j: int|
                0 <= i < rest.len() && 0 <= j < rest[i].plugins.len() implies skills_under(
                skills,
                (#[trigger] rest[i].plugins[j]).directory_location,
            ) == rest[i].plugins[j].skills && agents_under(
                agents,
                rest[i].plugins[j].directory_location,
            ) == rest[i].plugins[j].agents by {
                assert(rest[i] == ms[i + 1]);
            }
        }
        lemma_assemble_marketplaces_back(rest_r, rest, new_m, new_p, plugins, skills, agents);
        lemma_label_round_trip(m0.trust_status);
        let v0 = InstalledMarketplaceView {
            id: mr[0].marketplace_id@,
            name: mr[0].marketplace_name@,
            directory_location: dir,
            repository: opt_view(mr[0].repository),
            trust_status: crate::trust::status_of_label(mr[0].trust_status@),
            plugins: assemble_plugins(ps, used_p, skills, agents),
        };
        assert(v0 =~= m0);
        assert(seq![v0] + rest =~= ms);
    }
}

/// An inventory stored as rows is read back as the same inventory, where
/// no two marketplaces share a directory and no two plugins share one.
pub proof fn lemma_inventory_round_trip(rows: InstalledRows, ms: Seq<InstalledMarketplaceView>)
    requires
        stores_inventory(rows, ms),
        distinct_marketplace_dirs(ms),
        distinct_inventory_plugin_dirs(ms),
    ensures
        inventory_of_rows(rows) == ms,
{
    let fs = |p: PluginView| p.skills;
    let fa = |p: PluginView| p.agents;
    lemma_inventory_skill_items(ms, fs);
    lemma_inventory_agent_items(ms, fa);
    assert forall|i: int| 0 <= i < ms.len() implies plugins_under(
        rows.plugins@,
        (#[trigger] ms[i]).directory_location,
    ).map_values(
        |p: InstalledPluginRow|
            (p.marketplace_directory_location@, p.plugin_name@, p.plugin_directory_location@),
    ) == plugin_entries_of(ms[i].directory_location, ms[i].plugins) by {
        lemma_plugins_under_entries(rows.plugins@, ms[i].directory_location);
        lemma_plugin_entries_owner(ms, i);
    }
    assert forall|i: int, j: int| 0 <= i < ms.len() && 0 <= j < ms[i].plugins.len() implies skills_under(
        rows.skills@,
        (#[trigger] ms[i].plugins[j]).directory_location,
    ) == ms[i].plugins[j].skills && agents_under(
        rows.agents@,
        ms[i].plugins[j].directory_location,
    ) == ms[i].plugins[j].agents by {
        let d = ms[i].plugins[j].directory_location;
        lemma_skills_under_entries(rows.skills@, d);
        lemma_agents_under_entries(rows.agents@, d);
        lemma_inventory_items_owner(ms, fs, i, j);
        lemma_inventory_items_owner(ms, fa, i, j);
    }
    lemma_assemble_marketplaces_back(
        rows.marketplaces@,
        ms,
        Seq::empty(),
        Seq::empty(),
        rows.plugins@,
        rows.skills@,
        rows.agents@,
    );
}

} // verus!
