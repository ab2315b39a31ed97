//! What the plugin panel of the front end is shown: each plugin, each
//! contribution and each discovery issue, as plain text.
use vstd::prelude::*;
use vstd::string::*;

use crate::app_error::AppError;
use crate::contributions::{ContributionSnapshotItem, RichContribution};
use crate::discovery::issue_line;
use crate::error::opt_view;
use crate::ids::{dotted_error, version_text, ContributionPointId};
use crate::kernel::{PluginSnapshot, RuntimeSnapshot};
use crate::lifecycle::{state_label, PluginState};
use crate::manifest::{source_name, tier_name};
use crate::plugin::{health_name, Contribution};
use crate::text::str_eq;
use crate::runtime::PluginTable;

verus! {

/// A contribution: where it goes, which plugin made it, and its key.
#[derive(Debug, Clone)]
pub struct ContributionDto {
    pub point: String,
    pub plugin: String,
    pub key: String,
}

/// A plugin as the panel lists it.
#[derive(Debug, Clone)]
pub struct PluginDto {
    pub id: String,
    pub version: String,
    pub source: String,
    pub tier: String,
    pub user_disableable: bool,
    pub state: String,
    pub health: String,
    pub active: bool,
    pub last_error: Option<String>,
}

/// Everything the panel shows at once.
#[derive(Debug, Clone)]
pub struct KernelSnapshotDto {
    pub host_version: String,
    pub plugins: Vec<PluginDto>,
    pub contributions: Vec<ContributionDto>,
    pub issues: Vec<String>,
}

/// `d` shows the contribution `item`.
pub open spec fn shows_contribution(d: ContributionDto, item: ContributionSnapshotItem) -> bool {
    &&& d.point@ == item.point@
    &&& d.plugin@ == item.plugin@
    &&& d.key@ == item.key@
}

/// `d` shows the plugin snapshot `p`, marked active or not as `active` says.
pub open spec fn shows_plugin(d: PluginDto, p: PluginSnapshot, active: bool) -> bool {
    &&& d.id@ == p.id@
    &&& d.version@ == version_text(p.version@)
    &&& d.source@ == source_name(p.source)
    &&& d.tier@ == tier_name(p.tier)
    &&& d.user_disableable == p.user_disableable
    &&& d.state@ == state_label(p.state)
    &&& d.health@ == health_name(p.health)
    &&& d.active == active
    &&& opt_view(d.last_error) == opt_view(p.last_error)
}

/// The items at contribution point `point`; all of them when there is none.
pub open spec fn at_point(
    items: Seq<ContributionSnapshotItem>,
    point: Option<Seq<char>>,
) -> Seq<ContributionSnapshotItem> {
    match point {
        None => items,
        Some(p) => items.filter(|i: ContributionSnapshotItem| i.point@ == p),
    }
}

/// `ds` shows `items`, one for one and in order.
pub open spec fn shows_contributions(ds: Seq<ContributionDto>, items: Seq<ContributionSnapshotItem>) -> bool {
    &&& ds.len() == items.len()
    &&& forall|i: int| 0 <= i < ds.len() ==> shows_contribution(#[trigger] ds[i], items[i])
}

impl ContributionDto {
    /// The contribution `item`, as text.
    pub fn of(item: &ContributionSnapshotItem) -> (r: ContributionDto)
        ensures
            shows_contribution(r, *item),
    {
        ContributionDto {
            point: item.point.to_string(),
            plugin: item.plugin.to_string(),
            key: item.key.clone(),
        }
    }
}

/// The contributions of `items` at `point`, in their order; all of them
/// when `point` is `None`.
pub fn contributions_at(items: &Vec<ContributionSnapshotItem>, point: Option<&ContributionPointId>) -> (r: Vec<
    ContributionDto,
>)
    ensures
        shows_contributions(
            r@,
            at_point(
                items@,
                match point {
                    Some(p) => Some(p@),
                    None => None,
                },
            ),
        ),
{
    let ghost wanted: Option<Seq<char>> = match point {
        Some(p) => Some(p@),
        None => None,
    };
    let mut out: Vec<ContributionDto> = Vec::new();
    let mut i: usize = 0;
    while i < items.len()
        invariant
            i <= items@.len(),
            wanted == match point {
                Some(p) => Some(p@),
                None => None,
            },
            shows_contributions(out@, at_point(items@.take(i as int), wanted)),
        decreases items@.len() - i,
    {
        let item = &items[i];
        let keep = match point {
            Some(p) => item.point.same(p),
            None => true,
        };
        proof {
            let s = items@.take(i as int + 1);
            assert(s.drop_last() =~= items@.take(i as int));
            assert(s.last() == *item);
            reveal(Seq::filter);
        }
        if keep {
            out.push(ContributionDto::of(item));
        }
        i = i + 1;
    }
    assert(items@.take(items@.len() as int) =~= items@);
    out
}

/// The panel's list of contributions at `point`, given as text; all of
/// them when there is none. A point that is no valid id is refused as a
/// command error that gives the reason.
pub fn contributions_for(items: &Vec<ContributionSnapshotItem>, point: Option<&str>) -> (r: Result<
    Vec<ContributionDto>,
    AppError,
>)
    ensures
        point is Some && dotted_error(point.unwrap()@, "contribution point id"@) is Some ==> (
        r matches Err(AppError::Command(m)) && Some(m@) == dotted_error(
            point.unwrap()@,
            "contribution point id"@,
        )),
        point is Some && dotted_error(point.unwrap()@, "contribution point id"@) is None ==> (
        r matches Ok(ds) && shows_contributions(ds@, at_point(items@, Some(point.unwrap()@)))),
        point is None ==> (r matches Ok(ds) && shows_contributions(ds@, items@)),
{
    match point {
        Some(text) => match ContributionPointId::new(text) {
            Ok(p) => Ok(contributions_at(items, Some(&p))),
            Err(e) => Err(AppError::Command(e)),
        },
        None => Ok(contributions_at(items, None)),
    }
}

impl PluginDto {
    /// The plugin snapshot `p` as text, marked active or not as `active` says.
    pub fn of(p: &PluginSnapshot, active: bool) -> (r: PluginDto)
        ensures
            shows_plugin(r, *p, active),
    {
        let last_error = match &p.last_error {
            Some(text) => Some(text.clone()),
            None => None,
        };
        PluginDto {
            id: p.id.to_string(),
            version: p.version.to_string(),
            source: String::from_str(p.source.as_str()),
            tier: String::from_str(p.tier.as_str()),
            user_disableable: p.user_disableable,
            state: String::from_str(p.state.label()),
            health: String::from_str(p.health.name()),
            active,
            last_error,
        }
    }
}

impl KernelSnapshotDto {
    /// The diagnostics `snapshot` as the panel shows it; a plugin is marked
    /// active when `table` has it active.
    pub fn of<P>(snapshot: &RuntimeSnapshot, table: &PluginTable<P>) -> (r: KernelSnapshotDto)
        ensures
            r.host_version@ == version_text(snapshot.host_version@),
            r.plugins@.len() == snapshot.plugins@.len(),
            forall|i: int|
                0 <= i < r.plugins@.len() ==> shows_plugin(
                    #[trigger] r.plugins@[i],
                    snapshot.plugins@[i],
                    table.entries().dom().contains(snapshot.plugins@[i].id@)
                        && table.entries()[snapshot.plugins@[i].id@].tracker.state_view()
                        == PluginState::Active,
                ),
            shows_contributions(r.contributions@, snapshot.contributions@),
            r.issues@.len() == snapshot.issues@.len(),
            forall|i: int|
                0 <= i < r.issues@.len() ==> (#[trigger] r.issues@[i])@ == issue_line(
                    snapshot.issues@[i],
                ),
    {
        let mut plugins: Vec<PluginDto> = Vec::new();
        let mut i: usize = 0;
        while i < snapshot.plugins.len()
            invariant
                i <= snapshot.plugins@.len(),
                plugins@.len() == i,
                forall|k: int|
                    0 <= k < i ==> shows_plugin(
                        #[trigger] plugins@[k],
                        snapshot.plugins@[k],
                        table.entries().dom().contains(snapshot.plugins@[k].id@)
                            && table.entries()[snapshot.plugins@[k].id@].tracker.state_view()
                            == PluginState::Active,
                    ),
            decreases snapshot.plugins@.len() - i,
        {
            let p = &snapshot.plugins[i];
            plugins.push(PluginDto::of(p, table.is_active(&p.id)));
            i = i + 1;
        }
        let mut issues: Vec<String> = Vec::new();
        let mut j: usize = 0;
        while j < snapshot.issues.len()
            invariant
                j <= snapshot.issues@.len(),
                issues@.len() == j,
                forall|k: int| 0 <= k < j ==> (#[trigger] issues@[k])@ == issue_line(snapshot.issues@[k]),
            decreases snapshot.issues@.len() - j,
        {
            issues.push(snapshot.issues[j].line());
            j = j + 1;
        }
        let contributions = contributions_at(&snapshot.contributions, None);
        KernelSnapshotDto {
            host_version: snapshot.host_version.to_string(),
            plugins,
            contributions,
            issues,
        }
    }
}

/// A view the front end can open: whose it is, which it is, its title and
/// the address its page is loaded from.
#[derive(Debug, Clone)]
pub struct PluginViewResolution {
    pub plugin_id: String,
    pub view_id: String,
    pub title: String,
    pub entry_url: String,
}

/// `c` is the view `view_id` of plugin `plugin_id`.
pub open spec fn is_view(c: RichContribution, plugin_id: Seq<char>, view_id: Seq<char>) -> bool {
    &&& c.point@ == "ui.view"@
    &&& c.plugin@ == plugin_id
    &&& c.key@ == view_id
    &&& *c.payload is View
}

/// The address of the page `entry` of plugin `plugin_id`.
pub open spec fn view_url(plugin_id: Seq<char>, entry: Seq<char>) -> Seq<char> {
    "plugin://"@ + plugin_id + "/"@ + entry
}

/// `v` opens the view that `c` contributes.
pub open spec fn opens_view(v: PluginViewResolution, c: RichContribution) -> bool {
    match *c.payload {
        Contribution::View(spec) => {
            &&& v.plugin_id@ == c.plugin@
            &&& v.view_id@ == c.key@
            &&& v.title@ == spec.title@
            &&& v.entry_url@ == view_url(c.plugin@, spec.entry@)
        },
        _ => false,
    }
}

/// The view `view_id` of plugin `plugin_id`: the first such view among
/// `items`, or `None` when there is none.
pub fn resolve_view(items: &Vec<RichContribution<'_>>, plugin_id: &str, view_id: &str) -> (r: Option<
    PluginViewResolution,
>)
    ensures
        r is None <==> forall|i: int|
            0 <= i < items@.len() ==> !is_view(#[trigger] items@[i], plugin_id@, view_id@),
        r matches Some(v) ==> exists|i: int|
            #![trigger items@[i]]
            {
                &&& 0 <= i < items@.len()
                &&& is_view(items@[i], plugin_id@, view_id@)
                &&& forall|j: int| 0 <= j < i ==> !is_view(#[trigger] items@[j], plugin_id@, view_id@)
                &&& opens_view(v, items@[i])
            },
{
    proof {
        reveal_strlit("ui.view");
    }
    let mut i: usize = 0;
    while i < items.len()
        invariant
            i <= items@.len(),
            forall|j: int| 0 <= j < i ==> !is_view(#[trigger] items@[j], plugin_id@, view_id@),
        decreases items@.len() - i,
    {
        let c = &items[i];
        if str_eq(c.point.as_str(), "ui.view") && str_eq(c.plugin.as_str(), plugin_id) && str_eq(
            c.key.as_str(),
            view_id,
        ) {
            match c.payload {
                Contribution::View(spec) => {
                    let mut url = String::from_str("plugin://");
                    url.append(c.plugin.as_str());
                    url.append("/");
                    url.append(spec.entry.as_str());
                    proof {
                        reveal_strlit("plugin://");
                        reveal_strlit("/");
                        assert(is_view(items@[i as int], plugin_id@, view_id@));
                    }
                    return Some(
                        PluginViewResolution {
                            plugin_id: c.plugin.to_string(),
                            view_id: c.key.clone(),
                            title: spec.title.clone(),
                            entry_url: url,
                        },
                    );
                },
                _ => {},
            }
        }
        i = i + 1;
    }
    None
}

} // verus!
