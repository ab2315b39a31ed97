//! The registry of what active plugins contribute to the host's
//! contribution points: commands, menu items, views, audio processors,
//! settings and extensions of points that plugins define.
use vstd::prelude::*;

use crate::ids::{CommandId, ContributionPointId, PluginId};
use crate::order::{
    lemma_insert_after_keys, lemma_insert_after_triples, lemma_with_key_push,
    lemma_with_triple_push, keys_ascending, stably_ordered, stably_sorted, triple_le,
    triple_le_exec, triples_ascending, with_key, with_triple, Triple,
};
use crate::plugin::{
    key_fits, point_of, same_contribution, same_setting, AudioProcessorSpec, CommandSpec,
    Contribution, MenuSpec, NativeViewSpec, SettingSpec, SidebarSpec, ViewSpec,
};
use crate::text::str_eq;

verus! {

/// A contribution with the plugin that made it.
#[derive(Debug, Clone)]
pub struct ContributionRecord {
    pub plugin: PluginId,
    pub contribution: Contribution,
}

/// Two records that hold the same values.
pub open spec fn same_record(a: ContributionRecord, b: ContributionRecord) -> bool {
    a.plugin == b.plugin && same_contribution(a.contribution, b.contribution)
}

impl ContributionRecord {
    pub fn duplicate(&self) -> (r: ContributionRecord)
        ensures
            same_record(r, *self),
    {
        ContributionRecord {
            plugin: self.plugin.duplicate(),
            contribution: self.contribution.duplicate(),
        }
    }
}

/// One item of a snapshot of the registry: where, from whom, and which.
#[derive(Debug, Clone)]
pub struct ContributionSnapshotItem {
    pub point: ContributionPointId,
    pub plugin: PluginId,
    pub key: String,
}

/// One item of a snapshot, with the contribution itself as its payload.
#[derive(Debug)]
pub struct RichContribution<'a> {
    pub point: ContributionPointId,
    pub plugin: PluginId,
    pub key: String,
    pub payload: &'a Contribution,
}

/// A registered record with its key.
pub type Registered = (ContributionRecord, Seq<char>);

struct Entry {
    record: ContributionRecord,
    key: String,
}

spec fn entry_views(s: Seq<Entry>) -> Seq<Registered> {
    s.map_values(|e: Entry| (e.record, e.key@))
}

/// Each key is the key of its contribution.
pub open spec fn keys_fit_all(s: Seq<Registered>) -> bool {
    forall|i: int| 0 <= i < s.len() ==> key_fits((#[trigger] s[i]).0.contribution, s[i].1)
}

/// The records of `s`, in order.
pub open spec fn records_of(s: Seq<Registered>) -> Seq<ContributionRecord> {
    s.map_values(|e: Registered| e.0)
}

/// `s` without the records of `plugin`.
pub open spec fn without_plugin(s: Seq<Registered>, plugin: Seq<char>) -> Seq<Registered>
    decreases s.len(),
{
    if s.len() == 0 {
        s
    } else if s.last().0.plugin@ == plugin {
        without_plugin(s.drop_last(), plugin)
    } else {
        without_plugin(s.drop_last(), plugin).push(s.last())
    }
}

/// The records of `items`, each made by `plugin`.
pub open spec fn attributed(plugin: PluginId, items: Seq<Contribution>) -> Seq<ContributionRecord> {
    items.map_values(|c: Contribution| ContributionRecord { plugin, contribution: c })
}

/// The records of `s` at `point`, in order.
pub open spec fn at_point(s: Seq<ContributionRecord>, point: Seq<char>) -> Seq<ContributionRecord>
    decreases s.len(),
{
    if s.len() == 0 {
        s
    } else if point_of(s.last().contribution) == point {
        at_point(s.drop_last(), point).push(s.last())
    } else {
        at_point(s.drop_last(), point)
    }
}

/// The commands in `s`, each with its plugin, in order.
pub open spec fn commands_in(s: Seq<ContributionRecord>) -> Seq<(PluginId, CommandSpec)>
    decreases s.len(),
{
    if s.len() == 0 {
        Seq::empty()
    } else {
        let rest = commands_in(s.drop_last());
        match s.last().contribution {
            Contribution::Command(spec) => rest.push((s.last().plugin, spec)),
            _ => rest,
        }
    }
}

/// The menu items in `s` at `location`, each with its plugin, in order.
pub open spec fn menu_items_in(s: Seq<ContributionRecord>, location: Seq<char>) -> Seq<
    (PluginId, MenuSpec),
>
    decreases s.len(),
{
    if s.len() == 0 {
        Seq::empty()
    } else {
        let rest = menu_items_in(s.drop_last(), location);
        match s.last().contribution {
            Contribution::MenuItem(spec) => if spec.location@ == location {
                rest.push((s.last().plugin, spec))
            } else {
                rest
            },
            _ => rest,
        }
    }
}

/// The side bar entries in `s`, each with its plugin, in order.
pub open spec fn sidebars_in(s: Seq<ContributionRecord>) -> Seq<(PluginId, SidebarSpec)>
    decreases s.len(),
{
    if s.len() == 0 {
        Seq::empty()
    } else {
        let rest = sidebars_in(s.drop_last());
        match s.last().contribution {
            Contribution::SidebarItem(spec) => rest.push((s.last().plugin, spec)),
            _ => rest,
        }
    }
}

/// The web views in `s`, each with its plugin, in order.
pub open spec fn views_in(s: Seq<ContributionRecord>) -> Seq<(PluginId, ViewSpec)>
    decreases s.len(),
{
    if s.len() == 0 {
        Seq::empty()
    } else {
        let rest = views_in(s.drop_last());
        match s.last().contribution {
            Contribution::View(spec) => rest.push((s.last().plugin, spec)),
            _ => rest,
        }
    }
}

/// The native views in `s`, each with its plugin, in order.
pub open spec fn native_views_in(s: Seq<ContributionRecord>) -> Seq<(PluginId, NativeViewSpec)>
    decreases s.len(),
{
    if s.len() == 0 {
        Seq::empty()
    } else {
        let rest = native_views_in(s.drop_last());
        match s.last().contribution {
            Contribution::NativeView(spec) => rest.push((s.last().plugin, spec)),
            _ => rest,
        }
    }
}

/// The audio processors in `s`, each with its plugin, in order.
pub open spec fn processors_in(s: Seq<ContributionRecord>) -> Seq<(PluginId, AudioProcessorSpec)>
    decreases s.len(),
{
    if s.len() == 0 {
        Seq::empty()
    } else {
        let rest = processors_in(s.drop_last());
        match s.last().contribution {
            Contribution::AudioProcessor(spec) => rest.push((s.last().plugin, spec)),
            _ => rest,
        }
    }
}

/// Whether some record of `s` is an audio processor of `plugin`.
pub open spec fn has_audio(s: Seq<ContributionRecord>, plugin: Seq<char>) -> bool {
    exists|i: int|
        0 <= i < processors_in(s).len() && (#[trigger] processors_in(s)[i]).0@ == plugin
}

/// The settings in `s` that `plugin` declares, in order.
pub open spec fn settings_in(s: Seq<ContributionRecord>, plugin: Seq<char>) -> Seq<SettingSpec>
    decreases s.len(),
{
    if s.len() == 0 {
        Seq::empty()
    } else {
        let rest = settings_in(s.drop_last(), plugin);
        match s.last().contribution {
            Contribution::Setting(spec) => if s.last().plugin@ == plugin {
                rest.push(spec)
            } else {
                rest
            },
            _ => rest,
        }
    }
}

/// The plugin of the first of `commands` whose id is `command`.
pub open spec fn owner_in(commands: Seq<(PluginId, CommandSpec)>, command: Seq<char>) -> Option<
    PluginId,
>
    decreases commands.len(),
{
    if commands.len() == 0 {
        None
    } else if commands[0].1.id@ == command {
        Some(commands[0].0)
    } else {
        owner_in(commands.drop_first(), command)
    }
}

/// Audio processors keyed by their order.
pub open spec fn by_order(s: Seq<(PluginId, AudioProcessorSpec)>) -> Seq<
    (int, (PluginId, AudioProcessorSpec)),
> {
    s.map_values(|x: (PluginId, AudioProcessorSpec)| (x.1.order as int, x))
}

/// Each registered contribution keyed by its point, plugin and key.
pub open spec fn snapshot_entries(s: Seq<Registered>) -> Seq<(Triple, Contribution)> {
    s.map_values(
        |e: Registered| ((point_of(e.0.contribution), e.0.plugin@, e.1), e.0.contribution),
    )
}

/// The items of a rich snapshot keyed by point, plugin and key.
pub open spec fn rich_entries<'a>(r: Seq<RichContribution<'a>>) -> Seq<(Triple, Contribution)> {
    r.map_values(|x: RichContribution<'a>| ((x.point@, x.plugin@, x.key@), *x.payload))
}

/// The keys of `s` with nothing else.
pub open spec fn keys_only(s: Seq<(Triple, Contribution)>) -> Seq<(Triple, ())> {
    s.map_values(|e: (Triple, Contribution)| (e.0, ()))
}

/// The items of a snapshot as point, plugin and key.
pub open spec fn item_keys(r: Seq<ContributionSnapshotItem>) -> Seq<(Triple, ())> {
    r.map_values(|x: ContributionSnapshotItem| ((x.point@, x.plugin@, x.key@), ()))
}

proof fn lemma_keys_only_with(s: Seq<(Triple, Contribution)>, t: Triple)
    ensures
        with_triple(keys_only(s), t) == keys_only(with_triple(s, t)),
    decreases s.len(),
{
    if s.len() > 0 {
        lemma_keys_only_with(s.drop_last(), t);
        assert(keys_only(s).drop_last() =~= keys_only(s.drop_last()));
        if s.last().0 == t {
            assert(keys_only(with_triple(s.drop_last(), t).push(s.last())) =~= keys_only(
                with_triple(s.drop_last(), t),
            ).push((t, ())));
        }
    } else {
        assert(keys_only(s) =~= Seq::<(Triple, ())>::empty());
        assert(keys_only(Seq::<(Triple, Contribution)>::empty()) =~= Seq::<(Triple, ())>::empty());
    }
}

proof fn lemma_without_plugin_append(a: Seq<Registered>, b: Seq<Registered>, plugin: Seq<char>)
    ensures
        without_plugin(a + b, plugin) == without_plugin(a, plugin) + without_plugin(b, plugin),
    decreases b.len(),
{
    if b.len() == 0 {
        assert(a + b =~= a);
        assert(without_plugin(a, plugin) + without_plugin(b, plugin) =~= without_plugin(a, plugin));
    } else {
        assert((a + b).drop_last() =~= a + b.drop_last());
        lemma_without_plugin_append(a, b.drop_last(), plugin);
        if b.last().0.plugin@ != plugin {
            assert(without_plugin(a, plugin) + without_plugin(b.drop_last(), plugin).push(b.last())
                =~= (without_plugin(a, plugin) + without_plugin(b.drop_last(), plugin)).push(
                b.last(),
            ));
        }
    }
}

/// No record of `plugin` is left once its records are taken out.
pub proof fn lemma_revoke_leaves_none(s: Seq<Registered>, plugin: Seq<char>)
    ensures
        forall|i: int|
            0 <= i < without_plugin(s, plugin).len() ==> (#[trigger] without_plugin(
                s,
                plugin,
            )[i]).0.plugin@ != plugin,
    decreases s.len(),
{
    if s.len() > 0 {
        lemma_revoke_leaves_none(s.drop_last(), plugin);
    }
}

/// Taking out the records of `plugin` twice is taking them out once.
pub proof fn lemma_revoke_idempotent(s: Seq<Registered>, plugin: Seq<char>)
    ensures
        without_plugin(without_plugin(s, plugin), plugin) == without_plugin(s, plugin),
{
    lemma_revoke_leaves_none(s, plugin);
    lemma_without_plugin_keeps_others(without_plugin(s, plugin), plugin);
}

proof fn lemma_without_plugin_keeps_others(s: Seq<Registered>, plugin: Seq<char>)
    requires
        forall|i: int| 0 <= i < s.len() ==> (#[trigger] s[i]).0.plugin@ != plugin,
    ensures
        without_plugin(s, plugin) == s,
    decreases s.len(),
{
    if s.len() > 0 {
        lemma_without_plugin_keeps_others(s.drop_last(), plugin);
        assert(s.drop_last().push(s.last()) =~= s);
    }
}

proof fn lemma_without_plugin_drops_all(s: Seq<Registered>, plugin: Seq<char>)
    requires
        forall|i: int| 0 <= i < s.len() ==> (#[trigger] s[i]).0.plugin@ == plugin,
    ensures
        without_plugin(s, plugin) == Seq::<Registered>::empty(),
    decreases s.len(),
{
    if s.len() > 0 {
        lemma_without_plugin_drops_all(s.drop_last(), plugin);
    }
}

/// Applying no contributions for a plugin leaves what revoking its
/// contributions leaves: the registry without its records.
pub proof fn lemma_apply_nothing_is_revoke(before: Seq<Registered>, after: Seq<Registered>, plugin: PluginId)
    requires
        records_of(after) == records_of(without_plugin(before, plugin@)) + attributed(
            plugin,
            Seq::<Contribution>::empty(),
        ),
        after.take(without_plugin(before, plugin@).len() as int) == without_plugin(before, plugin@),
    ensures
        after == without_plugin(before, plugin@),
{
    let kept = without_plugin(before, plugin@);
    assert(attributed(plugin, Seq::<Contribution>::empty()) =~= Seq::<ContributionRecord>::empty());
    assert(records_of(kept) + Seq::<ContributionRecord>::empty() =~= records_of(kept));
    assert(records_of(after).len() == after.len());
    assert(records_of(kept).len() == kept.len());
    assert(after.take(kept.len() as int) =~= after);
}

/// Revoking what a plugin contributed after `apply` gives the registry
/// that revoking it before would have given: `apply` touches no other
/// plugin's records.
pub proof fn lemma_revoke_undoes_apply(
    before: Seq<Registered>,
    after: Seq<Registered>,
    plugin: PluginId,
    items: Seq<Contribution>,
)
    requires
        records_of(after) == records_of(without_plugin(before, plugin@)) + attributed(
            plugin,
            items,
        ),
        after.take(without_plugin(before, plugin@).len() as int) == without_plugin(
            before,
            plugin@,
        ),
    ensures
        without_plugin(after, plugin@) == without_plugin(before, plugin@),
{
    let kept = without_plugin(before, plugin@);
    let k = kept.len() as int;
    assert(records_of(after).len() == after.len());
    let tail = after.skip(k);
    assert(after =~= after.take(k) + tail);
    assert forall|i: int| 0 <= i < tail.len() implies (#[trigger] tail[i]).0.plugin@ == plugin@ by {
        assert(records_of(after)[k + i] == attributed(plugin, items)[i]);
    }
    lemma_without_plugin_append(after.take(k), tail, plugin@);
    lemma_without_plugin_drops_all(tail, plugin@);
    lemma_revoke_idempotent(before, plugin@);
    assert(without_plugin(after.take(k), plugin@) + Seq::<Registered>::empty() =~= kept);
}

proof fn lemma_has_audio_grows(recs: Seq<ContributionRecord>, n: int, plugin: Seq<char>)
    requires
        0 <= n <= recs.len(),
        has_audio(recs.take(n), plugin),
    ensures
        has_audio(recs, plugin),
    decreases recs.len() - n,
{
    if n < recs.len() {
        let a = processors_in(recs.take(n));
        let b = processors_in(recs.take(n + 1));
        assert(recs.take(n + 1).drop_last() =~= recs.take(n));
        let i = choose|i: int| 0 <= i < a.len() && (#[trigger] a[i]).0@ == plugin;
        assert(b[i] == a[i]);
        lemma_has_audio_grows(recs, n + 1, plugin);
    } else {
        assert(recs.take(n) =~= recs);
    }
}

/// All contributions of all active plugins, in the order they were made.
pub struct ContributionRegistry {
    entries: Vec<Entry>,
}

impl View for ContributionRegistry {
    type V = Seq<Registered>;

    closed spec fn view(&self) -> Seq<Registered> {
        entry_views(self.entries@)
    }
}

/// The entries of `entries` not made by `plugin`.
fn take_without(entries: Vec<Entry>, plugin: &PluginId) -> (r: Vec<Entry>)
    requires
        keys_fit_all(entry_views(entries@)),
    ensures
        entry_views(r@) == without_plugin(entry_views(entries@), plugin@),
        keys_fit_all(entry_views(r@)),
{
    let ghost src = entry_views(entries@);
    let mut rest = entries;
    let mut out: Vec<Entry> = Vec::new();
    let ghost mut n: int = 0;
    assert(src.skip(0) =~= src);
    assert(src.take(0) =~= Seq::<Registered>::empty());
    assert(entry_views(out@) =~= Seq::<Registered>::empty());
    while rest.len() > 0
        invariant
            0 <= n <= src.len(),
            entry_views(rest@) == src.skip(n),
            entry_views(out@) == without_plugin(src.take(n), plugin@),
            keys_fit_all(src),
            keys_fit_all(entry_views(out@)),
        decreases rest@.len(),
    {
        let ghost before = rest@;
        let e = rest.remove(0);
        proof {
            assert(entry_views(before).len() == before.len());
            assert(src.skip(n)[0] == src[n]);
            assert(entry_views(before)[0] == src[n]);
            assert(rest@ =~= before.skip(1));
            assert(entry_views(rest@) =~= entry_views(before).skip(1));
            assert(entry_views(rest@) =~= src.skip(n + 1));
            assert(src.take(n + 1).drop_last() =~= src.take(n));
        }
        if !e.record.plugin.same(plugin) {
            let ghost prev = out@;
            out.push(e);
            proof {
                assert(entry_views(out@) =~= entry_views(prev).push(src[n]));
                assert forall|i: int| 0 <= i < entry_views(out@).len() implies key_fits(
                    (#[trigger] entry_views(out@)[i]).0.contribution,
                    entry_views(out@)[i].1,
                ) by {
                    if i < prev.len() {
                        assert(entry_views(out@)[i] == entry_views(prev)[i]);
                    }
                }
            }
        }
        proof {
            n = n + 1;
        }
    }
    assert(src.take(n) =~= src);
    out
}

impl ContributionRegistry {
    #[verifier::type_invariant]
    spec fn well_formed(self) -> bool {
        keys_fit_all(entry_views(self.entries@))
    }

    pub fn new() -> (r: ContributionRegistry)
        ensures
            r@ == Seq::<Registered>::empty(),
    {
        let r = ContributionRegistry { entries: Vec::new() };
        assert(r@ =~= Seq::<Registered>::empty());
        r
    }

    /// Replaces everything `plugin` contributed with `items`, which come
    /// after all other records, in their order.
    pub fn apply(&mut self, plugin: &PluginId, items: Vec<Contribution>)
        ensures
            records_of(final(self)@) == records_of(without_plugin(old(self)@, plugin@))
                + attributed(*plugin, items@),
            final(self)@.take(without_plugin(old(self)@, plugin@).len() as int) == without_plugin(
                old(self)@,
                plugin@,
            ),
            keys_fit_all(final(self)@),
    {
        proof {
            use_type_invariant(&*self);
        }
        let mut entries: Vec<Entry> = Vec::new();
        std::mem::swap(&mut entries, &mut self.entries);
        let mut kept = take_without(entries, plugin);
        let ghost base = entry_views(kept@);
        let mut rest = items;
        let ghost all = rest@;
        let ghost mut n: int = 0;
        assert(all.skip(0) =~= all);
        assert(entry_views(kept@).take(base.len() as int) =~= base);
        assert(records_of(base) + attributed(*plugin, all.take(0)) =~= records_of(base));
        while rest.len() > 0
            invariant
                0 <= n <= all.len(),
                rest@ == all.skip(n),
                entry_views(kept@).len() == base.len() + n,
                entry_views(kept@).take(base.len() as int) == base,
                records_of(entry_views(kept@)) == records_of(base) + attributed(
                    *plugin,
                    all.take(n),
                ),
                keys_fit_all(entry_views(kept@)),
            decreases rest@.len(),
        {
            let c = rest.remove(0);
            let key = c.key();
            let ghost prev = kept@;
            proof {
                assert(c == all[n]);
                assert(rest@ =~= all.skip(n + 1));
            }
            kept.push(
                Entry { record: ContributionRecord { plugin: plugin.duplicate(), contribution: c }, key },
            );
            proof {
                let v = entry_views(kept@);
                assert(v =~= entry_views(prev).push(v.last()));
                assert(v.take(base.len() as int) =~= entry_views(prev).take(base.len() as int));
                assert(all.take(n + 1) =~= all.take(n).push(all[n]));
                assert(records_of(v) =~= records_of(entry_views(prev)).push(v.last().0));
                assert(records_of(base) + attributed(*plugin, all.take(n + 1)) =~= (records_of(base)
                    + attributed(*plugin, all.take(n))).push(v.last().0));
                assert forall|i: int| 0 <= i < v.len() implies key_fits(
                    (#[trigger] v[i]).0.contribution,
                    v[i].1,
                ) by {
                    if i < prev.len() {
                        assert(v[i] == entry_views(prev)[i]);
                    }
                }
                n = n + 1;
            }
        }
        assert(all.take(n) =~= all);
        self.entries = kept;
    }

    /// Removes everything `plugin` contributed.
    pub fn revoke(&mut self, plugin: &PluginId)
        ensures
            final(self)@ == without_plugin(old(self)@, plugin@),
            keys_fit_all(final(self)@),
    {
        proof {
            use_type_invariant(&*self);
        }
        let mut entries: Vec<Entry> = Vec::new();
        std::mem::swap(&mut entries, &mut self.entries);
        let kept = take_without(entries, plugin);
        self.entries = kept;
    }

    /// Copies of the records at `point`, in order.
    pub fn query(&self, point: &ContributionPointId) -> (r: Vec<ContributionRecord>)
        ensures
            r@.len() == at_point(records_of(self@), point@).len(),
            forall|i: int|
                0 <= i < r@.len() ==> same_record(
                    #[trigger] r@[i],
                    at_point(records_of(self@), point@)[i],
                ),
    {
        let ghost recs = records_of(self@);
        let mut out: Vec<ContributionRecord> = Vec::new();
        let mut i: usize = 0;
        while i < self.entries.len()
            invariant
                i <= self.entries@.len(),
                recs == records_of(self@),
                recs.len() == self.entries@.len(),
                out@.len() == at_point(recs.take(i as int), point@).len(),
                forall|k: int|
                    0 <= k < out@.len() ==> same_record(
                        #[trigger] out@[k],
                        at_point(recs.take(i as int), point@)[k],
                    ),
            decreases self.entries@.len() - i,
        {
            let record = &self.entries[i].record;
            proof {
                assert(recs.take(i + 1).drop_last() =~= recs.take(i as int));
                assert(recs[i as int] == *record);
            }
            if record.contribution.point().same(point) {
                out.push(record.duplicate());
            }
            i = i + 1;
        }
        assert(recs.take(i as int) =~= recs);
        out
    }

    /// The commands, each with its plugin, in order.
    pub fn commands(&self) -> (r: Vec<(PluginId, CommandSpec)>)
        ensures
            r@ == commands_in(records_of(self@)),
    {
        let ghost recs = records_of(self@);
        let mut out: Vec<(PluginId, CommandSpec)> = Vec::new();
        let mut i: usize = 0;
        while i < self.entries.len()
            invariant
                i <= self.entries@.len(),
                recs == records_of(self@),
                recs.len() == self.entries@.len(),
                out@ == commands_in(recs.take(i as int)),
            decreases self.entries@.len() - i,
        {
            let record = &self.entries[i].record;
            proof {
                assert(recs.take(i + 1).drop_last() =~= recs.take(i as int));
                assert(recs[i as int] == *record);
            }
            match &record.contribution {
                Contribution::Command(spec) => {
                    out.push((record.plugin.duplicate(), spec.duplicate()));
                },
                _ => {},
            }
            i = i + 1;
        }
        assert(recs.take(i as int) =~= recs);
        out
    }

    /// The menu items at `location`, each with its plugin, in order.
    pub fn menu_items(&self, location: &str) -> (r: Vec<(PluginId, MenuSpec)>)
        ensures
            r@ == menu_items_in(records_of(self@), location@),
    {
        let ghost recs = records_of(self@);
        let mut out: Vec<(PluginId, MenuSpec)> = Vec::new();
        let mut i: usize = 0;
        while i < self.entries.len()
            invariant
                i <= self.entries@.len(),
                recs == records_of(self@),
                recs.len() == self.entries@.len(),
                out@ == menu_items_in(recs.take(i as int), location@),
            decreases self.entries@.len() - i,
        {
            let record = &self.entries[i].record;
            proof {
                assert(recs.take(i + 1).drop_last() =~= recs.take(i as int));
                assert(recs[i as int] == *record);
            }
            match &record.contribution {
                Contribution::MenuItem(spec) => {
                    if str_eq(spec.location.as_str(), location) {
                        out.push((record.plugin.duplicate(), spec.duplicate()));
                    }
                },
                _ => {},
            }
            i = i + 1;
        }
        assert(recs.take(i as int) =~= recs);
        out
    }

    /// The side bar entries, each with its plugin, in order.
    pub fn sidebars(&self) -> (r: Vec<(PluginId, SidebarSpec)>)
        ensures
            r@ == sidebars_in(records_of(self@)),
    {
        let ghost recs = records_of(self@);
        let mut out: Vec<(PluginId, SidebarSpec)> = Vec::new();
        let mut i: usize = 0;
        while i < self.entries.len()
            invariant
                i <= self.entries@.len(),
                recs == records_of(self@),
                recs.len() == self.entries@.len(),
                out@ == sidebars_in(recs.take(i as int)),
            decreases self.entries@.len() - i,
        {
            let record = &self.entries[i].record;
            proof {
                assert(recs.take(i + 1).drop_last() =~= recs.take(i as int));
                assert(recs[i as int] == *record);
            }
            match &record.contribution {
                Contribution::SidebarItem(spec) => {
                    out.push((record.plugin.duplicate(), spec.duplicate()));
                },
                _ => {},
            }
            i = i + 1;
        }
        assert(recs.take(i as int) =~= recs);
        out
    }

    /// The web views, each with its plugin, in order.
    pub fn views(&self) -> (r: Vec<(PluginId, ViewSpec)>)
        ensures
            r@ == views_in(records_of(self@)),
    {
        let ghost recs = records_of(self@);
        let mut out: Vec<(PluginId, ViewSpec)> = Vec::new();
        let mut i: usize = 0;
        while i < self.entries.len()
            invariant
                i <= self.entries@.len(),
                recs == records_of(self@),
                recs.len() == self.entries@.len(),
                out@ == views_in(recs.take(i as int)),
            decreases self.entries@.len() - i,
        {
            let record = &self.entries[i].record;
            proof {
                assert(recs.take(i + 1).drop_last() =~= recs.take(i as int));
                assert(recs[i as int] == *record);
            }
            match &record.contribution {
                Contribution::View(spec) => {
                    out.push((record.plugin.duplicate(), spec.duplicate()));
                },
                _ => {},
            }
            i = i + 1;
        }
        assert(recs.take(i as int) =~= recs);
        out
    }

    /// The native views, each with its plugin, in order.
    pub fn native_views(&self) -> (r: Vec<(PluginId, NativeViewSpec)>)
        ensures
            r@ == native_views_in(records_of(self@)),
    {
        let ghost recs = records_of(self@);
        let mut out: Vec<(PluginId, NativeViewSpec)> = Vec::new();
        let mut i: usize = 0;
        while i < self.entries.len()
            invariant
                i <= self.entries@.len(),
                recs == records_of(self@),
                recs.len() == self.entries@.len(),
                out@ == native_views_in(recs.take(i as int)),
            decreases self.entries@.len() - i,
        {
            let record = &self.entries[i].record;
            proof {
                assert(recs.take(i + 1).drop_last() =~= recs.take(i as int));
                assert(recs[i as int] == *record);
            }
            match &record.contribution {
                Contribution::NativeView(spec) => {
                    out.push((record.plugin.duplicate(), spec.duplicate()));
                },
                _ => {},
            }
            i = i + 1;
        }
        assert(recs.take(i as int) =~= recs);
        out
    }

    /// The audio processors, each with its plugin, by ascending order;
    /// processors of equal order in the order they were contributed.
    pub fn audio_processors(&self) -> (r: Vec<(PluginId, AudioProcessorSpec)>)
        ensures
            stably_ordered(by_order(r@), by_order(processors_in(records_of(self@)))),
    {
        let ghost recs = records_of(self@);
        let mut out: Vec<(PluginId, AudioProcessorSpec)> = Vec::new();
        let mut i: usize = 0;
        assert(by_order(out@) =~= Seq::<(int, (PluginId, AudioProcessorSpec))>::empty());
        assert(by_order(processors_in(recs.take(0))) =~= Seq::<
            (int, (PluginId, AudioProcessorSpec)),
        >::empty());
        while i < self.entries.len()
            invariant
                i <= self.entries@.len(),
                recs == records_of(self@),
                recs.len() == self.entries@.len(),
                stably_ordered(by_order(out@), by_order(processors_in(recs.take(i as int)))),
            decreases self.entries@.len() - i,
        {
            let record = &self.entries[i].record;
            proof {
                assert(recs.take(i + 1).drop_last() =~= recs.take(i as int));
                assert(recs[i as int] == *record);
            }
            match &record.contribution {
                Contribution::AudioProcessor(spec) => {
                    let ghost prev = out@;
                    let item = (record.plugin.duplicate(), spec.duplicate());
                    insert_by_order(&mut out, item);
                    proof {
                        let src = by_order(processors_in(recs.take(i as int)));
                        let x = (item.1.order as int, item);
                        assert(by_order(processors_in(recs.take(i + 1))) =~= src.push(x));
                        assert(by_order(prev.push(item)) =~= by_order(prev).push(x));
                        assert forall|k: int| #[trigger]
                            with_key(by_order(out@), k) == with_key(
                                by_order(processors_in(recs.take(i + 1))),
                                k,
                            ) by {
                            lemma_with_key_push(by_order(prev), x, k);
                            lemma_with_key_push(src, x, k);
                            assert(with_key(by_order(prev), k) == with_key(src, k));
                        }
                    }
                },
                _ => {},
            }
            i = i + 1;
        }
        assert(recs.take(i as int) =~= recs);
        out
    }

    /// Whether `plugin` contributed an audio processor.
    pub fn provides_audio(&self, plugin: &PluginId) -> (r: bool)
        ensures
            r == has_audio(records_of(self@), plugin@),
    {
        let ghost recs = records_of(self@);
        let mut i: usize = 0;
        while i < self.entries.len()
            invariant
                i <= self.entries@.len(),
                recs == records_of(self@),
                recs.len() == self.entries@.len(),
                !has_audio(recs.take(i as int), plugin@),
            decreases self.entries@.len() - i,
        {
            let record = &self.entries[i].record;
            proof {
                assert(recs.take(i + 1).drop_last() =~= recs.take(i as int));
                assert(recs[i as int] == *record);
            }
            match &record.contribution {
                Contribution::AudioProcessor(spec) => {
                    if record.plugin.same(plugin) {
                        proof {
                            let ps = processors_in(recs.take(i + 1));
                            assert(ps.last().0@ == plugin@);
                            assert(has_audio(recs.take(i + 1), plugin@));
                            lemma_has_audio_grows(recs, i as int + 1, plugin@);
                        }
                        return true;
                    }
                    proof {
                        let before = processors_in(recs.take(i as int));
                        let after = processors_in(recs.take(i + 1));
                        assert(after == before.push((record.plugin, *spec)));
                        assert forall|k: int| 0 <= k < after.len() implies (#[trigger] after[k]).0@
                            != plugin@ by {
                            if k < before.len() {
                                assert(after[k] == before[k]);
                            }
                        }
                    }
                },
                _ => {
                    proof {
                        assert(processors_in(recs.take(i + 1)) == processors_in(
                            recs.take(i as int),
                        ));
                    }
                },
            }
            i = i + 1;
        }
        assert(recs.take(i as int) =~= recs);
        false
    }

    /// Copies of the settings `plugin` declares, in order.
    pub fn settings(&self, plugin: &PluginId) -> (r: Vec<SettingSpec>)
        ensures
            r@.len() == settings_in(records_of(self@), plugin@).len(),
            forall|i: int|
                0 <= i < r@.len() ==> same_setting(
                    #[trigger] r@[i],
                    settings_in(records_of(self@), plugin@)[i],
                ),
    {
        let ghost recs = records_of(self@);
        let mut out: Vec<SettingSpec> = Vec::new();
        let mut i: usize = 0;
        while i < self.entries.len()
            invariant
                i <= self.entries@.len(),
                recs == records_of(self@),
                recs.len() == self.entries@.len(),
                out@.len() == settings_in(recs.take(i as int), plugin@).len(),
                forall|k: int|
                    0 <= k < out@.len() ==> same_setting(
                        #[trigger] out@[k],
                        settings_in(recs.take(i as int), plugin@)[k],
                    ),
            decreases self.entries@.len() - i,
        {
            let record = &self.entries[i].record;
            proof {
                assert(recs.take(i + 1).drop_last() =~= recs.take(i as int));
                assert(recs[i as int] == *record);
            }
            match &record.contribution {
                Contribution::Setting(spec) => {
                    if record.plugin.same(plugin) {
                        out.push(spec.duplicate());
                    }
                },
                _ => {},
            }
            i = i + 1;
        }
        assert(recs.take(i as int) =~= recs);
        out
    }

    /// The plugin of the first command registered under `command`.
    pub fn owner_of_command(&self, command: &CommandId) -> (r: Option<PluginId>)
        ensures
            r == owner_in(commands_in(records_of(self@)), command@),
    {
        let commands = self.commands();
        let mut j: usize = 0;
        assert(commands@.skip(0) =~= commands@);
        while j < commands.len()
            invariant
                j <= commands@.len(),
                commands@ == commands_in(records_of(self@)),
                owner_in(commands@, command@) == owner_in(commands@.skip(j as int), command@),
            decreases commands@.len() - j,
        {
            proof {
                assert(commands@.skip(j as int)[0] == commands@[j as int]);
                assert(commands@.skip(j as int).drop_first() =~= commands@.skip(j + 1));
            }
            if commands[j].1.id.same(command) {
                assert(owner_in(commands@.skip(j as int), command@) == Some(commands@[j as int].0));
                return Some(commands[j].0.duplicate());
            }
            j = j + 1;
        }
        None
    }

    /// Every registered contribution as point, plugin and key, sorted by
    /// those three.
    pub fn snapshot(&self) -> (r: Vec<ContributionSnapshotItem>)
        ensures
            stably_sorted(item_keys(r@), keys_only(snapshot_entries(self@))),
    {
        let rich = self.rich_snapshot();
        let mut out: Vec<ContributionSnapshotItem> = Vec::new();
        let mut i: usize = 0;
        while i < rich.len()
            invariant
                i <= rich@.len(),
                item_keys(out@) == keys_only(rich_entries(rich@)).take(i as int),
            decreases rich@.len() - i,
        {
            let ghost prev = out@;
            out.push(
                ContributionSnapshotItem {
                    point: rich[i].point.duplicate(),
                    plugin: rich[i].plugin.duplicate(),
                    key: rich[i].key.clone(),
                },
            );
            proof {
                assert(item_keys(out@) =~= item_keys(prev).push(item_keys(out@).last()));
                assert(keys_only(rich_entries(rich@)).take(i + 1) =~= keys_only(
                    rich_entries(rich@),
                ).take(i as int).push(keys_only(rich_entries(rich@))[i as int]));
            }
            i = i + 1;
        }
        proof {
            let all = keys_only(rich_entries(rich@));
            assert(all.take(i as int) =~= all);
            assert forall|t: Triple| #[trigger]
                with_triple(item_keys(out@), t) == with_triple(
                    keys_only(snapshot_entries(self@)),
                    t,
                ) by {
                lemma_keys_only_with(rich_entries(rich@), t);
                lemma_keys_only_with(snapshot_entries(self@), t);
            }
        }
        out
    }

    /// Every registered contribution with its point, plugin and key, sorted
    /// by those three; contributions that agree on all three in the order
    /// they were made.
    pub fn rich_snapshot(&self) -> (r: Vec<RichContribution<'_>>)
        ensures
            stably_sorted(rich_entries(r@), snapshot_entries(self@)),
            forall|i: int| 0 <= i < r@.len() ==> key_fits(*(#[trigger] r@[i]).payload, r@[i].key@),
    {
        proof {
            use_type_invariant(self);
        }
        let ghost src = snapshot_entries(self@);
        let mut out: Vec<RichContribution<'_>> = Vec::new();
        let mut i: usize = 0;
        assert(rich_entries(out@) =~= Seq::<(Triple, Contribution)>::empty());
        assert(src.take(0) =~= Seq::<(Triple, Contribution)>::empty());
        while i < self.entries.len()
            invariant
                i <= self.entries@.len(),
                src == snapshot_entries(self@),
                src.len() == self.entries@.len(),
                keys_fit_all(self@),
                stably_sorted(rich_entries(out@), src.take(i as int)),
                forall|k: int|
                    0 <= k < out@.len() ==> key_fits(*(#[trigger] out@[k]).payload, out@[k].key@),
            decreases self.entries@.len() - i,
        {
            let e = &self.entries[i];
            let item = RichContribution {
                point: e.record.contribution.point(),
                plugin: e.record.plugin.duplicate(),
                key: e.key.clone(),
                payload: &e.record.contribution,
            };
            let ghost prev = out@;
            proof {
                assert(src[i as int] == ((item.point@, item.plugin@, item.key@), *item.payload));
                assert(src.take(i + 1) =~= src.take(i as int).push(src[i as int]));
                assert(self@[i as int].0 == e.record);
            }
            insert_by_key(&mut out, item);
            proof {
                let x = src[i as int];
                assert(rich_entries(prev.push(item)) =~= rich_entries(prev).push(x));
                assert forall|t: Triple| #[trigger]
                    with_triple(rich_entries(out@), t) == with_triple(src.take(i + 1), t) by {
                    lemma_with_triple_push(rich_entries(prev), x, t);
                    lemma_with_triple_push(src.take(i as int), x, t);
                    assert(with_triple(rich_entries(prev), t) == with_triple(src.take(i as int), t));
                }
            }
            i = i + 1;
        }
        assert(src.take(i as int) =~= src);
        out
    }
}

impl Default for ContributionRegistry {
    fn default() -> (r: ContributionRegistry)
        ensures
            r@ == Seq::<Registered>::empty(),
    {
        ContributionRegistry::new()
    }
}

/// Inserts `item` after every processor whose order is at most its own.
fn insert_by_order(out: &mut Vec<(PluginId, AudioProcessorSpec)>, item: (
    PluginId,
    AudioProcessorSpec,
))
    requires
        keys_ascending(by_order(old(out)@)),
    ensures
        keys_ascending(by_order(final(out)@)),
        forall|k: int| #[trigger]
            with_key(by_order(final(out)@), k) == with_key(by_order(old(out)@.push(item)), k),
{
    let ghost before = by_order(out@);
    let ghost x = (item.1.order as int, item);
    let mut p: usize = 0;
    while p < out.len() && out[p].1.order <= item.1.order
        invariant
            p <= out@.len(),
            before == by_order(out@),
            x == (item.1.order as int, item),
            forall|k: int| 0 <= k < p ==> (#[trigger] before[k]).0 <= x.0,
        decreases out@.len() - p,
    {
        p = p + 1;
    }
    out.insert(p, item);
    proof {
        assert(by_order(out@) =~= before.take(p as int).push(x) + before.skip(p as int));
        assert(by_order(old(out)@.push(item)) =~= before.push(x));
        lemma_insert_after_keys(before, x, p as int);
    }
}

/// Inserts `item` after every item whose point, plugin and key are at most
/// its own.
fn insert_by_key<'a>(out: &mut Vec<RichContribution<'a>>, item: RichContribution<'a>)
    requires
        triples_ascending(rich_entries(old(out)@)),
        forall|k: int|
            0 <= k < old(out)@.len() ==> key_fits(*(#[trigger] old(out)@[k]).payload, old(out)@[k].key@),
        key_fits(*item.payload, item.key@),
    ensures
        triples_ascending(rich_entries(final(out)@)),
        forall|t: Triple| #[trigger]
            with_triple(rich_entries(final(out)@), t) == with_triple(
                rich_entries(old(out)@.push(item)),
                t,
            ),
        forall|k: int|
            0 <= k < final(out)@.len() ==> key_fits(
                *(#[trigger] final(out)@[k]).payload,
                final(out)@[k].key@,
            ),
{
    let ghost before = rich_entries(out@);
    let ghost x = ((item.point@, item.plugin@, item.key@), *item.payload);
    let mut p: usize = 0;
    while p < out.len() && triple_le_exec(
        out[p].point.as_str(),
        out[p].plugin.as_str(),
        out[p].key.as_str(),
        item.point.as_str(),
        item.plugin.as_str(),
        item.key.as_str(),
    )
        invariant
            p <= out@.len(),
            before == rich_entries(out@),
            x == ((item.point@, item.plugin@, item.key@), *item.payload),
            forall|k: int| 0 <= k < p ==> triple_le((#[trigger] before[k]).0, x.0),
        decreases out@.len() - p,
    {
        p = p + 1;
    }
    let ghost prev = out@;
    out.insert(p, item);
    proof {
        assert(rich_entries(out@) =~= before.take(p as int).push(x) + before.skip(p as int));
        assert(rich_entries(prev.push(item)) =~= before.push(x));
        lemma_insert_after_triples(before, x, p as int);
        assert forall|k: int| 0 <= k < out@.len() implies key_fits(
            *(#[trigger] out@[k]).payload,
            out@[k].key@,
        ) by {
            if k < p {
                assert(out@[k] == prev[k]);
            } else if k > p {
                assert(out@[k] == prev[k - 1]);
            }
        }
    }
}

} // verus!
