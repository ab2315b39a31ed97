//! Where plugins are found, the problems met while looking, and how
//! duplicate finds are settled: the first one found wins, except that a
//! built-in plugin always wins over a plugin of the same id on disk.
use std::path::PathBuf;
use vstd::prelude::*;
use vstd::string::*;

use crate::ids::{contains_key, keys_of, PluginId, Version};
use crate::manifest::{
    manifest_error, same_manifest, validate_manifest, DiscoveredPlugin, Manifest, PluginSource,
};
use crate::error::error_text;
use crate::loader::{builtin_marker, path_named};
use crate::text::concat3;

verus! {

/// A problem with one candidate plugin: where it is, which plugin it
/// claims to be, and what is wrong.
#[derive(Debug, Clone)]
pub struct DiscoveryIssue {
    pub path: PathBuf,
    pub plugin: Option<String>,
    pub message: String,
}

impl DiscoveryIssue {
    /// A copy holding the same values.
    pub fn duplicate(&self) -> (r: DiscoveryIssue)
        ensures
            r == *self,
    {
        let plugin = match &self.plugin {
            Some(p) => Some(p.clone()),
            None => None,
        };
        DiscoveryIssue { path: self.path.clone(), plugin, message: self.message.clone() }
    }
}

/// The text that `Path::display` shows of a path.
pub uninterp spec fn shown_path(p: PathBuf) -> Seq<char>;

/// `Path::display`, written out: the text it shows of `p`.
#[verifier::external_body]
fn path_text(p: &PathBuf) -> (r: String)
    ensures
        r@ == shown_path(*p),
{
    p.display().to_string()
}

/// One line about an issue: where it is, a colon, and what is wrong.
pub open spec fn issue_line(i: DiscoveryIssue) -> Seq<char> {
    shown_path(i.path) + ": "@ + i.message@
}

impl DiscoveryIssue {
    /// The issue on one line: its path, a colon and a space, its message.
    pub fn line(&self) -> (r: String)
        ensures
            r@ == issue_line(*self),
    {
        let mut s = path_text(&self.path);
        s.append(": ");
        s.append(self.message.as_str());
        proof {
            reveal_strlit(": ");
        }
        s
    }
}

/// What a search for plugins found, and the problems it met.
#[derive(Debug, Clone, Default)]
pub struct DiscoveryReport {
    pub found: Vec<DiscoveredPlugin>,
    pub issues: Vec<DiscoveryIssue>,
}

/// The ids of a list of discovered plugins.
pub open spec fn found_ids(items: Seq<DiscoveredPlugin>) -> Seq<Seq<char>> {
    items.map_values(|d: DiscoveredPlugin| d.manifest.id@)
}

impl DiscoveryReport {
    /// Appends what `other` found and met.
    pub fn merge(&mut self, other: DiscoveryReport)
        ensures
            final(self).found@ == old(self).found@ + other.found@,
            final(self).issues@ == old(self).issues@ + other.issues@,
    {
        let DiscoveryReport { found: mut found, issues: mut issues } = other;
        self.found.append(&mut found);
        self.issues.append(&mut issues);
    }

    /// The ids of the plugins found, in order.
    pub fn ids(&self) -> (r: Vec<String>)
        ensures
            r@.len() == self.found@.len(),
            forall|i: int| 0 <= i < r@.len() ==> (#[trigger] r@[i])@ == self.found@[i].manifest.id@,
    {
        let mut out: Vec<String> = Vec::new();
        let mut i: usize = 0;
        while i < self.found.len()
            invariant
                i <= self.found@.len(),
                out@.len() == i,
                forall|k: int| 0 <= k < i ==> (#[trigger] out@[k])@ == self.found@[k].manifest.id@,
            decreases self.found@.len() - i,
        {
            out.push(self.found[i].manifest.id.to_string());
            i = i + 1;
        }
        out
    }
}

/// Plugins compiled into the host, each with the directory it stands for.
pub struct BuiltinLocator {
    entries: Vec<(Manifest, PathBuf)>,
}

impl BuiltinLocator {
    /// The registered plugins, in order.
    pub closed spec fn entries_view(&self) -> Seq<(Manifest, PathBuf)> {
        self.entries@
    }

    pub fn new() -> (r: BuiltinLocator)
        ensures
            r.entries_view().len() == 0,
    {
        BuiltinLocator { entries: Vec::new() }
    }

    /// The locator with `manifest` at `root` added last.
    pub fn register(self, manifest: Manifest, root: PathBuf) -> (r: BuiltinLocator)
        ensures
            r.entries_view() == self.entries_view().push((manifest, root)),
    {
        let mut entries = self.entries;
        entries.push((manifest, root));
        BuiltinLocator { entries }
    }

    pub fn entries(&self) -> (r: &Vec<(Manifest, PathBuf)>)
        ensures
            r@ == self.entries_view(),
    {
        &self.entries
    }
}

/// The entries of `entries` whose manifest is valid (`valid`) or not valid
/// (`!valid`) on host `host`, in order.
pub open spec fn entries_by_validity(
    entries: Seq<(Manifest, PathBuf)>,
    host: (u32, u32, u32),
    valid: bool,
) -> Seq<(Manifest, PathBuf)>
    decreases entries.len(),
{
    if entries.len() == 0 {
        Seq::empty()
    } else if (manifest_error(entries.last().0, host) is None) == valid {
        entries_by_validity(entries.drop_last(), host, valid).push(entries.last())
    } else {
        entries_by_validity(entries.drop_last(), host, valid)
    }
}

impl BuiltinLocator {
    /// The registered plugins, sorted by whether their manifest is valid on
    /// `host`: each valid one is found at its root, in order; each other one
    /// is reported at its root, naming it, with the validation error.
    pub fn locate(&self, host: &Version) -> (r: DiscoveryReport)
        ensures
            r.found@.len() == entries_by_validity(self.entries_view(), host@, true).len(),
            forall|i: int|
                0 <= i < r.found@.len() ==> same_manifest(
                    (#[trigger] r.found@[i]).manifest,
                    entries_by_validity(self.entries_view(), host@, true)[i].0,
                ) && r.found@[i].root == entries_by_validity(self.entries_view(), host@, true)[i].1,
            r.issues@.len() == entries_by_validity(self.entries_view(), host@, false).len(),
            forall|i: int|
                0 <= i < r.issues@.len() ==> {
                    let bad = entries_by_validity(self.entries_view(), host@, false)[i];
                    let issue = #[trigger] r.issues@[i];
                    &&& issue.path == bad.1
                    &&& issue.plugin matches Some(p) && p@ == bad.0.id@
                    &&& issue.message@ == error_text(manifest_error(bad.0, host@)->0)
                },
    {
        let ghost all = self.entries@;
        let mut found: Vec<DiscoveredPlugin> = Vec::new();
        let mut issues: Vec<DiscoveryIssue> = Vec::new();
        let mut k: usize = 0;
        while k < self.entries.len()
            invariant
                k <= all.len(),
                all == self.entries@,
                found@.len() == entries_by_validity(all.take(k as int), host@, true).len(),
                forall|i: int|
                    0 <= i < found@.len() ==> same_manifest(
                        (#[trigger] found@[i]).manifest,
                        entries_by_validity(all.take(k as int), host@, true)[i].0,
                    ) && found@[i].root == entries_by_validity(all.take(k as int), host@, true)[i].1,
                issues@.len() == entries_by_validity(all.take(k as int), host@, false).len(),
                forall|i: int|
                    0 <= i < issues@.len() ==> {
                        let bad = entries_by_validity(all.take(k as int), host@, false)[i];
                        let issue = #[trigger] issues@[i];
                        &&& issue.path == bad.1
                        &&& issue.plugin matches Some(p) && p@ == bad.0.id@
                        &&& issue.message@ == error_text(manifest_error(bad.0, host@)->0)
                    },
            decreases all.len() - k,
        {
            let ghost before = all.take(k as int);
            assert(all.take(k + 1).drop_last() =~= before);
            assert(all.take(k + 1).last() == all[k as int]);
            let entry = &self.entries[k];
            match validate_manifest(&entry.0, host) {
                Ok(()) => {
                    let manifest = entry.0.duplicate();
                    proof {
                        crate::manifest::lemma_same_manifest_error(manifest, entry.0, host@);
                    }
                    found.push(DiscoveredPlugin { manifest, root: entry.1.clone() });
                },
                Err(error) => {
                    issues.push(
                        DiscoveryIssue {
                            path: entry.1.clone(),
                            plugin: Some(entry.0.id.to_string()),
                            message: error.to_string(),
                        },
                    );
                },
            }
            k = k + 1;
        }
        assert(all.take(k as int) =~= all);
        DiscoveryReport { found, issues }
    }
}

/// A directory whose subdirectories each hold one plugin of one source.
pub struct DirectoryLocator {
    root: PathBuf,
    source: PluginSource,
}

impl DirectoryLocator {
    pub fn new(root: PathBuf, source: PluginSource) -> (r: DirectoryLocator)
        ensures
            r.root_view() == root,
            r.source_view() == source,
    {
        DirectoryLocator { root, source }
    }

    pub closed spec fn root_view(&self) -> PathBuf {
        self.root
    }

    pub closed spec fn source_view(&self) -> PluginSource {
        self.source
    }

    pub fn root(&self) -> (r: &PathBuf)
        ensures
            *r == self.root_view(),
    {
        &self.root
    }

    /// The source every plugin of this directory is recorded with, whatever
    /// its manifest says.
    pub fn source(&self) -> (r: PluginSource)
        ensures
            r == self.source_view(),
    {
        self.source
    }

    /// What a plugin of this directory is, once its `plugin.json` at `dir`
    /// has been read as `manifest`: the directory decides its source; it is
    /// found when the manifest is then valid on `host`, and otherwise
    /// reported at `dir` with the validation error.
    pub fn accept_manifest(&self, manifest: Manifest, dir: PathBuf, host: &Version) -> (r: Result<
        DiscoveredPlugin,
        DiscoveryIssue,
    >)
        ensures
            ({
                let m = Manifest { source: self.source_view(), ..manifest };
                &&& r is Ok <==> manifest_error(m, host@) is None
                &&& r matches Ok(d) ==> d.manifest == m && d.root == dir
                &&& r matches Err(i) ==> i.path == dir && i.plugin is None && i.message@
                    == error_text(manifest_error(m, host@)->0)
            }),
    {
        let mut m = manifest;
        m.source = self.source;
        match validate_manifest(&m, host) {
            Ok(()) => Ok(DiscoveredPlugin { manifest: m, root: dir }),
            Err(error) => Err(DiscoveryIssue { path: dir, plugin: None, message: error.to_string() }),
        }
    }

    pub fn name(&self) -> (r: &'static str)
        ensures
            r@ == (match self.source_view() {
                PluginSource::Builtin => "builtin-directory"@,
                PluginSource::Packaged => "packaged-directory"@,
                PluginSource::User => "user-directory"@,
            }),
    {
        match self.source {
            PluginSource::Builtin => "builtin-directory",
            PluginSource::Packaged => "packaged-directory",
            PluginSource::User => "user-directory",
        }
    }
}

/// `issue` reports `item` as a duplicate with message `prefix + id + suffix`.
pub open spec fn duplicate_issue(
    issue: DiscoveryIssue,
    item: DiscoveredPlugin,
    prefix: Seq<char>,
    suffix: Seq<char>,
) -> bool {
    &&& issue.path == item.root
    &&& issue.plugin matches Some(p) && p@ == item.manifest.id@
    &&& issue.message@ == prefix + item.manifest.id@ + suffix
}

/// The items of `items` whose id was not met before them in `seen` or
/// earlier in `items`, in order.
pub open spec fn first_of_each(seen: Seq<Seq<char>>, items: Seq<DiscoveredPlugin>) -> Seq<DiscoveredPlugin>
    decreases items.len(),
{
    if items.len() == 0 {
        Seq::empty()
    } else {
        let kept = first_of_each(seen, items.drop_last());
        if seen.contains(items.last().manifest.id@) || found_ids(kept).contains(
            items.last().manifest.id@,
        ) {
            kept
        } else {
            kept.push(items.last())
        }
    }
}

/// The items of `items` dropped as duplicates, in order.
pub open spec fn repeats_of(seen: Seq<Seq<char>>, items: Seq<DiscoveredPlugin>) -> Seq<DiscoveredPlugin>
    decreases items.len(),
{
    if items.len() == 0 {
        Seq::empty()
    } else {
        let kept = first_of_each(seen, items.drop_last());
        let dropped = repeats_of(seen, items.drop_last());
        if seen.contains(items.last().manifest.id@) || found_ids(kept).contains(
            items.last().manifest.id@,
        ) {
            dropped.push(items.last())
        } else {
            dropped
        }
    }
}

proof fn lemma_first_of_each_fresh(seen: Seq<Seq<char>>, items: Seq<DiscoveredPlugin>)
    ensures
        forall|i: int|
            0 <= i < first_of_each(seen, items).len() ==> !seen.contains(
                #[trigger] found_ids(first_of_each(seen, items))[i],
            ),
        found_ids(first_of_each(seen, items)).no_duplicates(),
    decreases items.len(),
{
    if items.len() > 0 {
        lemma_first_of_each_fresh(seen, items.drop_last());
        let kept = first_of_each(seen, items.drop_last());
        let x = items.last();
        if !(seen.contains(x.manifest.id@) || found_ids(kept).contains(x.manifest.id@)) {
            let now = kept.push(x);
            assert(found_ids(now) =~= found_ids(kept).push(x.manifest.id@));
            assert forall|a: int, b: int|
                0 <= a < b < found_ids(now).len() implies found_ids(now)[a] != found_ids(now)[b] by {
                if b == kept.len() {
                    assert(found_ids(now)[a] == found_ids(kept)[a]);
                }
            }
        }
    }
}

proof fn lemma_first_of_each_covers(seen: Seq<Seq<char>>, items: Seq<DiscoveredPlugin>)
    ensures
        forall|j: int|
            0 <= j < items.len() ==> seen.contains((#[trigger] items[j]).manifest.id@) || found_ids(
                first_of_each(seen, items),
            ).contains(items[j].manifest.id@),
    decreases items.len(),
{
    if items.len() > 0 {
        lemma_first_of_each_covers(seen, items.drop_last());
        let kept = first_of_each(seen, items.drop_last());
        let x = items.last();
        let now = first_of_each(seen, items);
        assert forall|j: int| 0 <= j < items.len() implies seen.contains(
            (#[trigger] items[j]).manifest.id@,
        ) || found_ids(now).contains(items[j].manifest.id@) by {
            if !(seen.contains(x.manifest.id@) || found_ids(kept).contains(x.manifest.id@)) {
                assert(found_ids(now) =~= found_ids(kept).push(x.manifest.id@));
                if j < items.len() - 1 {
                    assert(items[j] == items.drop_last()[j]);
                    if found_ids(kept).contains(items[j].manifest.id@) {
                        let k = choose|k: int|
                            0 <= k < found_ids(kept).len() && found_ids(kept)[k]
                                == items[j].manifest.id@;
                        assert(found_ids(now)[k] == found_ids(kept)[k]);
                    }
                } else {
                    assert(found_ids(now)[kept.len() as int] == x.manifest.id@);
                }
            } else if j < items.len() - 1 {
                assert(items[j] == items.drop_last()[j]);
            }
        }
    }
}

proof fn lemma_first_of_each_from(seen: Seq<Seq<char>>, items: Seq<DiscoveredPlugin>)
    ensures
        forall|i: int|
            0 <= i < first_of_each(seen, items).len() ==> items.contains(
                #[trigger] first_of_each(seen, items)[i],
            ),
    decreases items.len(),
{
    if items.len() > 0 {
        lemma_first_of_each_from(seen, items.drop_last());
        let kept = first_of_each(seen, items.drop_last());
        let now = first_of_each(seen, items);
        assert forall|i: int| 0 <= i < now.len() implies items.contains(#[trigger] now[i]) by {
            if i < kept.len() {
                assert(now[i] == kept[i]);
                let j = choose|j: int|
                    0 <= j < items.drop_last().len() && items.drop_last()[j] == kept[i];
                assert(items[j] == kept[i]);
            } else {
                assert(items[items.len() - 1] == now[i]);
            }
        }
    }
}

/// A plugin built into the host is never displaced by a plugin of the same
/// id found in a directory: whatever is kept under an id that some built-in
/// plugin has is a built-in plugin, and no id is kept twice.
pub proof fn lemma_builtin_wins(builtins: Seq<DiscoveredPlugin>, others: Seq<DiscoveredPlugin>)
    ensures
        found_ids(settled(builtins, others)).no_duplicates(),
        forall|i: int|
            0 <= i < settled(builtins, others).len() && (exists|j: int|
                0 <= j < builtins.len() && (#[trigger] builtins[j]).manifest.id@ == settled(
                    builtins,
                    others,
                )[i].manifest.id@) ==> builtins.contains(#[trigger] settled(builtins, others)[i]),
{
    let none = Seq::<Seq<char>>::empty();
    let firsts = first_of_each(none, builtins);
    let seen = found_ids(firsts);
    let rest = first_of_each(seen, others);
    let all = settled(builtins, others);
    assert(all == firsts + rest);
    lemma_first_of_each_fresh(none, builtins);
    lemma_first_of_each_fresh(seen, others);
    lemma_first_of_each_covers(none, builtins);
    lemma_first_of_each_from(none, builtins);
    assert(found_ids(all) =~= found_ids(firsts) + found_ids(rest));
    assert forall|a: int, b: int|
        0 <= a < b < found_ids(all).len() implies found_ids(all)[a] != found_ids(all)[b] by {
        if a < firsts.len() && b >= firsts.len() {
            assert(found_ids(all)[b] == found_ids(rest)[b - firsts.len()]);
            assert(found_ids(all)[a] == seen[a]);
        } else if a >= firsts.len() {
            assert(found_ids(all)[a] == found_ids(rest)[a - firsts.len()]);
            assert(found_ids(all)[b] == found_ids(rest)[b - firsts.len()]);
        } else {
            assert(found_ids(all)[a] == seen[a]);
            assert(found_ids(all)[b] == seen[b]);
        }
    }
    assert forall|i: int|
        0 <= i < all.len() && (exists|j: int|
            0 <= j < builtins.len() && (#[trigger] builtins[j]).manifest.id@
                == all[i].manifest.id@) implies builtins.contains(#[trigger] all[i]) by {
        let j = choose|j: int|
            0 <= j < builtins.len() && (#[trigger] builtins[j]).manifest.id@
                == all[i].manifest.id@;
        if i >= firsts.len() {
            let k = i - firsts.len();
            assert(all[i] == rest[k]);
            assert(found_ids(rest)[k] == rest[k].manifest.id@);
            assert(!seen.contains(rest[k].manifest.id@));
            assert(seen.contains(builtins[j].manifest.id@));
        } else {
            assert(all[i] == firsts[i]);
        }
    }
}

/// Keeps the first of `items` for each id not in `seen`, in order, and
/// reports each other one as a duplicate with message
/// `prefix + id + suffix`.
fn keep_first(
    seen: &Vec<PluginId>,
    items: Vec<DiscoveredPlugin>,
    prefix: &str,
    suffix: &str,
) -> (r: (Vec<DiscoveredPlugin>, Vec<DiscoveryIssue>))
    ensures
        r.0@ == first_of_each(keys_of(seen@), items@),
        r.1@.len() == repeats_of(keys_of(seen@), items@).len(),
        forall|i: int|
            0 <= i < r.1@.len() ==> duplicate_issue(
                #[trigger] r.1@[i],
                repeats_of(keys_of(seen@), items@)[i],
                prefix@,
                suffix@,
            ),
{
    let ghost all = items@;
    let ghost s = keys_of(seen@);
    let mut kept: Vec<DiscoveredPlugin> = Vec::new();
    let mut kept_ids: Vec<PluginId> = Vec::new();
    let mut issues: Vec<DiscoveryIssue> = Vec::new();
    let mut rest = items;
    while rest.len() > 0
        invariant
            all == items@,
            s == keys_of(seen@),
            rest@.len() <= all.len(),
            rest@ == all.skip(all.len() - rest@.len()),
            kept@ == first_of_each(s, all.take(all.len() - rest@.len())),
            keys_of(kept_ids@) == found_ids(kept@),
            issues@.len() == repeats_of(s, all.take(all.len() - rest@.len())).len(),
            forall|i: int|
                0 <= i < issues@.len() ==> duplicate_issue(
                    #[trigger] issues@[i],
                    repeats_of(s, all.take(all.len() - rest@.len()))[i],
                    prefix@,
                    suffix@,
                ),
        decreases rest@.len(),
    {
        let ghost d0 = all.len() - rest@.len();
        let ghost dropped0 = repeats_of(s, all.take(d0));
        let ghost issues0 = issues@;
        assert(rest@[0] == all[d0]);
        let item = rest.remove(0);
        proof {
            assert(rest@ =~= all.skip(d0 + 1));
            assert(all.take(d0 + 1).drop_last() =~= all.take(d0));
            assert(all.take(d0 + 1).last() == item);
        }
        let id = item.manifest.id.duplicate();
        if contains_key(seen, &id) || contains_key(&kept_ids, &id) {
            let mut message = String::from_str(prefix);
            message.append(id.as_str());
            message.append(suffix);
            let issue = DiscoveryIssue {
                path: item.root.clone(),
                plugin: Some(id.to_string()),
                message,
            };
            issues.push(issue);
            proof {
                assert forall|i: int| 0 <= i < issues@.len() implies duplicate_issue(
                    #[trigger] issues@[i],
                    repeats_of(s, all.take(d0 + 1))[i],
                    prefix@,
                    suffix@,
                ) by {
                    if i < issues0.len() {
                        assert(issues@[i] == issues0[i]);
                        assert(repeats_of(s, all.take(d0 + 1))[i] == dropped0[i]);
                    }
                }
            }
        } else {
            let ghost ids0 = keys_of(kept_ids@);
            kept_ids.push(id);
            kept.push(item);
            proof {
                assert(keys_of(kept_ids@) =~= ids0.push(item.manifest.id@));
                assert(found_ids(kept@) =~= found_ids(first_of_each(s, all.take(d0))).push(
                    item.manifest.id@,
                ));
            }
        }
    }
    proof {
        assert(all.take(all.len() as int) =~= all);
    }
    (kept, issues)
}

/// Settles plugins found more than once: the first one found wins, and
/// each later one is reported.
pub fn dedupe(report: &mut DiscoveryReport)
    ensures
        final(report).found@ == first_of_each(Seq::empty(), old(report).found@),
        final(report).issues@.len() == old(report).issues@.len() + repeats_of(
            Seq::empty(),
            old(report).found@,
        ).len(),
        forall|i: int|
            0 <= i < old(report).issues@.len() ==> #[trigger] final(report).issues@[i] == old(
                report,
            ).issues@[i],
        forall|i: int|
            0 <= i < repeats_of(Seq::empty(), old(report).found@).len() ==> duplicate_issue(
                #[trigger] final(report).issues@[old(report).issues@.len() + i],
                repeats_of(Seq::empty(), old(report).found@)[i],
                "duplicate plugin id '"@,
                "'; the earlier one wins"@,
            ),
{
    let mut found: Vec<DiscoveredPlugin> = Vec::new();
    std::mem::swap(&mut found, &mut report.found);
    let seen: Vec<PluginId> = Vec::new();
    assert(keys_of(seen@) =~= Seq::<Seq<char>>::empty());
    let (kept, mut issues) = keep_first(&seen, found, "duplicate plugin id '", "'; the earlier one wins");
    report.found = kept;
    let ghost before = report.issues@;
    let ghost added = issues@;
    report.issues.append(&mut issues);
    proof {
        assert forall|i: int|
            0 <= i < repeats_of(Seq::empty(), old(report).found@).len() implies duplicate_issue(
            #[trigger] report.issues@[before.len() + i],
            repeats_of(Seq::empty(), old(report).found@)[i],
            "duplicate plugin id '"@,
            "'; the earlier one wins"@,
        ) by {
            assert(report.issues@[before.len() + i] == added[i]);
        }
    }
}

/// `d` is one of the built-in plugins `ids`: it has one of their ids and
/// came with the host, not from a directory.
pub open spec fn is_builtin_item(d: DiscoveredPlugin, ids: Seq<Seq<char>>) -> bool {
    ids.contains(d.manifest.id@) && d.manifest.source == PluginSource::Builtin
}

/// The plugins of `items` that are (`inside`) or are not (`!inside`)
/// built-in plugins of `ids`, in order.
pub open spec fn with_ids(items: Seq<DiscoveredPlugin>, ids: Seq<Seq<char>>, inside: bool) -> Seq<
    DiscoveredPlugin,
>
    decreases items.len(),
{
    if items.len() == 0 {
        Seq::empty()
    } else if is_builtin_item(items.last(), ids) == inside {
        with_ids(items.drop_last(), ids, inside).push(items.last())
    } else {
        with_ids(items.drop_last(), ids, inside)
    }
}

/// Every plugin that `with_ids` picks as built-in is one.
proof fn lemma_with_ids_builtin(items: Seq<DiscoveredPlugin>, ids: Seq<Seq<char>>)
    ensures
        forall|i: int|
            0 <= i < with_ids(items, ids, true).len() ==> is_builtin_item(
                #[trigger] with_ids(items, ids, true)[i],
                ids,
            ),
    decreases items.len(),
{
    if items.len() > 0 {
        let init = items.drop_last();
        lemma_with_ids_builtin(init, ids);
        let w = with_ids(init, ids, true);
        assert forall|i: int|
            0 <= i < with_ids(items, ids, true).len() implies is_builtin_item(
            #[trigger] with_ids(items, ids, true)[i],
            ids,
        ) by {
            if i < w.len() {
                assert(with_ids(items, ids, true)[i] == w[i]);
            }
        }
    }
}

/// A plugin found in a directory never displaces the built-in plugin of
/// its id: of the plugins split out of `found` and settled, each kept under
/// the id of a built-in plugin of `ids` is that built-in plugin, and no id
/// is kept twice.
pub proof fn lemma_found_builtin_wins(found: Seq<DiscoveredPlugin>, ids: Seq<Seq<char>>)
    ensures
        ({
            let kept = settled(with_ids(found, ids, true), with_ids(found, ids, false));
            &&& found_ids(kept).no_duplicates()
            &&& forall|i: int, j: int|
                0 <= i < kept.len() && 0 <= j < found.len() && is_builtin_item(found[j], ids)
                    && #[trigger] found[j].manifest.id@ == #[trigger] kept[i].manifest.id@
                    ==> is_builtin_item(kept[i], ids)
        }),
{
    let b = with_ids(found, ids, true);
    let o = with_ids(found, ids, false);
    let kept = settled(b, o);
    lemma_builtin_wins(b, o);
    lemma_with_ids_builtin(found, ids);
    lemma_with_ids_keeps_builtin(found, ids);
    assert forall|i: int, j: int|
        0 <= i < kept.len() && 0 <= j < found.len() && is_builtin_item(found[j], ids)
            && #[trigger] found[j].manifest.id@ == #[trigger] kept[i].manifest.id@ implies is_builtin_item(
        kept[i],
        ids,
    ) by {
        let jb = choose|jb: int| 0 <= jb < b.len() && b[jb] == found[j];
        assert(b[jb].manifest.id@ == kept[i].manifest.id@);
        assert(b.contains(kept[i]));
        let q = choose|q: int| 0 <= q < b.len() && b[q] == kept[i];
        assert(is_builtin_item(b[q], ids));
    }
}

/// Every built-in plugin of `items` is among those `with_ids` picks.
proof fn lemma_with_ids_keeps_builtin(items: Seq<DiscoveredPlugin>, ids: Seq<Seq<char>>)
    ensures
        forall|j: int|
            0 <= j < items.len() && is_builtin_item(#[trigger] items[j], ids) ==> with_ids(
                items,
                ids,
                true,
            ).contains(items[j]),
    decreases items.len(),
{
    if items.len() > 0 {
        let init = items.drop_last();
        lemma_with_ids_keeps_builtin(init, ids);
        assert forall|j: int|
            0 <= j < items.len() && is_builtin_item(#[trigger] items[j], ids) implies with_ids(
            items,
            ids,
            true,
        ).contains(items[j]) by {
            if j < items.len() - 1 {
                assert(items[j] == init[j]);
                let w = with_ids(init, ids, true);
                let q = choose|q: int| 0 <= q < w.len() && w[q] == init[j];
                assert(with_ids(items, ids, true)[q] == w[q]);
            } else {
                let w = with_ids(init, ids, true);
                assert(with_ids(items, ids, true)[w.len() as int] == items[j]);
            }
        }
    }
}

/// Splits `found` into the built-in plugins, those that came with the host
/// under one of `builtin_ids`, and the others, each in the order found. A
/// plugin found in a directory under a built-in id is among the others, so
/// that the built-in plugin wins over it.
pub fn split_builtin(found: Vec<DiscoveredPlugin>, builtin_ids: &Vec<PluginId>) -> (r: (
    Vec<DiscoveredPlugin>,
    Vec<DiscoveredPlugin>,
))
    ensures
        r.0@ == with_ids(found@, keys_of(builtin_ids@), true),
        r.1@ == with_ids(found@, keys_of(builtin_ids@), false),
{
    let ghost all = found@;
    let ghost ids = keys_of(builtin_ids@);
    let mut builtins: Vec<DiscoveredPlugin> = Vec::new();
    let mut others: Vec<DiscoveredPlugin> = Vec::new();
    let mut rest = found;
    while rest.len() > 0
        invariant
            rest@.len() <= all.len(),
            rest@ == all.skip(all.len() - rest@.len()),
            ids == keys_of(builtin_ids@),
            builtins@ == with_ids(all.take(all.len() - rest@.len()), ids, true),
            others@ == with_ids(all.take(all.len() - rest@.len()), ids, false),
        decreases rest@.len(),
    {
        let ghost d0 = all.len() - rest@.len();
        assert(rest@[0] == all[d0]);
        let item = rest.remove(0);
        proof {
            assert(rest@ =~= all.skip(d0 + 1));
            assert(all.take(d0 + 1).drop_last() =~= all.take(d0));
            assert(all.take(d0 + 1).last() == item);
        }
        if contains_key(builtin_ids, &item.manifest.id) && item.manifest.source
            == PluginSource::Builtin {
            builtins.push(item);
        } else {
            others.push(item);
        }
    }
    proof {
        assert(all.take(all.len() as int) =~= all);
    }
    (builtins, others)
}

/// `a` does not come after `b` in the order of paths (`PathBuf`'s `Ord`).
pub uninterp spec fn path_not_after(a: PathBuf, b: PathBuf) -> bool;

/// The roots of `items` never decrease in the order of paths.
pub open spec fn sorted_by_root(items: Seq<DiscoveredPlugin>) -> bool {
    forall|i: int, j: int|
        0 <= i < j < items.len() ==> path_not_after(#[trigger] items[i].root, #[trigger] items[j].root)
}

/// `Vec::sort_by` on the roots of the plugins: the same plugins, ordered by
/// directory, so that no root comes after a later one. What the order of
/// two given paths is, is named by `path_not_after` and not spelled out.
#[verifier::external_body]
pub fn order_by_root(items: &mut Vec<DiscoveredPlugin>)
    ensures
        final(items)@.to_multiset() == old(items)@.to_multiset(),
        forall|i: int, j: int|
            0 <= i < j < final(items)@.len() ==> path_not_after(
                #[trigger] final(items)@[i].root,
                #[trigger] final(items)@[j].root,
            ),
{
    items.sort_by(|a, b| a.root.cmp(&b.root));
}

/// The plugins of `items` whose manifest is valid (`valid`) or not valid
/// (`!valid`) on host `host`, in order.
pub open spec fn by_validity(items: Seq<DiscoveredPlugin>, host: (u32, u32, u32), valid: bool) -> Seq<
    DiscoveredPlugin,
>
    decreases items.len(),
{
    if items.len() == 0 {
        Seq::empty()
    } else if (manifest_error(items.last().manifest, host) is None) == valid {
        by_validity(items.drop_last(), host, valid).push(items.last())
    } else {
        by_validity(items.drop_last(), host, valid)
    }
}

/// The plugins of `items` whose manifest is valid on host `host`.
pub open spec fn valid_only(items: Seq<DiscoveredPlugin>, host: (u32, u32, u32)) -> Seq<DiscoveredPlugin> {
    by_validity(items, host, true)
}

/// The plugins of `items` whose manifest is not valid on host `host`.
pub open spec fn invalid_only(items: Seq<DiscoveredPlugin>, host: (u32, u32, u32)) -> Seq<DiscoveredPlugin> {
    by_validity(items, host, false)
}

/// The built-in plugins kept, then the others kept: the first of each id,
/// a built-in plugin before any other.
pub open spec fn settled(builtins: Seq<DiscoveredPlugin>, others: Seq<DiscoveredPlugin>) -> Seq<DiscoveredPlugin> {
    let firsts = first_of_each(Seq::empty(), builtins);
    firsts + first_of_each(found_ids(firsts), others)
}

/// `after` is what settling `builtins` and `others` on host `host` makes of
/// a report whose issues were `issues0`: the plugins kept, and the issues
/// with one more for each plugin dropped.
pub open spec fn settles(
    issues0: Seq<DiscoveryIssue>,
    after: DiscoveryReport,
    builtins: Seq<DiscoveredPlugin>,
    others: Seq<DiscoveredPlugin>,
    host: (u32, u32, u32),
) -> bool {
    &&& after.found@ == valid_only(settled(builtins, others), host)
    &&& {
        let b = repeats_of(Seq::empty(), builtins);
        let firsts = first_of_each(Seq::empty(), builtins);
        let o = repeats_of(found_ids(firsts), others);
        let bad = invalid_only(settled(builtins, others), host);
        let n0 = issues0.len();
        &&& after.issues@.len() == n0 + b.len() + o.len() + bad.len()
        &&& forall|i: int| 0 <= i < n0 ==> #[trigger] after.issues@[i] == issues0[i]
        &&& forall|i: int|
            0 <= i < b.len() ==> duplicate_issue(
                #[trigger] after.issues@[n0 + i],
                b[i],
                "duplicate builtin plugin id '"@,
                "'; the first one wins"@,
            )
        &&& forall|i: int|
            0 <= i < o.len() ==> duplicate_issue(
                #[trigger] after.issues@[n0 + b.len() + i],
                o[i],
                "duplicate plugin id '"@,
                "'; the earlier one wins"@,
            )
        &&& forall|i: int|
            0 <= i < bad.len() ==> {
                let issue = #[trigger] after.issues@[n0 + b.len() + o.len() + i];
                &&& issue.path == bad[i].root
                &&& issue.plugin matches Some(p) && p@ == bad[i].manifest.id@
                &&& issue.message@ == error_text(manifest_error(bad[i].manifest, host)->0)
            }
    }
}

/// Settles a discovery: keeps the first built-in plugin of each id, then
/// the first other plugin of each id not already kept, and of these only
/// those valid on host `host`. Every plugin dropped is reported: built-in
/// duplicates, then other duplicates, then invalid manifests.
pub fn settle_discovery(
    report: &mut DiscoveryReport,
    builtins: Vec<DiscoveredPlugin>,
    others: Vec<DiscoveredPlugin>,
    host: &Version,
)
    ensures
        settles(old(report).issues@, *final(report), builtins@, others@, host@),
{
    let ghost n0 = report.issues@.len();
    let none: Vec<PluginId> = Vec::new();
    assert(keys_of(none@) =~= Seq::<Seq<char>>::empty());
    let (firsts, mut dup_builtin) = keep_first(
        &none,
        builtins,
        "duplicate builtin plugin id '",
        "'; the first one wins",
    );
    let mut seen: Vec<PluginId> = Vec::new();
    let mut k: usize = 0;
    while k < firsts.len()
        invariant
            k <= firsts@.len(),
            seen@.len() == k,
            forall|j: int| 0 <= j < k ==> (#[trigger] seen@[j])@ == firsts@[j].manifest.id@,
        decreases firsts@.len() - k,
    {
        seen.push(firsts[k].manifest.id.duplicate());
        k = k + 1;
    }
    assert(keys_of(seen@) =~= found_ids(firsts@));
    let (later, mut dup_other) = keep_first(
        &seen,
        others,
        "duplicate plugin id '",
        "'; the earlier one wins",
    );
    let ghost dup_b = dup_builtin@;
    let ghost dup_o = dup_other@;
    report.issues.append(&mut dup_builtin);
    report.issues.append(&mut dup_other);
    let mut candidates = firsts;
    let mut later = later;
    candidates.append(&mut later);
    let ghost all = candidates@;
    let ghost n1 = report.issues@.len();
    let ghost issues1 = report.issues@;
    let mut kept: Vec<DiscoveredPlugin> = Vec::new();
    let mut rest = candidates;
    while rest.len() > 0
        invariant
            rest@.len() <= all.len(),
            rest@ == all.skip(all.len() - rest@.len()),
            kept@ == valid_only(all.take(all.len() - rest@.len()), host@),
            report.issues@.len() == n1 + invalid_only(all.take(all.len() - rest@.len()), host@).len(),
            forall|i: int| 0 <= i < n1 ==> #[trigger] report.issues@[i] == issues1[i],
            forall|i: int|
                0 <= i < invalid_only(all.take(all.len() - rest@.len()), host@).len() ==> {
                    let bad = invalid_only(all.take(all.len() - rest@.len()), host@);
                    let issue = #[trigger] report.issues@[n1 + i];
                    &&& issue.path == bad[i].root
                    &&& issue.plugin matches Some(p) && p@ == bad[i].manifest.id@
                    &&& issue.message@ == error_text(manifest_error(bad[i].manifest, host@)->0)
                },
        decreases rest@.len(),
    {
        let ghost d0 = all.len() - rest@.len();
        let ghost bad0 = invalid_only(all.take(d0), host@);
        let ghost issues0 = report.issues@;
        assert(rest@[0] == all[d0]);
        let item = rest.remove(0);
        proof {
            assert(rest@ =~= all.skip(d0 + 1));
            assert(all.take(d0 + 1).drop_last() =~= all.take(d0));
            assert(all.take(d0 + 1).last() == item);
        }
        match validate_manifest(&item.manifest, host) {
            Ok(()) => {
                kept.push(item);
            },
            Err(error) => {
                let issue = DiscoveryIssue {
                    path: item.root.clone(),
                    plugin: Some(item.manifest.id.to_string()),
                    message: error.to_string(),
                };
                report.issues.push(issue);
                proof {
                    let bad1 = invalid_only(all.take(d0 + 1), host@);
                    assert(bad1 == bad0.push(item));
                    assert forall|i: int| 0 <= i < bad1.len() implies {
                        let issue = #[trigger] report.issues@[n1 + i];
                        &&& issue.path == bad1[i].root
                        &&& issue.plugin matches Some(p) && p@ == bad1[i].manifest.id@
                        &&& issue.message@ == error_text(manifest_error(bad1[i].manifest, host@)->0)
                    } by {
                        if i < bad0.len() {
                            assert(report.issues@[n1 + i] == issues0[n1 + i]);
                        }
                    }
                }
            },
        }
    }
    proof {
        assert(all.take(all.len() as int) =~= all);
    }
    report.found = kept;
    proof {
        let b = repeats_of(Seq::empty(), builtins@);
        assert(keys_of(none@) == Seq::<Seq<char>>::empty());
        assert forall|i: int| 0 <= i < b.len() implies duplicate_issue(
            #[trigger] report.issues@[n0 + i],
            b[i],
            "duplicate builtin plugin id '"@,
            "'; the first one wins"@,
        ) by {
            assert(report.issues@[n0 + i] == issues1[n0 + i]);
            assert(issues1[n0 + i] == dup_b[i]);
        }
        assert forall|i: int| 0 <= i < dup_o.len() implies duplicate_issue(
            #[trigger] report.issues@[n0 + dup_b.len() + i],
            repeats_of(found_ids(first_of_each(Seq::empty(), builtins@)), others@)[i],
            "duplicate plugin id '"@,
            "'; the earlier one wins"@,
        ) by {
            assert(report.issues@[n0 + dup_b.len() + i] == issues1[n0 + dup_b.len() + i]);
            assert(issues1[n0 + dup_b.len() + i] == dup_o[i]);
        }
    }
}

/// The host's own built-in plugins as found items, each under its marker
/// root `builtin://<id>`.
pub open spec fn marked_items(ms: Seq<Manifest>) -> Seq<DiscoveredPlugin> {
    ms.map_values(|m: Manifest| DiscoveredPlugin { manifest: m, root: path_named("builtin://"@ + m.id@) })
}

/// The ids of a list of manifests.
pub open spec fn manifest_ids(ms: Seq<Manifest>) -> Seq<Seq<char>> {
    ms.map_values(|m: Manifest| m.id@)
}

/// Each plugin kept by validity is one of `items`.
proof fn lemma_by_validity_within(items: Seq<DiscoveredPlugin>, host: (u32, u32, u32), valid: bool)
    ensures
        forall|i: int|
            0 <= i < by_validity(items, host, valid).len() ==> items.contains(
                #[trigger] by_validity(items, host, valid)[i],
            ),
    decreases items.len(),
{
    if items.len() > 0 {
        let init = items.drop_last();
        lemma_by_validity_within(init, host, valid);
        let k = by_validity(init, host, valid);
        assert forall|i: int| 0 <= i < by_validity(items, host, valid).len() implies items.contains(
            #[trigger] by_validity(items, host, valid)[i],
        ) by {
            if i < k.len() {
                assert(by_validity(items, host, valid)[i] == k[i]);
                let j = choose|j: int| 0 <= j < init.len() && init[j] == k[i];
                assert(items[j] == init[j]);
            } else {
                assert(items[items.len() - 1] == items.last());
            }
        }
    }
}

/// A plugin kept from `a + b` under an id that `a` has is one of `a`.
proof fn lemma_first_of_each_prefix(seen: Seq<Seq<char>>, a: Seq<DiscoveredPlugin>, b: Seq<DiscoveredPlugin>)
    ensures
        forall|i: int|
            0 <= i < first_of_each(seen, a + b).len() && found_ids(a).contains(
                (#[trigger] first_of_each(seen, a + b)[i]).manifest.id@,
            ) ==> a.contains(first_of_each(seen, a + b)[i]),
    decreases b.len(),
{
    if b.len() == 0 {
        assert(a + b =~= a);
        lemma_first_of_each_from(seen, a);
    } else {
        let items = a + b;
        let prev = items.drop_last();
        assert(prev =~= a + b.drop_last());
        lemma_first_of_each_prefix(seen, a, b.drop_last());
        lemma_first_of_each_covers(seen, prev);
        let kp = first_of_each(seen, prev);
        let kn = first_of_each(seen, items);
        assert forall|i: int|
            0 <= i < kn.len() && found_ids(a).contains((#[trigger] kn[i]).manifest.id@) implies a.contains(
            kn[i],
        ) by {
            if i < kp.len() {
                assert(kn[i] == kp[i]);
            } else {
                let x = items.last();
                assert(kn[i] == x);
                let j = choose|j: int| 0 <= j < found_ids(a).len() && found_ids(a)[j] == x.manifest.id@;
                assert(prev[j] == a[j]);
                assert(seen.contains(prev[j].manifest.id@) || found_ids(kp).contains(prev[j].manifest.id@));
            }
        }
    }
}

/// The host's own built-in plugins win: every plugin kept under the id of
/// one of them, when those come first among the built-in items, is under
/// its marker root, so it is the host's own and not a copy found elsewhere.
pub proof fn lemma_marked_builtin_kept(
    code: Seq<Manifest>,
    b: Seq<DiscoveredPlugin>,
    o: Seq<DiscoveredPlugin>,
    host: (u32, u32, u32),
)
    ensures
        ({
            let kept = valid_only(settled(marked_items(code) + b, o), host);
            forall|i: int|
                0 <= i < kept.len() && manifest_ids(code).contains((#[trigger] kept[i]).manifest.id@)
                    ==> kept[i].root == path_named("builtin://"@ + kept[i].manifest.id@)
        }),
{
    let c = marked_items(code);
    let all_b = c + b;
    let none = Seq::<Seq<char>>::empty();
    let f1 = first_of_each(none, all_b);
    let f2 = first_of_each(found_ids(f1), o);
    let st = settled(all_b, o);
    assert(st == f1 + f2);
    let kept = valid_only(st, host);
    lemma_by_validity_within(st, host, true);
    lemma_first_of_each_prefix(none, c, b);
    lemma_first_of_each_covers(none, all_b);
    lemma_first_of_each_fresh(found_ids(f1), o);
    assert forall|i: int|
        0 <= i < kept.len() && manifest_ids(code).contains((#[trigger] kept[i]).manifest.id@) implies kept[i].root
        == path_named("builtin://"@ + kept[i].manifest.id@) by {
        let k = kept[i];
        let x = k.manifest.id@;
        let j = choose|j: int| 0 <= j < st.len() && st[j] == k;
        let jc = choose|jc: int| 0 <= jc < manifest_ids(code).len() && manifest_ids(code)[jc] == x;
        assert(c[jc].manifest.id@ == x);
        assert(all_b[jc] == c[jc]);
        assert(found_ids(f1).contains(x));
        assert(found_ids(c).contains(x)) by {
            assert(found_ids(c)[jc] == x);
        }
        if j < f1.len() {
            assert(f1[j] == k);
            assert(c.contains(k));
            let q = choose|q: int| 0 <= q < c.len() && c[q] == k;
            assert(c[q].root == path_named("builtin://"@ + code[q].id@));
        } else {
            assert(f2[j - f1.len()] == k);
            assert(found_ids(f2)[j - f1.len()] == x);
            assert(!found_ids(f1).contains(found_ids(f2)[j - f1.len()]));
        }
    }
}

/// Settles what the locators found together with the host's own built-in
/// plugins `builtins`: those come first, each under its marker root, then
/// the found plugins that came with the host under a built-in id; the
/// others follow, ordered by root. The plugin kept under the id of one of
/// `builtins` is that plugin, under its marker root.
pub fn settle_found(report: &mut DiscoveryReport, builtins: Vec<Manifest>, host: &Version)
    ensures
        exists|o: Seq<DiscoveredPlugin>|
            #![trigger settles(
                old(report).issues@,
                *final(report),
                marked_items(builtins@) + with_ids(old(report).found@, manifest_ids(builtins@), true),
                o,
                host@,
            )]
            {
                &&& o.to_multiset() == with_ids(
                    old(report).found@,
                    manifest_ids(builtins@),
                    false,
                ).to_multiset()
                &&& sorted_by_root(o)
                &&& settles(
                    old(report).issues@,
                    *final(report),
                    marked_items(builtins@) + with_ids(old(report).found@, manifest_ids(builtins@), true),
                    o,
                    host@,
                )
            },
        forall|i: int|
            0 <= i < final(report).found@.len() && manifest_ids(builtins@).contains(
                (#[trigger] final(report).found@[i]).manifest.id@,
            ) ==> final(report).found@[i].root == path_named(
                "builtin://"@ + final(report).found@[i].manifest.id@,
            ),
{
    let ghost ms = builtins@;
    let mut found: Vec<DiscoveredPlugin> = Vec::new();
    std::mem::swap(&mut found, &mut report.found);
    let ghost found0 = found@;
    let mut ids: Vec<PluginId> = Vec::new();
    let mut items: Vec<DiscoveredPlugin> = Vec::new();
    let mut rest = builtins;
    let ghost mut n: int = 0;
    assert(ms.skip(0) =~= ms);
    while rest.len() > 0
        invariant
            0 <= n <= ms.len(),
            rest@ == ms.skip(n),
            keys_of(ids@) == manifest_ids(ms.take(n)),
            items@ == marked_items(ms.take(n)),
        decreases rest@.len(),
    {
        let m = rest.remove(0);
        proof {
            assert(m == ms[n]);
            assert(rest@ =~= ms.skip(n + 1));
        }
        let ghost ids0 = ids@;
        ids.push(m.id.duplicate());
        proof {
            assert(ids@ == ids0.push(ids@.last()));
            assert(keys_of(ids@) =~= keys_of(ids0).push(ms[n].id@));
        }
        let root = builtin_marker(&m.id);
        items.push(DiscoveredPlugin { manifest: m, root });
        proof {
            assert(ms.take(n + 1) =~= ms.take(n).push(ms[n]));
            assert(keys_of(ids@) =~= manifest_ids(ms.take(n + 1)));
            assert(items@ =~= marked_items(ms.take(n + 1)));
            n = n + 1;
        }
    }
    proof {
        assert(ms.take(n) =~= ms);
    }
    let (mut b, mut o) = split_builtin(found, &ids);
    let ghost bv = b@;
    order_by_root(&mut o);
    items.append(&mut b);
    let ghost code_then = items@;
    let ghost ov = o@;
    settle_discovery(report, items, o, host);
    proof {
        assert(code_then == marked_items(ms) + bv);
        lemma_marked_builtin_kept(ms, bv, ov, host@);
    }
}

} // verus!
