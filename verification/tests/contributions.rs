use plugin_kernel::contributions::ContributionRegistry;
use plugin_kernel::ids::{CommandId, ContributionPointId, PluginId};
use plugin_kernel::plugin::{
    AudioProcessorSpec, CommandSpec, Contribution, MenuSpec, SettingSpec, SidebarSpec, ViewSpec,
};

fn pid(s: &str) -> PluginId {
    PluginId::new(s).unwrap()
}

fn command(id: &str) -> Contribution {
    Contribution::Command(CommandSpec {
        id: CommandId::new(id).unwrap(),
        title: String::from(id),
        category: None,
        input_schema: None,
    })
}

fn processor(id: &str, order: i32) -> Contribution {
    Contribution::AudioProcessor(AudioProcessorSpec { id: String::from(id), order, budget_us: 100 })
}

fn setting(key: &str) -> Contribution {
    Contribution::Setting(SettingSpec {
        key: String::from(key),
        title: String::from("T"),
        default_value: serde_json::Value::Bool(true),
        control: String::from("toggle"),
        options: None,
    })
}

#[test]
fn apply_replaces_a_plugins_records() {
    let mut reg = ContributionRegistry::new();
    reg.apply(&pid("a"), vec![command("a.one"), command("a.two")]);
    reg.apply(&pid("b"), vec![command("b.one")]);
    reg.apply(&pid("a"), vec![command("a.three")]);
    let names: Vec<String> = reg.commands().iter().map(|(_, c)| c.id.to_string()).collect();
    assert_eq!(names, vec!["b.one", "a.three"]);
}

#[test]
fn revoke_removes_everything_of_a_plugin() {
    let mut reg = ContributionRegistry::new();
    reg.apply(&pid("a"), vec![command("a.one"), setting("volume")]);
    reg.apply(&pid("b"), vec![command("b.one")]);
    reg.revoke(&pid("a"));
    assert_eq!(reg.commands().len(), 1);
    assert!(reg.settings(&pid("a")).is_empty());
    reg.revoke(&pid("a"));
    assert_eq!(reg.commands().len(), 1);
    reg.revoke(&pid("b"));
    assert!(reg.snapshot().is_empty());
}

#[test]
fn owner_of_command_is_first_registration() {
    let mut reg = ContributionRegistry::new();
    reg.apply(&pid("a"), vec![command("x.run")]);
    reg.apply(&pid("b"), vec![command("x.run")]);
    assert_eq!(reg.owner_of_command(&CommandId::new("x.run").unwrap()).unwrap().as_str(), "a");
    assert!(reg.owner_of_command(&CommandId::new("y").unwrap()).is_none());
}

#[test]
fn audio_processors_sorted_stably_by_order() {
    let mut reg = ContributionRegistry::new();
    reg.apply(&pid("a"), vec![processor("late", 10), processor("first", -1)]);
    reg.apply(&pid("b"), vec![processor("tie", 10)]);
    let ids: Vec<String> = reg.audio_processors().iter().map(|(_, p)| p.id.clone()).collect();
    assert_eq!(ids, vec!["first", "late", "tie"]);
    assert!(reg.provides_audio(&pid("b")));
    assert!(!reg.provides_audio(&pid("c")));
}

#[test]
fn menu_items_filter_by_location() {
    let mut reg = ContributionRegistry::new();
    let item = |loc: &str| {
        Contribution::MenuItem(MenuSpec {
            command: CommandId::new("a.run").unwrap(),
            title: String::from("Run"),
            location: String::from(loc),
            group: None,
            order: None,
        })
    };
    reg.apply(&pid("a"), vec![item("tray"), item("context"), item("tray")]);
    assert_eq!(reg.menu_items("tray").len(), 2);
    assert_eq!(reg.menu_items("context").len(), 1);
    assert!(reg.menu_items("none").is_empty());
}

#[test]
fn query_views_and_sidebars() {
    let mut reg = ContributionRegistry::new();
    reg.apply(
        &pid("a"),
        vec![
            Contribution::SidebarItem(SidebarSpec {
                id: String::from("side"),
                title: String::from("S"),
                icon: String::from("i"),
                target: String::from("t"),
            }),
            Contribution::View(ViewSpec {
                id: String::from("v"),
                title: String::from("V"),
                entry: String::from("index.html"),
                icon: None,
            }),
        ],
    );
    assert_eq!(reg.sidebars()[0].1.id, "side");
    assert_eq!(reg.views()[0].1.entry, "index.html");
    assert!(reg.native_views().is_empty());
    let at = reg.query(&ContributionPointId::new("ui.view").unwrap());
    assert_eq!(at.len(), 1);
    assert_eq!(at[0].plugin.as_str(), "a");
}

#[test]
fn snapshot_sorted_by_point_plugin_key() {
    let mut reg = ContributionRegistry::new();
    reg.apply(&pid("b"), vec![command("z.cmd"), setting("alpha")]);
    reg.apply(&pid("a"), vec![command("y.cmd")]);
    let snap: Vec<(String, String, String)> = reg
        .snapshot()
        .iter()
        .map(|i| (i.point.to_string(), i.plugin.to_string(), i.key.clone()))
        .collect();
    assert_eq!(
        snap,
        vec![
            (String::from("config.setting"), String::from("b"), String::from("alpha")),
            (String::from("ui.command"), String::from("a"), String::from("y.cmd")),
            (String::from("ui.command"), String::from("b"), String::from("z.cmd")),
        ]
    );
    assert_eq!(reg.rich_snapshot().len(), 3);
}

#[test]
fn extension_key_uses_stable_payload_key() {
    let mut obj = serde_json::Map::new();
    obj.insert(String::from("b"), serde_json::Value::Bool(true));
    obj.insert(String::from("a"), serde_json::Value::Null);
    let c = Contribution::Extension {
        point: ContributionPointId::new("lyrics.source").unwrap(),
        payload: serde_json::Value::Object(obj),
    };
    assert_eq!(c.point().as_str(), "lyrics.source");
    assert_eq!(c.key(), "lyrics.source#a=null&b=true");
    assert_eq!(command("k.x").key(), "k.x");
}

#[test]
fn applying_nothing_is_revoking() {
    let mut a = ContributionRegistry::new();
    a.apply(&pid("a"), vec![command("a.one")]);
    a.apply(&pid("b"), vec![command("b.one")]);
    a.apply(&pid("a"), vec![]);
    let mut b = ContributionRegistry::new();
    b.apply(&pid("a"), vec![command("a.one")]);
    b.apply(&pid("b"), vec![command("b.one")]);
    b.revoke(&pid("a"));
    let names = |r: &ContributionRegistry| -> Vec<String> {
        r.commands().iter().map(|(_, c)| c.id.to_string()).collect()
    };
    assert_eq!(names(&a), vec!["b.one"]);
    assert_eq!(names(&a), names(&b));
}
