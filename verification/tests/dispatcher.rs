use mako::config::{Config, ConfigEdit, ExternalDef};
use mako::module_graph::{Content, ModuleAst};
use mako::plugin::{
    LoadDecision, LoadRule, ParseDecision, ParseRule, Plugin, PluginDriver, PluginLoadParam,
    PluginPhase,
};

fn plain_plugin(name: &str) -> Plugin {
    Plugin {
        name: name.to_string(),
        config_edits: Vec::new(),
        config_ok: true,
        load_rules: Vec::new(),
        parse_rules: Vec::new(),
        build_success_ok: true,
        runtime_snippets: Vec::new(),
    }
}

fn load_param(path: &str) -> PluginLoadParam {
    PluginLoadParam { path: path.to_string(), is_entry: false, ext_name: "js".to_string() }
}

#[test]
fn load_override_first_match_wins() {
    let mut e1 = plain_plugin("e1");
    e1.load_rules.push(LoadRule {
        path: "/x.js".to_string(),
        decision: LoadDecision::Supply(Content::Js("from-e1".to_string())),
    });
    let mut e2 = plain_plugin("e2");
    e2.load_rules.push(LoadRule {
        path: "/x.js".to_string(),
        decision: LoadDecision::Supply(Content::Js("from-e2".to_string())),
    });
    let driver = PluginDriver::new(vec![e1, e2]);
    let r = driver.load(&load_param("/x.js")).unwrap();
    match r {
        Some(Content::Js(s)) => assert_eq!(s, "from-e1"),
        _ => panic!("expected the first extension's answer"),
    }
}

#[test]
fn load_without_opinion_falls_through() {
    let driver = PluginDriver::new(vec![plain_plugin("e1"), plain_plugin("e2")]);
    let r = driver.load(&load_param("/x.js")).unwrap();
    assert!(r.is_none());
}

#[test]
fn second_extension_answers_when_first_has_no_opinion() {
    let e1 = plain_plugin("e1");
    let mut e2 = plain_plugin("e2");
    e2.load_rules.push(LoadRule {
        path: "/x.js".to_string(),
        decision: LoadDecision::Supply(Content::Css("from-e2".to_string())),
    });
    let driver = PluginDriver::new(vec![e1, e2]);
    match driver.load(&load_param("/x.js")).unwrap() {
        Some(Content::Css(s)) => assert_eq!(s, "from-e2"),
        _ => panic!("expected the second extension's answer"),
    }
}

#[test]
fn load_failure_identifies_extension_and_phase() {
    let mut e1 = plain_plugin("bad");
    e1.load_rules.push(LoadRule { path: "/x.js".to_string(), decision: LoadDecision::Fail });
    let driver = PluginDriver::new(vec![e1]);
    let e = driver.load(&load_param("/x.js")).unwrap_err();
    assert_eq!(e.plugin, "bad");
    assert!(matches!(e.phase, PluginPhase::Load));
}

#[test]
fn parse_override_first_match_wins() {
    let mut e1 = plain_plugin("e1");
    e1.parse_rules.push(ParseRule {
        path: "/x.js".to_string(),
        decision: ParseDecision::Supply(ModuleAst::Script("ast-e1".to_string())),
    });
    let mut e2 = plain_plugin("e2");
    e2.parse_rules.push(ParseRule { path: "/x.js".to_string(), decision: ParseDecision::Fail });
    let driver = PluginDriver::new(vec![e1, e2]);
    let param = mako::plugin::PluginParseParam {
        request: mako::plugin::FileRequest { path: "/x.js".to_string() },
        content: Content::Js("body".to_string()),
    };
    match driver.parse(&param).unwrap() {
        Some(ModuleAst::Script(s)) => assert_eq!(s, "ast-e1"),
        _ => panic!("expected the first extension's syntax value"),
    }
}

#[test]
fn modify_config_applies_edits_in_order() {
    let mut e1 = plain_plugin("e1");
    e1.config_edits.push(ConfigEdit::AddEntry("/a.js".to_string()));
    let mut e2 = plain_plugin("e2");
    e2.config_edits.push(ConfigEdit::AddExternal(ExternalDef {
        name: "lodash".to_string(),
        runtime: "_".to_string(),
    }));
    let driver = PluginDriver::new(vec![e1, e2]);
    let mut config = Config { entries: Vec::new(), externals: Vec::new() };
    driver.modify_config(&mut config).unwrap();
    assert_eq!(config.entries, vec!["/a.js".to_string()]);
    assert_eq!(config.externals.len(), 1);
    assert_eq!(config.externals[0].name, "lodash");
    assert_eq!(config.externals[0].runtime, "_");
}

#[test]
fn modify_config_failure_keeps_earlier_edits() {
    let mut e1 = plain_plugin("e1");
    e1.config_edits.push(ConfigEdit::AddEntry("/a.js".to_string()));
    let mut e2 = plain_plugin("e2");
    e2.config_ok = false;
    let mut e3 = plain_plugin("e3");
    e3.config_edits.push(ConfigEdit::AddEntry("/never.js".to_string()));
    let driver = PluginDriver::new(vec![e1, e2, e3]);
    let mut config = Config { entries: Vec::new(), externals: Vec::new() };
    let e = driver.modify_config(&mut config).unwrap_err();
    assert_eq!(e.plugin, "e2");
    assert!(matches!(e.phase, PluginPhase::ModifyConfig));
    assert_eq!(config.entries, vec!["/a.js".to_string()]);
}

#[test]
fn build_success_short_circuits_on_first_failure() {
    let e1 = plain_plugin("e1");
    let mut e2 = plain_plugin("e2");
    e2.build_success_ok = false;
    let mut e3 = plain_plugin("e3");
    e3.build_success_ok = false;
    let driver = PluginDriver::new(vec![e1, e2, e3]);
    let e = driver.build_success().unwrap_err();
    assert_eq!(e.plugin, "e2");
    assert!(matches!(e.phase, PluginPhase::BuildSuccess));
    let ok_driver = PluginDriver::new(vec![plain_plugin("a"), plain_plugin("b")]);
    assert!(ok_driver.build_success().is_ok());
}

#[test]
fn runtime_code_joins_contributions_in_order() {
    let mut e1 = plain_plugin("e1");
    e1.runtime_snippets.push("first();".to_string());
    e1.runtime_snippets.push("second();".to_string());
    let e2 = plain_plugin("e2");
    let mut e3 = plain_plugin("e3");
    e3.runtime_snippets.push("third();".to_string());
    let driver = PluginDriver::new(vec![e1, e2, e3]);
    assert_eq!(driver.runtime_plugins_code(), "first();\nsecond();\nthird();");
}

#[test]
fn runtime_code_of_no_contributions_is_empty() {
    let driver = PluginDriver::new(vec![plain_plugin("e1")]);
    assert_eq!(driver.runtime_plugins_code(), "");
}
