use mako::builder::{
    build, ext_name_of, rebuild, BuildError, BuildHost, FileRecord, Resolution, ResolveEntry,
};
use mako::module_graph::{external_stub_code, Content, Module, ModuleAst, ModuleGraph, ModuleId};
use mako::plugin::{LoadDecision, LoadRule, Plugin, PluginDriver, PluginPhase};

fn record(path: &str, deps: &[&str], code: &str) -> FileRecord {
    FileRecord {
        path: path.to_string(),
        content: Content::Js(format!("source of {}", path)),
        parse_ok: true,
        analyze_ok: true,
        deps: deps.iter().map(|d| d.to_string()).collect(),
        transform_ok: true,
        code: code.to_string(),
    }
}

fn entry(importer: &str, specifier: &str, resolution: Resolution) -> ResolveEntry {
    ResolveEntry {
        importer: importer.to_string(),
        specifier: specifier.to_string(),
        resolution,
    }
}

fn small_host() -> BuildHost {
    BuildHost {
        files: vec![
            record("a.js", &["./b", "lodash"], "code-a"),
            record("b.js", &[], "code-b"),
        ],
        resolutions: vec![
            entry("a.js", "./b", Resolution::Absolute("b.js".to_string())),
            entry("a.js", "lodash", Resolution::External("_".to_string())),
        ],
    }
}

fn no_plugins() -> PluginDriver {
    PluginDriver::new(Vec::new())
}

fn lookup_real(g: &ModuleGraph, path: &str) -> Module {
    let id = ModuleId { external: false, key: path.to_string() };
    for m in &g.modules {
        if m.id.same_as(&id) {
            return Module {
                id: m.id.dup(),
                info: mako::module_graph::ModuleInfo {
                    path: m.info.path.clone(),
                    external_name: m.info.external_name.clone(),
                    is_entry: m.info.is_entry,
                    code: m.info.code.clone(),
                    ast: m.info.ast.dup(),
                },
                deps: m
                    .deps
                    .iter()
                    .map(|d| mako::module_graph::Dependency {
                        specifier: d.specifier.clone(),
                        target: d.target.dup(),
                    })
                    .collect(),
            };
        }
    }
    panic!("module {} not found", path);
}

#[test]
fn end_to_end_two_modules_and_one_external() {
    let host = small_host();
    let g = build(&host, &no_plugins(), &vec!["a.js".to_string()]).unwrap();
    assert_eq!(g.modules.len(), 3);

    let a = lookup_real(&g, "a.js");
    assert!(a.info.is_entry);
    assert!(a.info.external_name.is_none());
    assert_eq!(a.info.code, "code-a");
    assert_eq!(a.deps.len(), 2);
    assert_eq!(a.deps[0].specifier, "./b");
    assert!(!a.deps[0].target.external);
    assert_eq!(a.deps[0].target.key, "b.js");
    assert_eq!(a.deps[1].specifier, "lodash");
    assert!(a.deps[1].target.external);
    assert_eq!(a.deps[1].target.key, "lodash");

    let b = lookup_real(&g, "b.js");
    assert!(!b.info.is_entry);
    assert_eq!(b.info.code, "code-b");
    assert!(b.deps.is_empty());

    let ext_id = ModuleId { external: true, key: "lodash".to_string() };
    let ext = g.find(&ext_id).expect("external placeholder present");
    assert_eq!(ext.info.code, "exports.default = _;");
    assert!(matches!(ext.info.ast, ModuleAst::Absent));
    assert!(ext.deps.is_empty());
    assert!(!ext.info.is_entry);
    assert_eq!(ext.info.external_name.as_deref(), Some("_"));
}

#[test]
fn shared_target_is_recorded_once() {
    // Two importers resolve different specifiers to the same absolute path:
    // one record, and both edges point at the same id.
    let host = BuildHost {
        files: vec![
            record("a.js", &["./c"], "a"),
            record("b.js", &["../c"], "b"),
            record("c.js", &[], "c"),
        ],
        resolutions: vec![
            entry("a.js", "./c", Resolution::Absolute("c.js".to_string())),
            entry("b.js", "../c", Resolution::Absolute("c.js".to_string())),
        ],
    };
    let entries = vec!["a.js".to_string(), "b.js".to_string()];
    let g = build(&host, &no_plugins(), &entries).unwrap();
    assert_eq!(g.modules.len(), 3);
    let count = g
        .modules
        .iter()
        .filter(|m| !m.id.external && m.id.key == "c.js")
        .count();
    assert_eq!(count, 1);
    let a = lookup_real(&g, "a.js");
    let b = lookup_real(&g, "b.js");
    assert!(a.deps[0].target.same_as(&b.deps[0].target));
}

#[test]
fn build_twice_yields_identical_graphs() {
    let host = small_host();
    let entries = vec!["a.js".to_string()];
    let g1 = build(&host, &no_plugins(), &entries).unwrap();
    let g2 = build(&host, &no_plugins(), &entries).unwrap();
    assert_eq!(g1.modules.len(), g2.modules.len());
    for (m1, m2) in g1.modules.iter().zip(g2.modules.iter()) {
        assert!(m1.id.same_as(&m2.id));
        assert_eq!(m1.info.code, m2.info.code);
        assert_eq!(m1.deps.len(), m2.deps.len());
        for (d1, d2) in m1.deps.iter().zip(m2.deps.iter()) {
            assert_eq!(d1.specifier, d2.specifier);
            assert!(d1.target.same_as(&d2.target));
        }
    }
}

#[test]
fn rebuild_reruns_only_the_changed_module() {
    let host = small_host();
    let entries = vec!["a.js".to_string()];
    let g = build(&host, &no_plugins(), &entries).unwrap();

    let mut changed_host = small_host();
    changed_host.files[1] = record("b.js", &[], "code-b-v2");
    // A sabotaged record for a.js proves the rebuild never re-runs its
    // pipeline: the build would abort if it did.
    changed_host.files[0].transform_ok = false;

    let g2 = rebuild(g, &vec!["b.js".to_string()], &entries, &changed_host, &no_plugins())
        .unwrap();
    assert_eq!(g2.modules.len(), 3);
    let b = lookup_real(&g2, "b.js");
    assert_eq!(b.info.code, "code-b-v2");
    let a = lookup_real(&g2, "a.js");
    assert_eq!(a.info.code, "code-a");
    assert_eq!(a.deps[0].specifier, "./b");
    assert_eq!(a.deps[0].target.key, "b.js");
    let ext_id = ModuleId { external: true, key: "lodash".to_string() };
    assert_eq!(g2.find(&ext_id).unwrap().info.code, "exports.default = _;");
}

#[test]
fn missing_file_aborts_with_load_error() {
    let host = BuildHost { files: Vec::new(), resolutions: Vec::new() };
    let e = build(&host, &no_plugins(), &vec!["ghost.js".to_string()]).unwrap_err();
    match e {
        BuildError::Load { path } => assert_eq!(path, "ghost.js"),
        _ => panic!("expected a load error"),
    }
}

#[test]
fn unresolvable_specifier_names_importer_and_specifier() {
    let host = BuildHost {
        files: vec![record("a.js", &["./missing"], "a")],
        resolutions: Vec::new(),
    };
    let e = build(&host, &no_plugins(), &vec!["a.js".to_string()]).unwrap_err();
    match e {
        BuildError::Resolve { importer, specifier } => {
            assert_eq!(importer, "a.js");
            assert_eq!(specifier, "./missing");
        },
        _ => panic!("expected a resolve error"),
    }
}

#[test]
fn phase_failures_abort_with_their_phase() {
    let mut host = small_host();
    host.files[1].parse_ok = false;
    match build(&host, &no_plugins(), &vec!["a.js".to_string()]).unwrap_err() {
        BuildError::Parse { path } => assert_eq!(path, "b.js"),
        _ => panic!("expected a parse error"),
    }
    let mut host = small_host();
    host.files[0].analyze_ok = false;
    match build(&host, &no_plugins(), &vec!["a.js".to_string()]).unwrap_err() {
        BuildError::Analyze { path } => assert_eq!(path, "a.js"),
        _ => panic!("expected an analyze error"),
    }
    let mut host = small_host();
    host.files[1].transform_ok = false;
    match build(&host, &no_plugins(), &vec!["a.js".to_string()]).unwrap_err() {
        BuildError::Transform { path } => assert_eq!(path, "b.js"),
        _ => panic!("expected a transform error"),
    }
}

#[test]
fn extension_failure_aborts_the_build() {
    let mut bad = Plugin {
        name: "bad".to_string(),
        config_edits: Vec::new(),
        config_ok: true,
        load_rules: Vec::new(),
        parse_rules: Vec::new(),
        build_success_ok: true,
        runtime_snippets: Vec::new(),
    };
    bad.load_rules.push(LoadRule { path: "a.js".to_string(), decision: LoadDecision::Fail });
    let driver = PluginDriver::new(vec![bad]);
    match build(&small_host(), &driver, &vec!["a.js".to_string()]).unwrap_err() {
        BuildError::Extension(e) => {
            assert_eq!(e.plugin, "bad");
            assert!(matches!(e.phase, PluginPhase::Load));
        },
        _ => panic!("expected an extension error"),
    }
}

#[test]
fn extension_supplied_content_builds_a_module_without_a_record() {
    let mut virt = Plugin {
        name: "virtual".to_string(),
        config_edits: Vec::new(),
        config_ok: true,
        load_rules: Vec::new(),
        parse_rules: Vec::new(),
        build_success_ok: true,
        runtime_snippets: Vec::new(),
    };
    virt.load_rules.push(LoadRule {
        path: "virtual.js".to_string(),
        decision: LoadDecision::Supply(Content::Js("virtual body".to_string())),
    });
    let driver = PluginDriver::new(vec![virt]);
    let host = BuildHost { files: Vec::new(), resolutions: Vec::new() };
    let g = build(&host, &driver, &vec!["virtual.js".to_string()]).unwrap();
    assert_eq!(g.modules.len(), 1);
    let m = lookup_real(&g, "virtual.js");
    assert_eq!(m.info.code, "virtual body");
    match m.info.ast {
        ModuleAst::Script(s) => assert_eq!(s, "virtual body"),
        _ => panic!("expected a script syntax value"),
    }
}

#[test]
fn stub_template_instantiation() {
    assert_eq!(external_stub_code("_"), "exports.default = _;");
    assert_eq!(external_stub_code("jQuery"), "exports.default = jQuery;");
}

#[test]
fn extension_names() {
    assert_eq!(ext_name_of("/src/app.js"), "js");
    assert_eq!(ext_name_of("/src/style.module.css"), "css");
    assert_eq!(ext_name_of("/src/Makefile"), "");
    assert_eq!(ext_name_of("/src.dir/README"), "");
    assert_eq!(ext_name_of(""), "");
}

#[test]
fn graph_lookup() {
    let host = small_host();
    let g = build(&host, &no_plugins(), &vec!["a.js".to_string()]).unwrap();
    let id = ModuleId { external: false, key: "a.js".to_string() };
    assert!(g.contains_id(&id));
    assert!(g.find(&id).is_some());
    let missing = ModuleId { external: false, key: "zzz.js".to_string() };
    assert!(!g.contains_id(&missing));
    assert!(g.find(&missing).is_none());
    assert_eq!(g.len(), 3);
    // Insertion is traversal order: the external placeholder is synthesized
    // while its importer is still being processed, so it comes first.
    assert!(g.get(0).id.external);
}
