use auto_import::ast::{Module, ModuleItem, Node, Specifier};
use auto_import::{
    Arrayable, AutoImportVisitor, ExplicitImport, ImportConfig, ImportItem, ImportSource,
    InlinePreset, PluginConfig, PresetImport,
};

fn s(x: &str) -> String {
    x.to_string()
}

fn map_config(pairs: Vec<(String, ImportSource)>) -> PluginConfig {
    PluginConfig {
        imports: Some(Arrayable::Single(ImportConfig::ImportsMap(pairs))),
        debug: false,
    }
}

fn named(local: &str) -> Specifier {
    Specifier::Named { imported: None, local: s(local) }
}

fn aliased(imported: &str, local: &str) -> Specifier {
    Specifier::Named { imported: Some(s(imported)), local: s(local) }
}

#[test]
fn basic_synthesis_adds_named_import() {
    let config = map_config(vec![(s("pkg"), ImportSource::Simple(vec![s("useX")]))]);
    let v = AutoImportVisitor::new(config);
    let mut m = Module { body: vec![ModuleItem::Stmt { node: Node::Ref(s("useX")) }] };
    v.add_auto_imports(&mut m);
    assert_eq!(m.body.len(), 2);
    assert_eq!(
        m.body[0],
        ModuleItem::Import { src: s("pkg"), specifiers: vec![named("useX")] }
    );
    assert_eq!(m.body[1], ModuleItem::Stmt { node: Node::Ref(s("useX")) });
}

#[test]
fn declaration_suppresses_import() {
    let config = map_config(vec![(s("pkg"), ImportSource::Simple(vec![s("useX")]))]);
    let v = AutoImportVisitor::new(config);
    let mut m = Module {
        body: vec![
            ModuleItem::Stmt { node: Node::FnBind(s("useX"), vec![]) },
            ModuleItem::Stmt { node: Node::Ref(s("useX")) },
        ],
    };
    v.add_auto_imports(&mut m);
    assert_eq!(
        m.body,
        vec![
            ModuleItem::Stmt { node: Node::FnBind(s("useX"), vec![]) },
            ModuleItem::Stmt { node: Node::Ref(s("useX")) },
        ]
    );
}

#[test]
fn existing_import_suppresses_import() {
    let config = map_config(vec![(s("pkg"), ImportSource::Simple(vec![s("useX")]))]);
    let v = AutoImportVisitor::new(config);
    let mut m = Module {
        body: vec![
            ModuleItem::Import { src: s("pkg"), specifiers: vec![named("useX")] },
            ModuleItem::Stmt { node: Node::Ref(s("useX")) },
        ],
    };
    v.add_auto_imports(&mut m);
    assert_eq!(
        m.body,
        vec![
            ModuleItem::Import { src: s("pkg"), specifiers: vec![named("useX")] },
            ModuleItem::Stmt { node: Node::Ref(s("useX")) },
        ]
    );
}

#[test]
fn noop_run_is_idempotent() {
    let config = map_config(vec![(s("pkg"), ImportSource::Simple(vec![s("useX")]))]);
    let v = AutoImportVisitor::new(config);
    let make = || Module {
        body: vec![
            ModuleItem::Stmt { node: Node::FnBind(s("useX"), vec![]) },
            ModuleItem::Stmt { node: Node::Ref(s("useX")) },
        ],
    };
    let mut m = make();
    v.add_auto_imports(&mut m);
    assert_eq!(m, make());
    v.add_auto_imports(&mut m);
    assert_eq!(m, make());
}

#[test]
fn second_run_after_synthesis_changes_nothing() {
    let config = map_config(vec![(s("pkg"), ImportSource::Simple(vec![s("useX")]))]);
    let v = AutoImportVisitor::new(config);
    let mut m = Module { body: vec![ModuleItem::Stmt { node: Node::Ref(s("useX")) }] };
    v.add_auto_imports(&mut m);
    assert_eq!(m.body.len(), 2);
    let expected = Module {
        body: vec![
            ModuleItem::Import { src: s("pkg"), specifiers: vec![named("useX")] },
            ModuleItem::Stmt { node: Node::Ref(s("useX")) },
        ],
    };
    assert_eq!(m, expected);
    v.add_auto_imports(&mut m);
    assert_eq!(m, expected);
}

#[test]
fn alias_binds_and_stray_name_does_not_suppress() {
    let config = map_config(vec![(
        s("pkg"),
        ImportSource::WithAlias(vec![ImportItem::Aliased(s("useFetch"), s("useMyFetch"))]),
    )]);
    let v = AutoImportVisitor::new(config);
    let mut m = Module {
        body: vec![
            ModuleItem::Stmt { node: Node::Ref(s("useMyFetch")) },
            ModuleItem::Stmt { node: Node::VarBind(s("useFetch"), vec![]) },
        ],
    };
    v.add_auto_imports(&mut m);
    assert_eq!(m.body.len(), 3);
    assert_eq!(
        m.body[0],
        ModuleItem::Import { src: s("pkg"), specifiers: vec![aliased("useFetch", "useMyFetch")] }
    );
}

#[test]
fn default_and_namespace_forms() {
    let config = map_config(vec![
        (s("axios"), ImportSource::WithAlias(vec![ImportItem::Aliased(s("default"), s("axios"))])),
        (s("lodash"), ImportSource::WithAlias(vec![ImportItem::Aliased(s("*"), s("_"))])),
    ]);
    let v = AutoImportVisitor::new(config);
    let mut m = Module {
        body: vec![
            ModuleItem::Stmt { node: Node::Ref(s("axios")) },
            ModuleItem::Stmt { node: Node::Ref(s("_")) },
        ],
    };
    v.add_auto_imports(&mut m);
    assert_eq!(m.body.len(), 4);
    assert_eq!(
        m.body[0],
        ModuleItem::Import {
            src: s("axios"),
            specifiers: vec![Specifier::DefaultImport { local: s("axios") }],
        }
    );
    assert_eq!(
        m.body[1],
        ModuleItem::Import {
            src: s("lodash"),
            specifiers: vec![Specifier::NamespaceImport { local: s("_") }],
        }
    );
}

#[test]
fn sources_and_names_come_out_sorted() {
    let config = map_config(vec![
        (s("b-pkg"), ImportSource::Simple(vec![s("zeta"), s("alpha")])),
        (s("a-pkg"), ImportSource::Simple(vec![s("useA")])),
    ]);
    let v = AutoImportVisitor::new(config);
    let mut m = Module {
        body: vec![
            ModuleItem::Stmt { node: Node::Ref(s("zeta")) },
            ModuleItem::Stmt { node: Node::Ref(s("alpha")) },
            ModuleItem::Stmt { node: Node::Ref(s("useA")) },
        ],
    };
    v.add_auto_imports(&mut m);
    assert_eq!(m.body.len(), 5);
    assert_eq!(
        m.body[0],
        ModuleItem::Import { src: s("a-pkg"), specifiers: vec![named("useA")] }
    );
    assert_eq!(
        m.body[1],
        ModuleItem::Import { src: s("b-pkg"), specifiers: vec![named("alpha"), named("zeta")] }
    );
}

#[test]
fn directive_stays_first() {
    let config = map_config(vec![(s("pkg"), ImportSource::Simple(vec![s("useX")]))]);
    let v = AutoImportVisitor::new(config);
    let mut m = Module {
        body: vec![
            ModuleItem::Directive { text: s("use client") },
            ModuleItem::Stmt { node: Node::Ref(s("useX")) },
        ],
    };
    v.add_auto_imports(&mut m);
    assert_eq!(m.body.len(), 3);
    assert_eq!(m.body[0], ModuleItem::Directive { text: s("use client") });
    assert_eq!(
        m.body[1],
        ModuleItem::Import { src: s("pkg"), specifiers: vec![named("useX")] }
    );
    assert_eq!(m.body[2], ModuleItem::Stmt { node: Node::Ref(s("useX")) });
}

#[test]
fn repeated_preset_accumulates_entries() {
    let config = PluginConfig {
        imports: Some(Arrayable::Array(vec![
            ImportConfig::PresetName(s("vue-router")),
            ImportConfig::PresetName(s("vue-router")),
        ])),
        debug: false,
    };
    let v = AutoImportVisitor::new(config);
    let mut m = Module { body: vec![ModuleItem::Stmt { node: Node::Ref(s("useRouter")) }] };
    v.add_auto_imports(&mut m);
    assert_eq!(m.body.len(), 2);
    assert_eq!(
        m.body[0],
        ModuleItem::Import {
            src: s("vue-router"),
            specifiers: vec![named("useRouter"), named("useRouter")],
        }
    );
}

#[test]
fn preset_name_config_synthesizes() {
    let config = PluginConfig {
        imports: Some(Arrayable::Single(ImportConfig::PresetName(s("react")))),
        debug: false,
    };
    let v = AutoImportVisitor::new(config);
    let mut m = Module { body: vec![ModuleItem::Stmt { node: Node::Ref(s("useState")) }] };
    v.add_auto_imports(&mut m);
    assert_eq!(m.body.len(), 2);
    assert_eq!(
        m.body[0],
        ModuleItem::Import { src: s("react"), specifiers: vec![named("useState")] }
    );
}

#[test]
fn explicit_items_config() {
    let config = PluginConfig {
        imports: Some(Arrayable::Single(ImportConfig::Explicit(vec![ExplicitImport {
            name: s("useState"),
            alias: Some(s("useSignal")),
            from: s("react"),
        }]))),
        debug: false,
    };
    let v = AutoImportVisitor::new(config);
    let mut m = Module { body: vec![ModuleItem::Stmt { node: Node::Ref(s("useSignal")) }] };
    v.add_auto_imports(&mut m);
    assert_eq!(m.body.len(), 2);
    assert_eq!(
        m.body[0],
        ModuleItem::Import { src: s("react"), specifiers: vec![aliased("useState", "useSignal")] }
    );
}

#[test]
fn inline_preset_shapes() {
    let config = PluginConfig {
        imports: Some(Arrayable::Single(ImportConfig::InlinePreset(InlinePreset {
            from: s("pkg"),
            type_only: None,
            imports: vec![
                PresetImport::Simple(s("plain")),
                PresetImport::Tuple(vec![s("base"), s("baseAlias")]),
                PresetImport::Tuple(vec![s("moved"), s("movedAlias"), s("other-pkg")]),
                PresetImport::Tuple(vec![s("bad"), s("x"), s("y"), s("z")]),
                PresetImport::Object { name: s("objName"), alias: None },
                PresetImport::Nested(Box::new(InlinePreset {
                    from: s("inner-pkg"),
                    type_only: None,
                    imports: vec![PresetImport::Simple(s("deep"))],
                })),
            ],
        }))),
        debug: false,
    };
    let v = AutoImportVisitor::new(config);
    let mut m = Module {
        body: vec![
            ModuleItem::Stmt { node: Node::Ref(s("plain")) },
            ModuleItem::Stmt { node: Node::Ref(s("baseAlias")) },
            ModuleItem::Stmt { node: Node::Ref(s("movedAlias")) },
            ModuleItem::Stmt { node: Node::Ref(s("bad")) },
            ModuleItem::Stmt { node: Node::Ref(s("objName")) },
            ModuleItem::Stmt { node: Node::Ref(s("deep")) },
        ],
    };
    v.add_auto_imports(&mut m);
    // sources sorted: inner-pkg, other-pkg, pkg; the length-four tuple is dropped
    assert_eq!(m.body.len(), 9);
    assert_eq!(
        m.body[0],
        ModuleItem::Import { src: s("inner-pkg"), specifiers: vec![named("deep")] }
    );
    assert_eq!(
        m.body[1],
        ModuleItem::Import { src: s("other-pkg"), specifiers: vec![aliased("moved", "movedAlias")] }
    );
    assert_eq!(
        m.body[2],
        ModuleItem::Import {
            src: s("pkg"),
            specifiers: vec![
                aliased("base", "baseAlias"),
                named("objName"),
                named("plain"),
            ],
        }
    );
}

#[test]
fn unused_names_bring_no_import() {
    let config = map_config(vec![(s("pkg"), ImportSource::Simple(vec![s("useX")]))]);
    let v = AutoImportVisitor::new(config);
    let mut m = Module { body: vec![ModuleItem::Stmt { node: Node::Group(vec![]) }] };
    v.add_auto_imports(&mut m);
    assert_eq!(m.body, vec![ModuleItem::Stmt { node: Node::Group(vec![]) }]);
}

#[test]
fn empty_module_stays_empty() {
    let config = map_config(vec![(s("pkg"), ImportSource::Simple(vec![s("useX")]))]);
    let v = AutoImportVisitor::new(config);
    let mut m = Module { body: vec![] };
    v.add_auto_imports(&mut m);
    assert_eq!(m.body, vec![]);
}

#[test]
fn empty_config_changes_nothing() {
    let v = AutoImportVisitor::new(PluginConfig::default());
    let mut m = Module { body: vec![ModuleItem::Stmt { node: Node::Ref(s("useX")) }] };
    v.add_auto_imports(&mut m);
    assert_eq!(m.body, vec![ModuleItem::Stmt { node: Node::Ref(s("useX")) }]);
}

#[test]
fn deeply_nested_reference_is_found() {
    let config = map_config(vec![(s("pkg"), ImportSource::Simple(vec![s("useX")]))]);
    let v = AutoImportVisitor::new(config);
    let nested = Node::Group(vec![Node::VarBind(
        s("outer"),
        vec![Node::Group(vec![Node::Ref(s("useX"))])],
    )]);
    let mut m = Module { body: vec![ModuleItem::Stmt { node: nested }] };
    v.add_auto_imports(&mut m);
    assert_eq!(m.body.len(), 2);
    assert_eq!(
        m.body[0],
        ModuleItem::Import { src: s("pkg"), specifiers: vec![named("useX")] }
    );
}

#[test]
fn nested_declaration_suppresses_everywhere() {
    let config = map_config(vec![(s("pkg"), ImportSource::Simple(vec![s("useX")]))]);
    let v = AutoImportVisitor::new(config);
    let mut m = Module {
        body: vec![
            ModuleItem::Stmt {
                node: Node::Group(vec![Node::FnBind(s("useX"), vec![])]),
            },
            ModuleItem::Stmt { node: Node::Ref(s("useX")) },
        ],
    };
    v.add_auto_imports(&mut m);
    assert_eq!(m.body.len(), 2);
}

#[test]
fn two_sources_offering_same_local_both_import() {
    let config = map_config(vec![
        (s("b-pkg"), ImportSource::Simple(vec![s("useX")])),
        (s("a-pkg"), ImportSource::Simple(vec![s("useX")])),
    ]);
    let v = AutoImportVisitor::new(config);
    let mut m = Module { body: vec![ModuleItem::Stmt { node: Node::Ref(s("useX")) }] };
    v.add_auto_imports(&mut m);
    // both sources offer the used name: both are imported, in source order
    assert_eq!(m.body.len(), 3);
    assert_eq!(
        m.body[0],
        ModuleItem::Import { src: s("a-pkg"), specifiers: vec![named("useX")] }
    );
    assert_eq!(
        m.body[1],
        ModuleItem::Import { src: s("b-pkg"), specifiers: vec![named("useX")] }
    );
}
