//! The transform driver: normalizes the configuration into the canonical
//! catalog, and runs the engine over one module: classify, resolve,
//! synthesize, splice.

use vstd::prelude::*;

use crate::ast::{body_declared, body_imported, body_used, Module, ModuleItem};
use crate::catalog::{clone_opt, entries_view, opt_view, triples_lookup, Catalog};
use crate::classify::IdentifierCollector;
use crate::config::{
    Arrayable, ExplicitImport, ImportConfig, ImportItem, ImportSource, InlinePreset, PluginConfig,
    PresetImport,
};
use crate::presets::{get_preset_imports, preset_triples};
use crate::resolve::{kept, resolve_imports, sort_by_name, sorted_by_name, PendingImport};
use crate::splice::{directive_prefix_len, splice_imports};
use crate::strutil::lex_lt;
use crate::synth::{specifier_matches, synth_import};

verus! {

/// The rows a positional tuple contributes: `(name)`, `(name, alias)` or
/// `(name, alias, source)`; any other length contributes nothing.
pub open spec fn tuple_triples(parts: Seq<String>, dflt: Seq<char>) -> Seq<
    (Seq<char>, Seq<char>, Option<Seq<char>>),
> {
    if parts.len() == 1 {
        seq![(dflt, parts[0]@, Option::None)]
    } else if parts.len() == 2 {
        seq![(dflt, parts[0]@, Option::Some(parts[1]@))]
    } else if parts.len() == 3 {
        seq![(parts[2]@, parts[0]@, Option::Some(parts[1]@))]
    } else {
        Seq::empty()
    }
}

/// The rows one preset sub-item contributes, given the surrounding source.
pub open spec fn preset_import_triples(pi: PresetImport, dflt: Seq<char>) -> Seq<
    (Seq<char>, Seq<char>, Option<Seq<char>>),
>
    decreases pi,
{
    match pi {
        PresetImport::Simple(name) => seq![(dflt, name@, Option::None)],
        PresetImport::Tuple(parts) => tuple_triples(parts@, dflt),
        PresetImport::Object { name, alias } => seq![(dflt, name@, opt_view(alias))],
        PresetImport::Nested(nested) => inline_preset_triples(*nested),
    }
}

/// The rows a list of preset sub-items contributes, in order.
pub open spec fn imports_triples(imps: Seq<PresetImport>, dflt: Seq<char>) -> Seq<
    (Seq<char>, Seq<char>, Option<Seq<char>>),
>
    decreases imps,
{
    if imps.len() == 0 {
        Seq::empty()
    } else {
        imports_triples(imps.drop_last(), dflt) + preset_import_triples(imps.last(), dflt)
    }
}

/// The rows an inline preset contributes: its sub-items against its own
/// source module.
pub open spec fn inline_preset_triples(ip: InlinePreset) -> Seq<
    (Seq<char>, Seq<char>, Option<Seq<char>>),
>
    decreases ip,
{
    imports_triples(ip.imports@, ip.from@)
}

/// The rows a flat list of explicit imports contributes, in order.
pub open spec fn explicit_triples(items: Seq<ExplicitImport>) -> Seq<
    (Seq<char>, Seq<char>, Option<Seq<char>>),
>
    decreases items.len(),
{
    if items.len() == 0 {
        Seq::empty()
    } else {
        explicit_triples(items.drop_last()) + seq![
            (items.last().from@, items.last().name@, opt_view(items.last().alias)),
        ]
    }
}

/// The rows a list of bare export names contributes for one source.
pub open spec fn simple_names_triples(names: Seq<String>, src: Seq<char>) -> Seq<
    (Seq<char>, Seq<char>, Option<Seq<char>>),
>
    decreases names.len(),
{
    if names.len() == 0 {
        Seq::empty()
    } else {
        simple_names_triples(names.drop_last(), src) + seq![(src, names.last()@, Option::None)]
    }
}

/// The row one mapping entry contributes for its source.
pub open spec fn import_item_triple(item: ImportItem, src: Seq<char>) -> (
    Seq<char>,
    Seq<char>,
    Option<Seq<char>>,
) {
    match item {
        ImportItem::Simple(name) => (src, name@, Option::None),
        ImportItem::Aliased(name, alias) => (src, name@, Option::Some(alias@)),
    }
}

/// The rows a list of mapping entries contributes for one source.
pub open spec fn import_items_triples(items: Seq<ImportItem>, src: Seq<char>) -> Seq<
    (Seq<char>, Seq<char>, Option<Seq<char>>),
>
    decreases items.len(),
{
    if items.len() == 0 {
        Seq::empty()
    } else {
        import_items_triples(items.drop_last(), src) + seq![import_item_triple(items.last(), src)]
    }
}

/// The rows one source's value contributes in the mapping notation.
pub open spec fn source_triples(src: Seq<char>, is: ImportSource) -> Seq<
    (Seq<char>, Seq<char>, Option<Seq<char>>),
> {
    match is {
        ImportSource::Simple(names) => simple_names_triples(names@, src),
        ImportSource::WithAlias(items) => import_items_triples(items@, src),
    }
}

/// The rows the whole mapping notation contributes, source by source.
pub open spec fn map_triples(pairs: Seq<(String, ImportSource)>) -> Seq<
    (Seq<char>, Seq<char>, Option<Seq<char>>),
>
    decreases pairs.len(),
{
    if pairs.len() == 0 {
        Seq::empty()
    } else {
        map_triples(pairs.drop_last()) + source_triples(pairs.last().0@, pairs.last().1)
    }
}

/// The rows one configuration item contributes.
pub open spec fn import_config_triples(cfg: ImportConfig) -> Seq<
    (Seq<char>, Seq<char>, Option<Seq<char>>),
> {
    match cfg {
        ImportConfig::InlinePreset(ip) => inline_preset_triples(ip),
        ImportConfig::Explicit(items) => explicit_triples(items@),
        ImportConfig::ImportsMap(pairs) => map_triples(pairs@),
        ImportConfig::PresetName(p) => preset_triples(p@),
    }
}

/// The rows a list of configuration items contributes, in order.
pub open spec fn configs_triples(cfgs: Seq<ImportConfig>) -> Seq<
    (Seq<char>, Seq<char>, Option<Seq<char>>),
>
    decreases cfgs.len(),
{
    if cfgs.len() == 0 {
        Seq::empty()
    } else {
        configs_triples(cfgs.drop_last()) + import_config_triples(cfgs.last())
    }
}

/// The whole catalog a configuration normalizes to.
pub open spec fn config_triples(c: PluginConfig) -> Seq<(Seq<char>, Seq<char>, Option<Seq<char>>)> {
    match c.imports {
        Option::None => Seq::empty(),
        Option::Some(Arrayable::Single(cfg)) => import_config_triples(cfg),
        Option::Some(Arrayable::Array(cfgs)) => configs_triples(cfgs@),
    }
}

/// The source module an import item targets; the empty sequence for any
/// other item.
pub open spec fn item_src(it: ModuleItem) -> Seq<char> {
    match it {
        ModuleItem::Import { src, specifiers: _ } => src@,
        _ => Seq::<char>::empty(),
    }
}

/// Whether one item is the import statement synthesized for its source's
/// pending group: its specifiers realize exactly the eligible entries of
/// that source, in their stable name order.
pub open spec fn item_matches_group(
    it: ModuleItem,
    cat: Seq<(Seq<char>, Seq<char>, Option<Seq<char>>)>,
    used: Set<Seq<char>>,
    declared: Set<Seq<char>>,
    imported: Set<Seq<char>>,
) -> bool {
    match it {
        ModuleItem::Import { src, specifiers } => {
            let evs = sort_by_name(kept(triples_lookup(cat, src@), used, declared, imported));
            &&& evs.len() > 0
            &&& specifiers@.len() == evs.len()
            &&& forall|i: int|
                0 <= i < evs.len() ==> specifier_matches(#[trigger] specifiers@[i], evs[i])
        },
        _ => false,
    }
}

/// Whether a statement sequence is the full synthesized output for one
/// resolution: one matching import per needed source, in strictly
/// ascending source order, and one for every needed source.
pub open spec fn news_match(
    news: Seq<ModuleItem>,
    cat: Seq<(Seq<char>, Seq<char>, Option<Seq<char>>)>,
    used: Set<Seq<char>>,
    declared: Set<Seq<char>>,
    imported: Set<Seq<char>>,
) -> bool {
    &&& forall|k: int|
        0 <= k < news.len() ==> item_matches_group(#[trigger] news[k], cat, used, declared, imported)
    &&& forall|k1: int, k2: int|
        0 <= k1 < k2 < news.len() ==> lex_lt(item_src(news[k1]), item_src(news[k2]))
    &&& forall|s: Seq<char>|
        kept(#[trigger] triples_lookup(cat, s), used, declared, imported).len() > 0 ==> exists|
            k: int,
        |
            0 <= k < news.len() && item_src(news[k]) == s
}

/// How running the engine relates a module body to its transformed body:
/// the synthesized imports for the body's own identifier sets, spliced in
/// right after the leading directives, everything else unchanged.
pub open spec fn transform_rel(
    old_body: Seq<ModuleItem>,
    new_body: Seq<ModuleItem>,
    cat: Seq<(Seq<char>, Seq<char>, Option<Seq<char>>)>,
) -> bool {
    exists|news: Seq<ModuleItem>|
        {
            &&& #[trigger] news_match(
                news,
                cat,
                body_used(old_body),
                body_declared(old_body),
                body_imported(old_body),
            )
            &&& new_body == old_body.take(directive_prefix_len(old_body)) + news + old_body.skip(
                directive_prefix_len(old_body),
            )
        }
}

/// The transform visitor: owns the normalized catalog for the lifetime of
/// one pipeline run and applies it to each module in turn.
pub struct AutoImportVisitor {
    /// The normalized catalog.
    import_map: Catalog,
    /// Drives diagnostic output only; resolution ignores it.
    debug: bool,
}

impl AutoImportVisitor {
    /// The visitor's catalog, as canonical rows.
    pub closed spec fn catalog_model(&self) -> Seq<(Seq<char>, Seq<char>, Option<Seq<char>>)> {
        self.import_map.model()
    }

    /// Whether diagnostic output was requested.
    pub closed spec fn debug_enabled(&self) -> bool {
        self.debug
    }

    /// Normalizes one preset sub-item into catalog rows.
    fn process_preset_import(
        import_map: &mut Catalog,
        preset_import: &PresetImport,
        default_source: &String,
    )
        ensures
            final(import_map).model() == old(import_map).model() + preset_import_triples(
                *preset_import,
                default_source@,
            ),
        decreases *preset_import,
    {
        match preset_import {
            PresetImport::Simple(name) => {
                import_map.push_triple(default_source.clone(), name.clone(), Option::None);
                proof {
                    assert(import_map.model() =~= old(import_map).model() + preset_import_triples(
                        *preset_import,
                        default_source@,
                    ));
                }
            },
            PresetImport::Tuple(parts) => {
                if parts.len() == 1 {
                    import_map.push_triple(default_source.clone(), parts[0].clone(), Option::None);
                } else if parts.len() == 2 {
                    import_map.push_triple(
                        default_source.clone(),
                        parts[0].clone(),
                        Option::Some(parts[1].clone()),
                    );
                } else if parts.len() == 3 {
                    import_map.push_triple(
                        parts[2].clone(),
                        parts[0].clone(),
                        Option::Some(parts[1].clone()),
                    );
                }
                proof {
                    assert(import_map.model() =~= old(import_map).model() + preset_import_triples(
                        *preset_import,
                        default_source@,
                    ));
                }
            },
            PresetImport::Object { name, alias } => {
                import_map.push_triple(default_source.clone(), name.clone(), clone_opt(alias));
                proof {
                    assert(import_map.model() =~= old(import_map).model() + preset_import_triples(
                        *preset_import,
                        default_source@,
                    ));
                }
            },
            PresetImport::Nested(nested) => {
                Self::process_inline_preset(import_map, &**nested);
            },
        }
    }

    /// Normalizes one inline preset into catalog rows.
    fn process_inline_preset(import_map: &mut Catalog, inline_preset: &InlinePreset)
        ensures
            final(import_map).model() == old(import_map).model() + inline_preset_triples(
                *inline_preset,
            ),
        decreases *inline_preset,
    {
        let mut j: usize = 0;
        while j < inline_preset.imports.len()
            invariant
                j <= inline_preset.imports@.len(),
                import_map.model() == old(import_map).model() + imports_triples(
                    inline_preset.imports@.take(j as int),
                    inline_preset.from@,
                ),
            decreases inline_preset.imports@.len() - j,
        {
            proof {
                assert(decreases_to!(*inline_preset => inline_preset.imports@[j as int]));
            }
            Self::process_preset_import(
                import_map,
                &inline_preset.imports[j],
                &inline_preset.from,
            );
            proof {
                let imps = inline_preset.imports@;
                assert(imps.take(j as int + 1).drop_last() =~= imps.take(j as int));
                assert(imps.take(j as int + 1).last() == imps[j as int]);
            }
            j += 1;
        }
        proof {
            assert(inline_preset.imports@.take(inline_preset.imports@.len() as int)
                =~= inline_preset.imports@);
        }
    }

    /// Normalizes one configuration item into catalog rows.
    fn process_import_config(import_map: &mut Catalog, import_config: &ImportConfig)
        ensures
            final(import_map).model() == old(import_map).model() + import_config_triples(
                *import_config,
            ),
    {
        match import_config {
            ImportConfig::PresetName(preset) => {
                let frag = get_preset_imports(preset.as_str());
                import_map.append_from(&frag);
            },
            ImportConfig::InlinePreset(inline_preset) => {
                Self::process_inline_preset(import_map, inline_preset);
            },
            ImportConfig::Explicit(items) => {
                let mut j: usize = 0;
                while j < items.len()
                    invariant
                        j <= items@.len(),
                        import_map.model() == old(import_map).model() + explicit_triples(
                            items@.take(j as int),
                        ),
                    decreases items@.len() - j,
                {
                    let item = &items[j];
                    import_map.push_triple(
                        item.from.clone(),
                        item.name.clone(),
                        clone_opt(&item.alias),
                    );
                    proof {
                        assert(items@.take(j as int + 1).drop_last() =~= items@.take(j as int));
                        assert(items@.take(j as int + 1).last() == items@[j as int]);
                        assert(import_map.model() =~= old(import_map).model() + explicit_triples(
                            items@.take(j as int + 1),
                        ));
                    }
                    j += 1;
                }
                proof {
                    assert(items@.take(items@.len() as int) =~= items@);
                }
            },
            ImportConfig::ImportsMap(pairs) => {
                let mut j: usize = 0;
                while j < pairs.len()
                    invariant
                        j <= pairs@.len(),
                        import_map.model() == old(import_map).model() + map_triples(
                            pairs@.take(j as int),
                        ),
                    decreases pairs@.len() - j,
                {
                    let src = &pairs[j].0;
                    let ghost base = import_map.model();
                    match &pairs[j].1 {
                        ImportSource::Simple(names) => {
                            let mut k: usize = 0;
                            while k < names.len()
                                invariant
                                    k <= names@.len(),
                                    src == &pairs@[j as int].0,
                                    j < pairs@.len(),
                                    pairs@[j as int].1 is Simple,
                                    names@ == pairs@[j as int].1->Simple_0@,
                                    import_map.model() == base + simple_names_triples(
                                        names@.take(k as int),
                                        src@,
                                    ),
                                decreases names@.len() - k,
                            {
                                import_map.push_triple(
                                    src.clone(),
                                    names[k].clone(),
                                    Option::None,
                                );
                                proof {
                                    assert(names@.take(k as int + 1).drop_last() =~= names@.take(
                                        k as int,
                                    ));
                                    assert(names@.take(k as int + 1).last() == names@[k as int]);
                                    assert(import_map.model() =~= base + simple_names_triples(
                                        names@.take(k as int + 1),
                                        src@,
                                    ));
                                }
                                k += 1;
                            }
                            proof {
                                assert(names@.take(names@.len() as int) =~= names@);
                            }
                        },
                        ImportSource::WithAlias(items) => {
                            let mut k: usize = 0;
                            while k < items.len()
                                invariant
                                    k <= items@.len(),
                                    src == &pairs@[j as int].0,
                                    j < pairs@.len(),
                                    pairs@[j as int].1 is WithAlias,
                                    items@ == pairs@[j as int].1->WithAlias_0@,
                                    import_map.model() == base + import_items_triples(
                                        items@.take(k as int),
                                        src@,
                                    ),
                                decreases items@.len() - k,
                            {
                                match &items[k] {
                                    ImportItem::Simple(name) => {
                                        import_map.push_triple(
                                            src.clone(),
                                            name.clone(),
                                            Option::None,
                                        );
                                    },
                                    ImportItem::Aliased(name, alias) => {
                                        import_map.push_triple(
                                            src.clone(),
                                            name.clone(),
                                            Option::Some(alias.clone()),
                                        );
                                    },
                                }
                                proof {
                                    assert(items@.take(k as int + 1).drop_last() =~= items@.take(
                                        k as int,
                                    ));
                                    assert(items@.take(k as int + 1).last() == items@[k as int]);
                                    assert(import_map.model() =~= base + import_items_triples(
                                        items@.take(k as int + 1),
                                        src@,
                                    ));
                                }
                                k += 1;
                            }
                            proof {
                                assert(items@.take(items@.len() as int) =~= items@);
                            }
                        },
                    }
                    proof {
                        assert(pairs@.take(j as int + 1).drop_last() =~= pairs@.take(j as int));
                        assert(pairs@.take(j as int + 1).last() == pairs@[j as int]);
                        assert(import_map.model() == old(import_map).model() + map_triples(
                            pairs@.take(j as int + 1),
                        ));
                    }
                    j += 1;
                }
                proof {
                    assert(pairs@.take(pairs@.len() as int) =~= pairs@);
                }
            },
        }
    }

    /// Classifies one module's identifiers and resolves the catalog
    /// against them, without touching the module: the pending groups, as
    /// `resolve_imports` orders them.
    pub fn pending_for_module(&self, module: &Module) -> (r: Vec<PendingImport>)
        ensures
            forall|k1: int, k2: int|
                0 <= k1 < k2 < r@.len() ==> lex_lt(r@[k1].source@, r@[k2].source@),
            forall|k: int|
                0 <= k < r@.len() ==> sorted_by_name(#[trigger] entries_view(r@[k].entries@)),
            forall|k: int|
                0 <= k < r@.len() ==> #[trigger] entries_view(r@[k].entries@).to_multiset() == kept(
                    triples_lookup(self.catalog_model(), r@[k].source@),
                    body_used(module.body@),
                    body_declared(module.body@),
                    body_imported(module.body@),
                ).to_multiset(),
            forall|k: int| 0 <= k < r@.len() ==> #[trigger] r@[k].entries@.len() > 0,
            forall|k: int|
                0 <= k < r@.len() ==> #[trigger] entries_view(r@[k].entries@) == sort_by_name(
                    kept(
                        triples_lookup(self.catalog_model(), r@[k].source@),
                        body_used(module.body@),
                        body_declared(module.body@),
                        body_imported(module.body@),
                    ),
                ),
            forall|s: Seq<char>|
                kept(
                    #[trigger] triples_lookup(self.catalog_model(), s),
                    body_used(module.body@),
                    body_declared(module.body@),
                    body_imported(module.body@),
                ).len() > 0 ==> exists|k: int| 0 <= k < r@.len() && r@[k].source@ == s,
    {
        let mut collector = IdentifierCollector::new();
        collector.collect_module(module);
        proof {
            assert(collector.used_set() =~= body_used(module.body@));
            assert(collector.declared_set() =~= body_declared(module.body@));
            assert(collector.imported_set() =~= body_imported(module.body@));
        }
        let r = resolve_imports(&self.import_map, &collector);
        proof {
            assert forall|k: int| 0 <= k < r@.len() implies #[trigger] entries_view(
                r@[k].entries@,
            ).to_multiset() == kept(
                triples_lookup(self.catalog_model(), r@[k].source@),
                body_used(module.body@),
                body_declared(module.body@),
                body_imported(module.body@),
            ).to_multiset() by {
                assert(self.import_map.lookup(r@[k].source@) == triples_lookup(
                    self.catalog_model(),
                    r@[k].source@,
                ));
            };
            assert forall|k: int| 0 <= k < r@.len() implies #[trigger] entries_view(
                r@[k].entries@,
            ) == sort_by_name(
                kept(
                    triples_lookup(self.catalog_model(), r@[k].source@),
                    body_used(module.body@),
                    body_declared(module.body@),
                    body_imported(module.body@),
                ),
            ) by {
                assert(self.import_map.lookup(r@[k].source@) == triples_lookup(
                    self.catalog_model(),
                    r@[k].source@,
                ));
            };
            assert forall|s: Seq<char>|
                kept(
                    #[trigger] triples_lookup(self.catalog_model(), s),
                    body_used(module.body@),
                    body_declared(module.body@),
                    body_imported(module.body@),
                ).len() > 0 implies exists|k: int| 0 <= k < r@.len() && r@[k].source@ == s by {
                assert(self.import_map.lookup(s) == triples_lookup(self.catalog_model(), s));
                assert(kept(
                    self.import_map.lookup(s),
                    collector.used_set(),
                    collector.declared_set(),
                    collector.imported_set(),
                ).len() > 0);
            };
        }
        r
    }

    /// Runs the engine over one module: classifies its identifiers,
    /// resolves the catalog against them, synthesizes the pending import
    /// statements and splices them in after the leading directives.
    pub fn add_auto_imports(&self, module: &mut Module)
        ensures
            transform_rel(old(module).body@, final(module).body@, self.catalog_model()),
    {
        let ghost cat = self.catalog_model();
        let ghost obody = module.body@;
        let mut collector = IdentifierCollector::new();
        collector.collect_module(module);
        proof {
            assert(collector.used_set() =~= body_used(obody));
            assert(collector.declared_set() =~= body_declared(obody));
            assert(collector.imported_set() =~= body_imported(obody));
        }
        let pending = resolve_imports(&self.import_map, &collector);
        let ghost groups = pending@;
        let mut rest = pending;
        let mut news: Vec<ModuleItem> = Vec::new();
        proof {
            assert(rest@ =~= groups.skip(0));
            assert forall|k: int| 0 <= k < groups.len() implies #[trigger] entries_view(
                groups[k].entries@,
            ) == sort_by_name(
                kept(
                    triples_lookup(cat, groups[k].source@),
                    body_used(obody),
                    body_declared(obody),
                    body_imported(obody),
                ),
            ) by {
                assert(self.import_map.lookup(groups[k].source@) == triples_lookup(
                    cat,
                    groups[k].source@,
                ));
            };
        }
        while rest.len() > 0
            invariant
                news@.len() + rest@.len() == groups.len(),
                rest@ == groups.skip(news@.len() as int),
                cat == self.catalog_model(),
                forall|k: int|
                    0 <= k < groups.len() ==> #[trigger] entries_view(groups[k].entries@)
                        == sort_by_name(
                        kept(
                            triples_lookup(cat, groups[k].source@),
                            body_used(obody),
                            body_declared(obody),
                            body_imported(obody),
                        ),
                    ),
                forall|k: int| 0 <= k < groups.len() ==> #[trigger] groups[k].entries@.len() > 0,
                forall|i: int|
                    0 <= i < news@.len() ==> item_matches_group(
                        #[trigger] news@[i],
                        cat,
                        body_used(obody),
                        body_declared(obody),
                        body_imported(obody),
                    ),
                forall|i: int|
                    0 <= i < news@.len() ==> item_src(#[trigger] news@[i]) == groups[i].source@,
            decreases rest@.len(),
        {
            let ghost i: int = news@.len() as int;
            let g = rest.remove(0);
            proof {
                assert(g == groups[i]);
                assert(rest@ =~= groups.skip(i + 1));
            }
            let it = synth_import(g);
            proof {
                let evs = entries_view(groups[i].entries@);
                assert(evs == sort_by_name(
                    kept(
                        triples_lookup(cat, groups[i].source@),
                        body_used(obody),
                        body_declared(obody),
                        body_imported(obody),
                    ),
                ));
                assert(evs.len() > 0);
                assert(item_matches_group(
                    it,
                    cat,
                    body_used(obody),
                    body_declared(obody),
                    body_imported(obody),
                ));
            }
            news.push(it);
        }
        proof {
            assert(news@.len() == groups.len());
            assert(news_match(
                news@,
                cat,
                body_used(obody),
                body_declared(obody),
                body_imported(obody),
            )) by {
                assert forall|k1: int, k2: int| 0 <= k1 < k2 < news@.len() implies lex_lt(
                    item_src(news@[k1]),
                    item_src(news@[k2]),
                ) by {
                    assert(item_src(news@[k1]) == groups[k1].source@);
                    assert(item_src(news@[k2]) == groups[k2].source@);
                };
                assert forall|s: Seq<char>|
                    kept(
                        #[trigger] triples_lookup(cat, s),
                        body_used(obody),
                        body_declared(obody),
                        body_imported(obody),
                    ).len() > 0 implies exists|k: int|
                    0 <= k < news@.len() && item_src(news@[k]) == s by {
                    assert(self.import_map.lookup(s) == triples_lookup(cat, s));
                    assert(kept(
                        self.import_map.lookup(s),
                        collector.used_set(),
                        collector.declared_set(),
                        collector.imported_set(),
                    ).len() > 0);
                    let k0 = choose|k0: int| 0 <= k0 < groups.len() && groups[k0].source@ == s;
                    assert(item_src(news@[k0]) == s);
                };
            }
        }
        splice_imports(module, news);
        proof {
            assert(transform_rel(obody, module.body@, cat));
        }
    }

    /// Builds the visitor: normalizes the whole configuration once into
    /// the canonical catalog.
    pub fn new(config: PluginConfig) -> (r: Self)
        ensures
            r.catalog_model() == config_triples(config),
            r.debug_enabled() == config.debug,
    {
        let debug = config.debug;
        let mut import_map = Catalog::new();
        match &config.imports {
            Option::None => {
                proof {
                    assert(import_map.model() =~= config_triples(config));
                }
            },
            Option::Some(Arrayable::Single(item)) => {
                Self::process_import_config(&mut import_map, item);
                proof {
                    assert(import_map.model() =~= config_triples(config));
                }
            },
            Option::Some(Arrayable::Array(items)) => {
                let mut j: usize = 0;
                while j < items.len()
                    invariant
                        j <= items@.len(),
                        import_map.model() == configs_triples(items@.take(j as int)),
                    decreases items@.len() - j,
                {
                    Self::process_import_config(&mut import_map, &items[j]);
                    proof {
                        assert(items@.take(j as int + 1).drop_last() =~= items@.take(j as int));
                        assert(items@.take(j as int + 1).last() == items@[j as int]);
                    }
                    j += 1;
                }
                proof {
                    assert(items@.take(items@.len() as int) =~= items@);
                    assert(import_map.model() =~= config_triples(config));
                }
            },
        }
        AutoImportVisitor { import_map, debug }
    }
}

} // verus!
