//! Engine-level laws: properties that relate several functions, proved
//! from their contracts.

use vstd::prelude::*;
use vstd::seq_lib::group_to_multiset_ensures;

use crate::ast::{
    body_declared, body_imported, body_used, is_directive, item_declared, item_imported,
    item_used, spec_local, ModuleItem, Specifier,
};
use crate::catalog::triples_lookup;
use crate::config::ImportConfig;
use crate::presets::preset_triples;
use crate::resolve::{eligible, kept, lemma_sort_by_name_multiset, required_ev_local, sort_by_name};
use crate::splice::{directive_prefix_len, lemma_directive_prefix_len_bounds};
use crate::synth::{sentinel_local, specifier_matches};
use crate::visitor::{
    configs_triples, import_config_triples, item_matches_group, item_src, news_match,
    transform_rel,
};

verus! {

/// A run that synthesizes nothing: for every source module, no catalog
/// entry is eligible against the body's identifier sets.
pub open spec fn no_pending(
    body: Seq<ModuleItem>,
    cat: Seq<(Seq<char>, Seq<char>, Option<Seq<char>>)>,
) -> bool {
    forall|s: Seq<char>|
        kept(
            #[trigger] triples_lookup(cat, s),
            body_used(body),
            body_declared(body),
            body_imported(body),
        ).len() == 0
}

/// A run that synthesizes nothing leaves the body unchanged.
pub proof fn lemma_noop_unchanged(
    b: Seq<ModuleItem>,
    b2: Seq<ModuleItem>,
    cat: Seq<(Seq<char>, Seq<char>, Option<Seq<char>>)>,
)
    requires
        no_pending(b, cat),
        transform_rel(b, b2, cat),
    ensures
        b2 == b,
{
    broadcast use group_to_multiset_ensures;

    let news = choose|news: Seq<ModuleItem>|
        {
            &&& #[trigger] news_match(news, cat, body_used(b), body_declared(b), body_imported(b))
            &&& b2 == b.take(directive_prefix_len(b)) + news + b.skip(directive_prefix_len(b))
        };
    if news.len() > 0 {
        assert(item_matches_group(
            news[0],
            cat,
            body_used(b),
            body_declared(b),
            body_imported(b),
        ));
        match news[0] {
            ModuleItem::Import { src, specifiers: _ } => {
                let ks = kept(
                    triples_lookup(cat, src@),
                    body_used(b),
                    body_declared(b),
                    body_imported(b),
                );
                assert(ks.len() == 0);
                assert(sort_by_name(ks).len() == 0);
                assert(false);
            },
            _ => {
                assert(false);
            },
        }
    }
    lemma_directive_prefix_len_bounds(b);
    assert(b2 =~= b);
}

/// Running the engine twice, when the first run synthesized nothing,
/// yields an identical body both times.
pub proof fn lemma_noop_idempotent(
    b: Seq<ModuleItem>,
    b2: Seq<ModuleItem>,
    b3: Seq<ModuleItem>,
    cat: Seq<(Seq<char>, Seq<char>, Option<Seq<char>>)>,
)
    requires
        no_pending(b, cat),
        transform_rel(b, b2, cat),
        transform_rel(b2, b3, cat),
    ensures
        b2 == b,
        b3 == b2,
{
    lemma_noop_unchanged(b, b2, cat);
    lemma_noop_unchanged(b2, b3, cat);
}

/// Suppression by declaration: when a module declares a binding named
/// `nm` anywhere, no kept entry requires `nm` as its local name, so no
/// import binding `nm` is ever synthesized.
pub proof fn lemma_declared_suppresses(
    evs: Seq<(Seq<char>, Option<Seq<char>>)>,
    used: Set<Seq<char>>,
    declared: Set<Seq<char>>,
    imported: Set<Seq<char>>,
    nm: Seq<char>,
)
    requires
        declared.contains(nm),
    ensures
        forall|i: int|
            0 <= i < kept(evs, used, declared, imported).len() ==> required_ev_local(
                #[trigger] kept(evs, used, declared, imported)[i],
            ) != nm,
    decreases evs.len(),
{
    if evs.len() > 0 {
        lemma_declared_suppresses(evs.drop_last(), used, declared, imported, nm);
        let kd = kept(evs.drop_last(), used, declared, imported);
        let k = kept(evs, used, declared, imported);
        assert forall|i: int| 0 <= i < k.len() implies required_ev_local(#[trigger] k[i])
            != nm by {
            if i < kd.len() {
                assert(k[i] == kd[i]);
            } else {
                assert(eligible(evs.last(), used, declared, imported));
                assert(k[i] == evs.last());
            }
        };
    }
}

/// Suppression by an existing import: when a module already binds `nm` by
/// import, no kept entry requires `nm` either.
pub proof fn lemma_imported_suppresses(
    evs: Seq<(Seq<char>, Option<Seq<char>>)>,
    used: Set<Seq<char>>,
    declared: Set<Seq<char>>,
    imported: Set<Seq<char>>,
    nm: Seq<char>,
)
    requires
        imported.contains(nm),
    ensures
        forall|i: int|
            0 <= i < kept(evs, used, declared, imported).len() ==> required_ev_local(
                #[trigger] kept(evs, used, declared, imported)[i],
            ) != nm,
    decreases evs.len(),
{
    if evs.len() > 0 {
        lemma_imported_suppresses(evs.drop_last(), used, declared, imported, nm);
        let kd = kept(evs.drop_last(), used, declared, imported);
        let k = kept(evs, used, declared, imported);
        assert forall|i: int| 0 <= i < k.len() implies required_ev_local(#[trigger] k[i])
            != nm by {
            if i < kd.len() {
                assert(k[i] == kd[i]);
            } else {
                assert(eligible(evs.last(), used, declared, imported));
                assert(k[i] == evs.last());
            }
        };
    }
}

/// Entries whose required local name is not used at all are never kept:
/// the engine only imports what the module actually references.
pub proof fn lemma_unused_suppresses(
    evs: Seq<(Seq<char>, Option<Seq<char>>)>,
    used: Set<Seq<char>>,
    declared: Set<Seq<char>>,
    imported: Set<Seq<char>>,
    nm: Seq<char>,
)
    requires
        !used.contains(nm),
    ensures
        forall|i: int|
            0 <= i < kept(evs, used, declared, imported).len() ==> required_ev_local(
                #[trigger] kept(evs, used, declared, imported)[i],
            ) != nm,
    decreases evs.len(),
{
    if evs.len() > 0 {
        lemma_unused_suppresses(evs.drop_last(), used, declared, imported, nm);
        let kd = kept(evs.drop_last(), used, declared, imported);
        let k = kept(evs, used, declared, imported);
        assert forall|i: int| 0 <= i < k.len() implies required_ev_local(#[trigger] k[i])
            != nm by {
            if i < kd.len() {
                assert(k[i] == kd[i]);
            } else {
                assert(eligible(evs.last(), used, declared, imported));
                assert(k[i] == evs.last());
            }
        };
    }
}

/// Every kept entry is eligible: it was selected by the resolution rule.
pub proof fn lemma_kept_entries_eligible(
    evs: Seq<(Seq<char>, Option<Seq<char>>)>,
    used: Set<Seq<char>>,
    declared: Set<Seq<char>>,
    imported: Set<Seq<char>>,
)
    ensures
        forall|i: int|
            0 <= i < kept(evs, used, declared, imported).len() ==> eligible(
                #[trigger] kept(evs, used, declared, imported)[i],
                used,
                declared,
                imported,
            ),
    decreases evs.len(),
{
    if evs.len() > 0 {
        lemma_kept_entries_eligible(evs.drop_last(), used, declared, imported);
        let kd = kept(evs.drop_last(), used, declared, imported);
        let k = kept(evs, used, declared, imported);
        assert forall|i: int| 0 <= i < k.len() implies eligible(
            #[trigger] k[i],
            used,
            declared,
            imported,
        ) by {
            if i < kd.len() {
                assert(k[i] == kd[i]);
            } else {
                assert(k[i] == evs.last());
            }
        };
    }
}

/// Every named or default specifier of a synthesized import binds a local
/// name that the module uses and neither declares nor already imports.
pub proof fn lemma_synthesized_binding_is_unbound(
    it: ModuleItem,
    cat: Seq<(Seq<char>, Seq<char>, Option<Seq<char>>)>,
    used: Set<Seq<char>>,
    declared: Set<Seq<char>>,
    imported: Set<Seq<char>>,
    i: int,
)
    requires
        item_matches_group(it, cat, used, declared, imported),
    ensures
        match it {
            ModuleItem::Import { src: _, specifiers } => 0 <= i < specifiers@.len()
                ==> match specifiers@[i] {
                Specifier::Named { imported: _, local } => used.contains(local@)
                    && !declared.contains(local@) && !imported.contains(local@),
                Specifier::DefaultImport { local } => used.contains(local@) && !declared.contains(
                    local@,
                ) && !imported.contains(local@),
                Specifier::NamespaceImport { local: _ } => true,
            },
            _ => false,
        },
{
    broadcast use group_to_multiset_ensures;

    match it {
        ModuleItem::Import { src, specifiers } => {
            if 0 <= i < specifiers@.len() {
                let ks = kept(triples_lookup(cat, src@), used, declared, imported);
                let evs = sort_by_name(ks);
                lemma_sort_by_name_multiset(ks);
                let e = evs[i];
                assert(specifier_matches(specifiers@[i], e));
                assert(evs.contains(e));
                assert(evs.to_multiset().count(e) > 0);
                assert(ks.to_multiset().count(e) > 0);
                assert(ks.contains(e));
                let j = choose|j: int| 0 <= j < ks.len() && ks[j] == e;
                lemma_kept_entries_eligible(triples_lookup(cat, src@), used, declared, imported);
                assert(eligible(e, used, declared, imported));
                assert(used.contains(required_ev_local(e)));
                match specifiers@[i] {
                    Specifier::Named { imported: _, local } => {
                        assert(local@ == required_ev_local(e));
                    },
                    Specifier::DefaultImport { local } => {
                        assert(e.0 == "default"@);
                        assert(local@ == sentinel_local(e.1));
                        assert(local@ == required_ev_local(e));
                    },
                    Specifier::NamespaceImport { local: _ } => {
                    },
                }
            }
        },
        _ => {
        },
    }
}

/// A row that offers entries for a source makes that source's offered
/// list contain its entry.
proof fn lemma_triples_lookup_has_entry(
    ts: Seq<(Seq<char>, Seq<char>, Option<Seq<char>>)>,
    s: Seq<char>,
    j: int,
)
    requires
        0 <= j < ts.len(),
        ts[j].0 == s,
    ensures
        triples_lookup(ts, s).contains((ts[j].1, ts[j].2)),
    decreases ts.len(),
{
    let lk = triples_lookup(ts, s);
    if j < ts.len() - 1 {
        lemma_triples_lookup_has_entry(ts.drop_last(), s, j);
        let prev = triples_lookup(ts.drop_last(), s);
        let i = choose|i: int| 0 <= i < prev.len() && prev[i] == (ts[j].1, ts[j].2);
        assert(lk[i] == (ts[j].1, ts[j].2));
    } else {
        assert(lk.last() == (ts[j].1, ts[j].2));
    }
}

/// An eligible entry anywhere in the offered list forces something to be
/// kept for that source.
proof fn lemma_eligible_entry_kept(
    evs: Seq<(Seq<char>, Option<Seq<char>>)>,
    used: Set<Seq<char>>,
    declared: Set<Seq<char>>,
    imported: Set<Seq<char>>,
    j: int,
)
    requires
        0 <= j < evs.len(),
        eligible(evs[j], used, declared, imported),
    ensures
        kept(evs, used, declared, imported).len() > 0,
    decreases evs.len(),
{
    if j < evs.len() - 1 {
        assert(evs.drop_last()[j] == evs[j]);
        lemma_eligible_entry_kept(evs.drop_last(), used, declared, imported, j);
    } else {
        assert(eligible(evs.last(), used, declared, imported));
    }
}

/// Basic synthesis: a catalog row whose required local name is used but
/// neither declared nor imported forces an import from its source module.
pub proof fn lemma_eligible_row_synthesized(
    news: Seq<ModuleItem>,
    cat: Seq<(Seq<char>, Seq<char>, Option<Seq<char>>)>,
    used: Set<Seq<char>>,
    declared: Set<Seq<char>>,
    imported: Set<Seq<char>>,
    t: int,
)
    requires
        news_match(news, cat, used, declared, imported),
        0 <= t < cat.len(),
        eligible((cat[t].1, cat[t].2), used, declared, imported),
    ensures
        exists|k: int| 0 <= k < news.len() && item_src(#[trigger] news[k]) == cat[t].0,
{
    lemma_triples_lookup_has_entry(cat, cat[t].0, t);
    let lk = triples_lookup(cat, cat[t].0);
    let j = choose|j: int| 0 <= j < lk.len() && lk[j] == (cat[t].1, cat[t].2);
    lemma_eligible_entry_kept(lk, used, declared, imported, j);
}

/// What is kept comes from the offered list.
proof fn lemma_kept_from_offered(
    evs: Seq<(Seq<char>, Option<Seq<char>>)>,
    used: Set<Seq<char>>,
    declared: Set<Seq<char>>,
    imported: Set<Seq<char>>,
    e: (Seq<char>, Option<Seq<char>>),
)
    requires
        kept(evs, used, declared, imported).contains(e),
    ensures
        evs.contains(e),
    decreases evs.len(),
{
    if evs.len() > 0 {
        let kd = kept(evs.drop_last(), used, declared, imported);
        let k = kept(evs, used, declared, imported);
        let i = choose|i: int| 0 <= i < k.len() && k[i] == e;
        if i < kd.len() {
            assert(kd[i] == e);
            assert(kd.contains(e));
            lemma_kept_from_offered(evs.drop_last(), used, declared, imported, e);
            let j = choose|j: int| 0 <= j < evs.drop_last().len() && evs.drop_last()[j] == e;
            assert(evs[j] == e);
        } else {
            assert(k[i] == evs.last());
            assert(evs[evs.len() - 1] == e);
        }
    }
}

/// An eligible offered entry is kept.
proof fn lemma_eligible_is_kept(
    evs: Seq<(Seq<char>, Option<Seq<char>>)>,
    used: Set<Seq<char>>,
    declared: Set<Seq<char>>,
    imported: Set<Seq<char>>,
    e: (Seq<char>, Option<Seq<char>>),
)
    requires
        evs.contains(e),
        eligible(e, used, declared, imported),
    ensures
        kept(evs, used, declared, imported).contains(e),
    decreases evs.len(),
{
    let k = kept(evs, used, declared, imported);
    let kd = kept(evs.drop_last(), used, declared, imported);
    let i = choose|i: int| 0 <= i < evs.len() && evs[i] == e;
    if i < evs.len() - 1 {
        assert(evs.drop_last()[i] == e);
        assert(evs.drop_last().contains(e));
        lemma_eligible_is_kept(evs.drop_last(), used, declared, imported, e);
        let j = choose|j: int| 0 <= j < kd.len() && kd[j] == e;
        assert(k[j] == e);
    } else {
        assert(evs.last() == e);
        assert(k[k.len() - 1] == e);
    }
}

/// Every offered entry originates in a catalog row for its source.
proof fn lemma_lookup_entry_origin(
    ts: Seq<(Seq<char>, Seq<char>, Option<Seq<char>>)>,
    s: Seq<char>,
    e: (Seq<char>, Option<Seq<char>>),
)
    requires
        triples_lookup(ts, s).contains(e),
    ensures
        exists|t: int| 0 <= t < ts.len() && #[trigger] ts[t] == (s, e.0, e.1),
    decreases ts.len(),
{
    if ts.len() > 0 {
        let lk = triples_lookup(ts, s);
        let prev = triples_lookup(ts.drop_last(), s);
        let i = choose|i: int| 0 <= i < lk.len() && lk[i] == e;
        if i < prev.len() {
            assert(prev[i] == e);
            assert(prev.contains(e));
            lemma_lookup_entry_origin(ts.drop_last(), s, e);
            let t = choose|t: int|
                0 <= t < ts.drop_last().len() && #[trigger] ts.drop_last()[t] == (s, e.0, e.1);
            assert(ts[t] == (s, e.0, e.1));
        } else {
            assert(ts.last().0 == s);
            assert(lk.last() == (ts.last().1, ts.last().2));
            assert(ts[ts.len() - 1] == (s, e.0, e.1));
        }
    }
}

/// Splicing import statements into a body changes no used or declared
/// name, and adds exactly the new statements' locally bound names to the
/// imported set.
proof fn lemma_sets_of_spliced(b: Seq<ModuleItem>, news: Seq<ModuleItem>, dpl: int)
    requires
        0 <= dpl <= b.len(),
        forall|k: int| 0 <= k < news.len() ==> #[trigger] news[k] is Import,
    ensures
        body_used(b.take(dpl) + news + b.skip(dpl)) == body_used(b),
        body_declared(b.take(dpl) + news + b.skip(dpl)) == body_declared(b),
        forall|nm: Seq<char>|
            body_imported(b.take(dpl) + news + b.skip(dpl)).contains(nm) <==> body_imported(
                b,
            ).contains(nm) || body_imported(news).contains(nm),
{
    let b2 = b.take(dpl) + news + b.skip(dpl);
    assert(b2.len() == b.len() + news.len());
    assert forall|nm: Seq<char>| body_used(b2).contains(nm) implies body_used(b).contains(nm) by {
        let i = choose|i: int| 0 <= i < b2.len() && item_used(b2[i]).contains(nm);
        if i < dpl {
            assert(b2[i] == b[i]);
            assert(item_used(b[i]).contains(nm));
        } else if i < dpl + news.len() {
            assert(b2[i] == news[i - dpl]);
            assert(news[i - dpl] is Import);
        } else {
            assert(b2[i] == b[i - news.len()]);
            assert(item_used(b[i - news.len()]).contains(nm));
        }
    };
    assert forall|nm: Seq<char>| body_used(b).contains(nm) implies body_used(b2).contains(nm) by {
        let i = choose|i: int| 0 <= i < b.len() && item_used(b[i]).contains(nm);
        if i < dpl {
            assert(b2[i] == b[i]);
            assert(item_used(b2[i]).contains(nm));
        } else {
            assert(b2[i + news.len()] == b[i]);
            assert(item_used(b2[i + news.len()]).contains(nm));
        }
    };
    assert(body_used(b2) =~= body_used(b));
    assert forall|nm: Seq<char>| body_declared(b2).contains(nm) implies body_declared(b).contains(
        nm,
    ) by {
        let i = choose|i: int| 0 <= i < b2.len() && item_declared(b2[i]).contains(nm);
        if i < dpl {
            assert(b2[i] == b[i]);
            assert(item_declared(b[i]).contains(nm));
        } else if i < dpl + news.len() {
            assert(b2[i] == news[i - dpl]);
            assert(news[i - dpl] is Import);
        } else {
            assert(b2[i] == b[i - news.len()]);
            assert(item_declared(b[i - news.len()]).contains(nm));
        }
    };
    assert forall|nm: Seq<char>| body_declared(b).contains(nm) implies body_declared(b2).contains(
        nm,
    ) by {
        let i = choose|i: int| 0 <= i < b.len() && item_declared(b[i]).contains(nm);
        if i < dpl {
            assert(b2[i] == b[i]);
            assert(item_declared(b2[i]).contains(nm));
        } else {
            assert(b2[i + news.len()] == b[i]);
            assert(item_declared(b2[i + news.len()]).contains(nm));
        }
    };
    assert(body_declared(b2) =~= body_declared(b));
    assert forall|nm: Seq<char>|
        body_imported(b2).contains(nm) <==> body_imported(b).contains(nm) || body_imported(
            news,
        ).contains(nm) by {
        if body_imported(b2).contains(nm) {
            let i = choose|i: int| 0 <= i < b2.len() && item_imported(b2[i]).contains(nm);
            if i < dpl {
                assert(b2[i] == b[i]);
                assert(item_imported(b[i]).contains(nm));
            } else if i < dpl + news.len() {
                assert(b2[i] == news[i - dpl]);
                assert(item_imported(news[i - dpl]).contains(nm));
            } else {
                assert(b2[i] == b[i - news.len()]);
                assert(item_imported(b[i - news.len()]).contains(nm));
            }
        }
        if body_imported(b).contains(nm) {
            let i = choose|i: int| 0 <= i < b.len() && item_imported(b[i]).contains(nm);
            if i < dpl {
                assert(b2[i] == b[i]);
                assert(item_imported(b2[i]).contains(nm));
            } else {
                assert(b2[i + news.len()] == b[i]);
                assert(item_imported(b2[i + news.len()]).contains(nm));
            }
        }
        if body_imported(news).contains(nm) {
            let i = choose|i: int| 0 <= i < news.len() && item_imported(news[i]).contains(nm);
            assert(b2[dpl + i] == news[i]);
            assert(item_imported(b2[dpl + i]).contains(nm));
        }
    };
}

/// A catalog row offering the namespace sentinel without an alias: the
/// one degenerate shape whose synthesized statement binds `default`
/// rather than the required local name `*`.
pub open spec fn plain_star_row(t: (Seq<char>, Seq<char>, Option<Seq<char>>)) -> bool {
    t.1 == "*"@ && t.2 is None
}

/// In the synthesized output, every kept entry's required local name is
/// bound by one of the new import statements, except for the degenerate
/// namespace shape.
proof fn lemma_kept_local_in_news(
    news: Seq<ModuleItem>,
    cat: Seq<(Seq<char>, Seq<char>, Option<Seq<char>>)>,
    used: Set<Seq<char>>,
    declared: Set<Seq<char>>,
    imported: Set<Seq<char>>,
    s: Seq<char>,
    e: (Seq<char>, Option<Seq<char>>),
)
    requires
        news_match(news, cat, used, declared, imported),
        kept(triples_lookup(cat, s), used, declared, imported).contains(e),
        !(e.0 == "*"@ && e.1 is None),
    ensures
        body_imported(news).contains(required_ev_local(e)),
{
    broadcast use group_to_multiset_ensures;

    let ks = kept(triples_lookup(cat, s), used, declared, imported);
    assert(ks.len() > 0);
    let k = choose|k: int| 0 <= k < news.len() && item_src(news[k]) == s;
    assert(item_matches_group(news[k], cat, used, declared, imported));
    match news[k] {
        ModuleItem::Import { src, specifiers } => {
            assert(src@ == s);
            let evs = sort_by_name(ks);
            lemma_sort_by_name_multiset(ks);
            assert(ks.to_multiset().count(e) > 0);
            assert(evs.to_multiset().count(e) > 0);
            assert(evs.contains(e));
            let j = choose|j: int| 0 <= j < evs.len() && evs[j] == e;
            assert(specifier_matches(specifiers@[j], e));
            let loc = spec_local(specifiers@[j]);
            assert(loc == required_ev_local(e)) by {
                if e.0 == "default"@ {
                } else if e.0 == "*"@ {
                    assert(e.1 is Some);
                }
            }
            assert(item_imported(news[k]).contains(loc)) by {
                assert(spec_local(specifiers@[j]) == loc);
            }
            assert(body_imported(news).contains(loc)) by {
                assert(item_imported(news[k]).contains(loc));
            }
        },
        _ => {
            assert(false);
        },
    }
}

/// Running the engine twice from any starting module changes nothing the
/// second time: every binding the first run synthesized now suppresses
/// its own entry. The one exception is a catalog row with exported name
/// `*` and no alias, whose required local name `*` differs from the name
/// `default` its statement binds; such rows are excluded.
pub proof fn lemma_transform_idempotent(
    b: Seq<ModuleItem>,
    b2: Seq<ModuleItem>,
    b3: Seq<ModuleItem>,
    cat: Seq<(Seq<char>, Seq<char>, Option<Seq<char>>)>,
)
    requires
        transform_rel(b, b2, cat),
        transform_rel(b2, b3, cat),
        forall|t: int| 0 <= t < cat.len() ==> !plain_star_row(#[trigger] cat[t]),
    ensures
        b3 == b2,
{
    let used = body_used(b);
    let declared = body_declared(b);
    let imported = body_imported(b);
    let news = choose|news: Seq<ModuleItem>|
        {
            &&& #[trigger] news_match(news, cat, used, declared, imported)
            &&& b2 == b.take(directive_prefix_len(b)) + news + b.skip(directive_prefix_len(b))
        };
    let dpl = directive_prefix_len(b);
    lemma_directive_prefix_len_bounds(b);
    assert forall|k: int| 0 <= k < news.len() implies #[trigger] news[k] is Import by {
        assert(item_matches_group(news[k], cat, used, declared, imported));
        if !(news[k] is Import) {
            assert(false);
        }
    };
    lemma_sets_of_spliced(b, news, dpl);
    assert(body_used(b2) == used);
    assert(body_declared(b2) == declared);
    let imported2 = body_imported(b2);
    assert forall|s: Seq<char>|
        kept(
            #[trigger] triples_lookup(cat, s),
            body_used(b2),
            body_declared(b2),
            body_imported(b2),
        ).len() == 0 by {
        let ks2 = kept(triples_lookup(cat, s), used, declared, imported2);
        if ks2.len() > 0 {
            let e = ks2[0];
            assert(ks2.contains(e));
            lemma_kept_entries_eligible(triples_lookup(cat, s), used, declared, imported2);
            assert(eligible(e, used, declared, imported2));
            lemma_kept_from_offered(triples_lookup(cat, s), used, declared, imported2, e);
            assert(triples_lookup(cat, s).contains(e));
            lemma_lookup_entry_origin(cat, s, e);
            let t = choose|t: int| 0 <= t < cat.len() && #[trigger] cat[t] == (s, e.0, e.1);
            assert(!plain_star_row(cat[t]));
            assert(!(e.0 == "*"@ && e.1 is None));
            assert(!imported2.contains(required_ev_local(e)));
            assert(!imported.contains(required_ev_local(e)));
            assert(eligible(e, used, declared, imported));
            lemma_eligible_is_kept(triples_lookup(cat, s), used, declared, imported, e);
            lemma_kept_local_in_news(news, cat, used, declared, imported, s, e);
            assert(imported2.contains(required_ev_local(e)));
            assert(false);
        }
    };
    lemma_noop_unchanged(b2, b3, cat);
}

/// A leading directive stays the first statement of the transformed body.
pub proof fn lemma_directive_stays_first(
    b: Seq<ModuleItem>,
    b2: Seq<ModuleItem>,
    cat: Seq<(Seq<char>, Seq<char>, Option<Seq<char>>)>,
)
    requires
        transform_rel(b, b2, cat),
        b.len() > 0,
        is_directive(b[0]),
    ensures
        b2.len() > 0,
        b2[0] == b[0],
{
    let news = choose|news: Seq<ModuleItem>|
        {
            &&& #[trigger] news_match(news, cat, body_used(b), body_declared(b), body_imported(b))
            &&& b2 == b.take(directive_prefix_len(b)) + news + b.skip(directive_prefix_len(b))
        };
    lemma_directive_prefix_len_bounds(b.drop_first());
    assert(directive_prefix_len(b) >= 1);
    lemma_directive_prefix_len_bounds(b);
    assert(b2[0] == b.take(directive_prefix_len(b))[0]);
}

/// The synthesized output depends on the catalog only through what each
/// source offers: two catalogs with the same per-source rows, in the same
/// per-source order, accept the same output, however their rows
/// interleave across sources.
pub proof fn lemma_news_match_lookup_only(
    news: Seq<ModuleItem>,
    cat1: Seq<(Seq<char>, Seq<char>, Option<Seq<char>>)>,
    cat2: Seq<(Seq<char>, Seq<char>, Option<Seq<char>>)>,
    used: Set<Seq<char>>,
    declared: Set<Seq<char>>,
    imported: Set<Seq<char>>,
)
    requires
        news_match(news, cat1, used, declared, imported),
        forall|s: Seq<char>| #[trigger] triples_lookup(cat1, s) == triples_lookup(cat2, s),
    ensures
        news_match(news, cat2, used, declared, imported),
{
    assert forall|k: int| 0 <= k < news.len() implies item_matches_group(
        #[trigger] news[k],
        cat2,
        used,
        declared,
        imported,
    ) by {
        assert(item_matches_group(news[k], cat1, used, declared, imported));
        match news[k] {
            ModuleItem::Import { src, specifiers: _ } => {
                assert(triples_lookup(cat1, src@) == triples_lookup(cat2, src@));
            },
            _ => {
            },
        }
    };
    assert forall|s: Seq<char>|
        kept(#[trigger] triples_lookup(cat2, s), used, declared, imported).len() > 0 implies exists|
        k: int,
    | 0 <= k < news.len() && item_src(news[k]) == s by {
        assert(triples_lookup(cat1, s) == triples_lookup(cat2, s));
        assert(kept(triples_lookup(cat1, s), used, declared, imported).len() > 0);
    };
}

/// Naming the same preset twice in one configuration list accumulates its
/// rows twice over; nothing is deduplicated.
pub proof fn lemma_preset_accumulates(cfg: ImportConfig)
    requires
        cfg is PresetName,
    ensures
        configs_triples(seq![cfg, cfg]) == preset_triples(cfg->PresetName_0@) + preset_triples(
            cfg->PresetName_0@,
        ),
{
    let two = seq![cfg, cfg];
    assert(two.drop_last() =~= seq![cfg]);
    assert(seq![cfg].drop_last() =~= Seq::<ImportConfig>::empty());
    assert(configs_triples(seq![cfg]) == configs_triples(Seq::<ImportConfig>::empty())
        + import_config_triples(cfg));
    assert(Seq::<(Seq<char>, Seq<char>, Option<Seq<char>>)>::empty() + import_config_triples(cfg)
        =~= import_config_triples(cfg));
    assert(configs_triples(two) == preset_triples(cfg->PresetName_0@) + preset_triples(
        cfg->PresetName_0@,
    ));
}

} // verus!
