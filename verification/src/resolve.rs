//! The import resolver: combines the catalog with the classifier's three
//! sets and computes, deterministically, which entries must become new
//! import statements, grouped by source module and fully ordered.

use vstd::prelude::*;
use vstd::multiset::Multiset;
use vstd::seq_lib::group_to_multiset_ensures;
use vstd::seq_lib::lemma_multiset_commutative;

use crate::catalog::{clone_opt, entries_view, entry_view, triple_view, triples_lookup, Catalog};
use crate::classify::{contains_name, names, IdentifierCollector};
use crate::strutil::{
    lemma_lex_le_from_not_lt, lemma_lex_lt_irrefl, lemma_lex_lt_le_trans, lemma_lex_lt_trans,
    lex_le, lex_lt, str_eq, str_lt,
};

verus! {

/// The local name a catalog entry must bind: its alias when present, else
/// the exported name itself.
pub open spec fn required_ev_local(e: (Seq<char>, Option<Seq<char>>)) -> Seq<char> {
    match e.1 {
        Option::Some(a) => a,
        Option::None => e.0,
    }
}

/// An entry must become an import exactly when its required local name is
/// used but neither declared nor already imported.
pub open spec fn eligible(
    e: (Seq<char>, Option<Seq<char>>),
    used: Set<Seq<char>>,
    declared: Set<Seq<char>>,
    imported: Set<Seq<char>>,
) -> bool {
    &&& used.contains(required_ev_local(e))
    &&& !declared.contains(required_ev_local(e))
    &&& !imported.contains(required_ev_local(e))
}

/// The subsequence of entries that must become imports, in entry order.
pub open spec fn kept(
    evs: Seq<(Seq<char>, Option<Seq<char>>)>,
    used: Set<Seq<char>>,
    declared: Set<Seq<char>>,
    imported: Set<Seq<char>>,
) -> Seq<(Seq<char>, Option<Seq<char>>)>
    decreases evs.len(),
{
    if evs.len() == 0 {
        Seq::empty()
    } else {
        kept(evs.drop_last(), used, declared, imported) + (if eligible(
            evs.last(),
            used,
            declared,
            imported,
        ) {
            seq![evs.last()]
        } else {
            Seq::empty()
        })
    }
}

/// Entries ordered by exported name.
pub open spec fn sorted_by_name(evs: Seq<(Seq<char>, Option<Seq<char>>)>) -> bool {
    forall|a: int, b: int| 0 <= a < b < evs.len() ==> lex_le(evs[a].0, evs[b].0)
}

/// Inserts an entry into a name-ordered sequence, after every entry whose
/// name is not above it: the stable insertion position.
pub open spec fn sorted_insert(
    evs: Seq<(Seq<char>, Option<Seq<char>>)>,
    e: (Seq<char>, Option<Seq<char>>),
) -> Seq<(Seq<char>, Option<Seq<char>>)>
    decreases evs.len(),
{
    if evs.len() == 0 {
        seq![e]
    } else if lex_lt(e.0, evs.last().0) {
        sorted_insert(evs.drop_last(), e).push(evs.last())
    } else {
        evs.push(e)
    }
}

/// The stable sort of entries by exported name: entries with equal names
/// keep their given order.
pub open spec fn sort_by_name(evs: Seq<(Seq<char>, Option<Seq<char>>)>) -> Seq<
    (Seq<char>, Option<Seq<char>>),
>
    decreases evs.len(),
{
    if evs.len() == 0 {
        Seq::empty()
    } else {
        sorted_insert(sort_by_name(evs.drop_last()), evs.last())
    }
}

/// The stable insertion adds exactly the inserted entry.
pub proof fn lemma_sorted_insert_multiset(
    evs: Seq<(Seq<char>, Option<Seq<char>>)>,
    e: (Seq<char>, Option<Seq<char>>),
)
    ensures
        sorted_insert(evs, e).to_multiset() == evs.to_multiset().insert(e),
    decreases evs.len(),
{
    broadcast use group_to_multiset_ensures;

    if evs.len() == 0 {
        assert(sorted_insert(evs, e) =~= Seq::<(Seq<char>, Option<Seq<char>>)>::empty().push(e));
        assert(Seq::<(Seq<char>, Option<Seq<char>>)>::empty().to_multiset() =~= Multiset::<
            (Seq<char>, Option<Seq<char>>),
        >::empty());
        assert(sorted_insert(evs, e).to_multiset() =~= evs.to_multiset().insert(e));
    } else if lex_lt(e.0, evs.last().0) {
        lemma_sorted_insert_multiset(evs.drop_last(), e);
        assert(evs =~= evs.drop_last().push(evs.last()));
        assert(evs.to_multiset() =~= evs.drop_last().to_multiset().insert(evs.last()));
        assert(sorted_insert(evs, e).to_multiset() =~= evs.drop_last().to_multiset().insert(
            e,
        ).insert(evs.last()));
        assert(evs.drop_last().to_multiset().insert(e).insert(evs.last()) =~= evs.drop_last()
            .to_multiset().insert(evs.last()).insert(e));
    } else {
    }
}

/// The stable sort is a permutation: it neither loses nor invents entries.
pub proof fn lemma_sort_by_name_multiset(evs: Seq<(Seq<char>, Option<Seq<char>>)>)
    ensures
        sort_by_name(evs).to_multiset() == evs.to_multiset(),
    decreases evs.len(),
{
    broadcast use group_to_multiset_ensures;

    if evs.len() > 0 {
        lemma_sort_by_name_multiset(evs.drop_last());
        lemma_sorted_insert_multiset(sort_by_name(evs.drop_last()), evs.last());
        assert(evs =~= evs.drop_last().push(evs.last()));
        assert(evs.to_multiset() =~= evs.drop_last().to_multiset().insert(evs.last()));
    }
}

/// On a name-ordered sequence, the stable insertion position is the first
/// index whose entry's name is above the inserted one.
proof fn lemma_sorted_insert_position(
    evs: Seq<(Seq<char>, Option<Seq<char>>)>,
    e: (Seq<char>, Option<Seq<char>>),
    p: int,
)
    requires
        0 <= p <= evs.len(),
        forall|q: int| 0 <= q < p ==> !lex_lt(e.0, #[trigger] evs[q].0),
        forall|q: int| p <= q < evs.len() ==> lex_lt(e.0, #[trigger] evs[q].0),
    ensures
        sorted_insert(evs, e) == evs.insert(p, e),
    decreases evs.len(),
{
    if evs.len() == 0 {
        assert(sorted_insert(evs, e) =~= evs.insert(0, e));
    } else if p == evs.len() {
        assert(!lex_lt(e.0, evs.last().0));
        assert(evs.push(e) =~= evs.insert(p, e));
    } else {
        assert(lex_lt(e.0, evs.last().0));
        let front = evs.drop_last();
        assert(forall|q: int| 0 <= q < p ==> !lex_lt(e.0, #[trigger] front[q].0));
        assert(forall|q: int| p <= q < front.len() ==> lex_lt(e.0, #[trigger] front[q].0));
        lemma_sorted_insert_position(front, e, p);
        assert(front.insert(p, e).push(evs.last()) =~= evs.insert(p, e));
    }
}

/// One pending group: the source module that needs new bindings, and the
/// entries to bind from it.
pub struct PendingImport {
    pub source: String,
    pub entries: Vec<(String, Option<String>)>,
}

/// Appending an entry extends the kept subsequence exactly when the entry
/// is eligible.
pub proof fn lemma_kept_push(
    evs: Seq<(Seq<char>, Option<Seq<char>>)>,
    e: (Seq<char>, Option<Seq<char>>),
    used: Set<Seq<char>>,
    declared: Set<Seq<char>>,
    imported: Set<Seq<char>>,
)
    ensures
        kept(evs.push(e), used, declared, imported) == if eligible(e, used, declared, imported) {
            kept(evs, used, declared, imported).push(e)
        } else {
            kept(evs, used, declared, imported)
        },
{
    assert(evs.push(e).drop_last() =~= evs);
    if eligible(e, used, declared, imported) {
        assert(kept(evs, used, declared, imported) + seq![e] =~= kept(
            evs,
            used,
            declared,
            imported,
        ).push(e));
    } else {
        assert(kept(evs, used, declared, imported) + Seq::<
            (Seq<char>, Option<Seq<char>>),
        >::empty() =~= kept(evs, used, declared, imported));
    }
}

/// Inserting into a sequence inserts into its multiset.
proof fn lemma_insert_to_multiset<A>(s: Seq<A>, i: int, x: A)
    requires
        0 <= i <= s.len(),
    ensures
        s.insert(i, x).to_multiset() == s.to_multiset().insert(x),
{
    broadcast use group_to_multiset_ensures;

    assert(s.insert(i, x) =~= (s.take(i) + seq![x]) + s.skip(i));
    assert(s =~= s.take(i) + s.skip(i));
    lemma_multiset_commutative(s.take(i) + seq![x], s.skip(i));
    lemma_multiset_commutative(s.take(i), seq![x]);
    lemma_multiset_commutative(s.take(i), s.skip(i));
    assert(seq![x].to_multiset() =~= Multiset::<A>::empty().insert(x)) by {
        assert(seq![x] =~= Seq::<A>::empty().push(x));
        assert(Seq::<A>::empty().to_multiset() =~= Multiset::<A>::empty());
    }
    assert(s.insert(i, x).to_multiset() =~= s.to_multiset().insert(x));
}

/// Reading one more catalog row extends the lookup of its source by that
/// row's entry and leaves every other source's lookup unchanged.
pub proof fn lemma_lookup_take_step(
    ts: Seq<(Seq<char>, Seq<char>, Option<Seq<char>>)>,
    t: int,
    s: Seq<char>,
)
    requires
        0 <= t < ts.len(),
    ensures
        triples_lookup(ts.take(t + 1), s) == if ts[t].0 == s {
            triples_lookup(ts.take(t), s).push((ts[t].1, ts[t].2))
        } else {
            triples_lookup(ts.take(t), s)
        },
{
    assert(ts.take(t + 1).drop_last() =~= ts.take(t));
    assert(ts.take(t + 1).last() == ts[t]);
    if ts[t].0 == s {
        assert(triples_lookup(ts.take(t), s) + seq![(ts[t].1, ts[t].2)] =~= triples_lookup(
            ts.take(t),
            s,
        ).push((ts[t].1, ts[t].2)));
    } else {
        assert(triples_lookup(ts.take(t), s) + Seq::<(Seq<char>, Option<Seq<char>>)>::empty()
            =~= triples_lookup(ts.take(t), s));
    }
}

/// Sorts a group's entries by exported name, keeping the collection of
/// entries itself unchanged.
fn sort_entries(v: &mut Vec<(String, Option<String>)>)
    ensures
        sorted_by_name(entries_view(final(v)@)),
        entries_view(final(v)@).to_multiset() == entries_view(old(v)@).to_multiset(),
        final(v)@.len() == old(v)@.len(),
        entries_view(final(v)@) == sort_by_name(entries_view(old(v)@)),
{
    let ghost orig = v@;
    if v.len() <= 1 {
        proof {
            let evs = entries_view(orig);
            if v@.len() == 0 {
                assert(evs.len() == 0);
                assert(entries_view(v@) =~= sort_by_name(evs));
            } else {
                assert(evs.drop_last() =~= Seq::<(Seq<char>, Option<Seq<char>>)>::empty());
                assert(sort_by_name(evs.drop_last()) == Seq::<
                    (Seq<char>, Option<Seq<char>>),
                >::empty());
                assert(sort_by_name(evs) == sorted_insert(sort_by_name(evs.drop_last()), evs.last()));
                assert(sort_by_name(evs) =~= seq![evs.last()]);
                assert(entries_view(v@) =~= sort_by_name(evs));
            }
        }
        return ;
    }
    proof {
        let one = entries_view(orig).take(1);
        assert(one.drop_last() =~= Seq::<(Seq<char>, Option<Seq<char>>)>::empty());
        assert(sort_by_name(one.drop_last()) == Seq::<(Seq<char>, Option<Seq<char>>)>::empty());
        assert(sort_by_name(one) == sorted_insert(sort_by_name(one.drop_last()), one.last()));
        assert(sort_by_name(one) =~= seq![one.last()]);
        assert(entries_view(v@).take(1) =~= sort_by_name(one));
        assert(v@.skip(1) =~= orig.skip(1));
    }
    let mut i: usize = 1;
    while i < v.len()
        invariant
            1 <= i <= v@.len(),
            v@.len() == orig.len(),
            forall|a: int, b: int|
                0 <= a < b < i ==> lex_le(entries_view(v@)[a].0, entries_view(v@)[b].0),
            entries_view(v@).to_multiset() == entries_view(orig).to_multiset(),
            entries_view(v@).take(i as int) == sort_by_name(entries_view(orig).take(i as int)),
            v@.skip(i as int) == orig.skip(i as int),
        decreases v@.len() - i,
    {
        let ghost before = v@;
        let x = v.remove(i);
        let ghost ev_x = entry_view(x);
        let ghost removed = v@;
        proof {
            assert(entries_view(removed) =~= entries_view(before).remove(i as int));
        }
        let mut p: usize = 0;
        loop
            invariant
                p <= i,
                i <= v@.len(),
                v@ == removed,
                ev_x == entry_view(x),
                forall|q: int| 0 <= q < p ==> !lex_lt(ev_x.0, entries_view(v@)[q].0),
            ensures
                p <= i,
                v@ == removed,
                forall|q: int| 0 <= q < p ==> !lex_lt(ev_x.0, entries_view(v@)[q].0),
                p < i ==> lex_lt(ev_x.0, entries_view(v@)[p as int].0),
            decreases i - p,
        {
            if p >= i {
                break ;
            }
            if str_lt(x.0.as_str(), v[p].0.as_str()) {
                proof {
                    assert(entries_view(v@)[p as int] == entry_view(v@[p as int]));
                    assert(ev_x.0 == x.0@);
                    assert(entries_view(v@)[p as int].0 == v@[p as int].0@);
                    assert(lex_lt(ev_x.0, entries_view(v@)[p as int].0));
                }
                break ;
            }
            proof {
                assert(entries_view(v@)[p as int] == entry_view(v@[p as int]));
                assert(ev_x.0 == x.0@);
                assert(!lex_lt(ev_x.0, entries_view(v@)[p as int].0));
                assert forall|q: int| 0 <= q < p + 1 implies !lex_lt(
                    ev_x.0,
                    entries_view(v@)[q].0,
                ) by {
                    if q < p {
                        assert(!lex_lt(ev_x.0, entries_view(v@)[q].0));
                    }
                };
            }
            p += 1;
        }
        v.insert(p, x);
        proof {
            broadcast use group_to_multiset_ensures;

            let evs_before = entries_view(before);
            let evs_removed = entries_view(removed);
            let evs_now = entries_view(v@);
            assert(evs_now =~= evs_removed.insert(p as int, ev_x));
            lemma_insert_to_multiset(evs_removed, p as int, ev_x);
            assert(evs_before[i as int] == ev_x);
            assert(evs_before.to_multiset().count(ev_x) > 0) by {
                assert(evs_before.contains(ev_x));
            }
            assert(evs_removed.to_multiset() =~= evs_before.to_multiset().remove(ev_x));
            assert(evs_now.to_multiset() =~= evs_before.to_multiset()) by {
                assert(evs_now.to_multiset() =~= evs_before.to_multiset().remove(ev_x).insert(
                    ev_x,
                ));
            }
            // the sorted prefix grew by one
            assert forall|a: int, b: int| 0 <= a < b < i + 1 implies lex_le(
                evs_now[a].0,
                evs_now[b].0,
            ) by {
                if b < p {
                    assert(evs_now[a] == evs_before[a] && evs_now[b] == evs_before[b]);
                } else if b == p {
                    assert(evs_now[a] == evs_before[a]);
                    assert(evs_now[b] == ev_x);
                    assert(!lex_lt(ev_x.0, evs_removed[a].0));
                    assert(evs_removed[a] == evs_before[a]);
                    lemma_lex_le_from_not_lt(ev_x.0, evs_before[a].0);
                } else if a < p {
                    assert(evs_now[a] == evs_before[a]);
                    assert(evs_now[b] == evs_removed[b - 1]);
                    assert(evs_removed[b - 1] == evs_before[b - 1]);
                    if b - 1 == a {
                        assert(!lex_lt(ev_x.0, evs_removed[a].0));
                        lemma_lex_le_from_not_lt(ev_x.0, evs_before[a].0);
                        assert(lex_le(evs_now[a].0, evs_now[b].0)) by {
                            assert(evs_now[b] == ev_x);
                        }
                    } else {
                        assert(lex_le(evs_before[a].0, evs_before[b - 1].0));
                    }
                } else if a == p {
                    assert(evs_now[a] == ev_x);
                    assert(evs_now[b] == evs_removed[b - 1]);
                    assert(evs_removed[b - 1] == evs_before[b - 1]);
                    if p < i {
                        assert(lex_lt(ev_x.0, evs_removed[p as int].0));
                        assert(evs_removed[p as int] == evs_before[p as int]);
                        if b - 1 == p {
                            assert(lex_le(evs_now[a].0, evs_now[b].0));
                        } else {
                            assert(lex_le(evs_before[p as int].0, evs_before[b - 1].0));
                            lemma_lex_lt_le_trans(
                                ev_x.0,
                                evs_before[p as int].0,
                                evs_before[b - 1].0,
                            );
                        }
                    }
                } else {
                    assert(evs_now[a] == evs_removed[a - 1] && evs_now[b] == evs_removed[b - 1]);
                    assert(evs_removed[a - 1] == evs_before[a - 1]);
                    assert(evs_removed[b - 1] == evs_before[b - 1]);
                    assert(lex_le(evs_before[a - 1].0, evs_before[b - 1].0));
                }
            };
            // the new prefix is exactly the stable insertion into the old one
            let prefix = evs_before.take(i as int);
            assert(prefix == sort_by_name(entries_view(orig).take(i as int)));
            assert(before.skip(i as int)[0] == before[i as int]);
            assert(orig.skip(i as int)[0] == orig[i as int]);
            assert(before[i as int] == orig[i as int]);
            assert(ev_x == entries_view(orig)[i as int]);
            assert forall|q: int| 0 <= q < p implies !lex_lt(ev_x.0, #[trigger] prefix[q].0) by {
                assert(prefix[q] == evs_removed[q]);
            };
            assert forall|q: int| p <= q < prefix.len() implies lex_lt(
                ev_x.0,
                #[trigger] prefix[q].0,
            ) by {
                assert(prefix[q] == evs_before[q]);
                assert(evs_removed[p as int] == evs_before[p as int]);
                assert(lex_lt(ev_x.0, evs_before[p as int].0));
                if q > p {
                    assert(lex_le(evs_before[p as int].0, evs_before[q].0));
                    lemma_lex_lt_le_trans(ev_x.0, evs_before[p as int].0, evs_before[q].0);
                }
            };
            lemma_sorted_insert_position(prefix, ev_x, p as int);
            assert(evs_now.take(i as int + 1) =~= prefix.insert(p as int, ev_x));
            assert(entries_view(orig).take(i as int + 1).drop_last() =~= entries_view(orig).take(
                i as int,
            ));
            assert(entries_view(orig).take(i as int + 1).last() == entries_view(orig)[i as int]);
            assert(sort_by_name(entries_view(orig).take(i as int + 1)) == sorted_insert(
                prefix,
                ev_x,
            ));
            assert(evs_now.take(i as int + 1) == sort_by_name(
                entries_view(orig).take(i as int + 1),
            ));
            // the untouched tail shifts back into place
            assert forall|q: int| 0 <= q < v@.len() - (i + 1) implies #[trigger] v@.skip(
                i as int + 1,
            )[q] == orig.skip(i as int + 1)[q] by {
                assert(v@[i as int + 1 + q] == removed[i as int + q]);
                assert(removed[i as int + q] == before[i as int + 1 + q]);
                assert(before.skip(i as int)[1 + q] == before[i as int + 1 + q]);
                assert(orig.skip(i as int)[1 + q] == orig[i as int + 1 + q]);
            };
            assert(v@.skip(i as int + 1) =~= orig.skip(i as int + 1));
        }
        i += 1;
    }
    proof {
        assert(entries_view(v@).take(v@.len() as int) =~= entries_view(v@));
        assert(entries_view(orig).take(orig.len() as int) =~= entries_view(orig));
    }
}

/// Computes the pending imports: for every catalog entry whose required
/// local name is used but unbound, one entry under its source's group.
/// Groups come out in strictly ascending source order; a group's entries
/// are exactly the eligible entries of its source, ordered by exported
/// name.
pub fn resolve_imports(catalog: &Catalog, collector: &IdentifierCollector) -> (r: Vec<
    PendingImport,
>)
    ensures
        forall|k1: int, k2: int|
            0 <= k1 < k2 < r@.len() ==> lex_lt(r@[k1].source@, r@[k2].source@),
        forall|k: int|
            0 <= k < r@.len() ==> sorted_by_name(#[trigger] entries_view(r@[k].entries@)),
        forall|k: int|
            0 <= k < r@.len() ==> #[trigger] entries_view(r@[k].entries@).to_multiset() == kept(
                catalog.lookup(r@[k].source@),
                collector.used_set(),
                collector.declared_set(),
                collector.imported_set(),
            ).to_multiset(),
        forall|k: int| 0 <= k < r@.len() ==> #[trigger] r@[k].entries@.len() > 0,
        forall|k: int|
            0 <= k < r@.len() ==> #[trigger] entries_view(r@[k].entries@) == sort_by_name(
                kept(
                    catalog.lookup(r@[k].source@),
                    collector.used_set(),
                    collector.declared_set(),
                    collector.imported_set(),
                ),
            ),
        forall|s: Seq<char>|
            kept(
                #[trigger] catalog.lookup(s),
                collector.used_set(),
                collector.declared_set(),
                collector.imported_set(),
            ).len() > 0 ==> exists|k: int| 0 <= k < r@.len() && r@[k].source@ == s,
{
    let ghost uset = collector.used_set();
    let ghost dset = collector.declared_set();
    let ghost iset = collector.imported_set();
    let ghost model = catalog.model();
    let mut w: Vec<PendingImport> = Vec::new();
    let n = catalog.triple_count();
    let mut t: usize = 0;
    while t < n
        invariant
            t <= model.len(),
            n == model.len(),
            model == catalog.model(),
            uset == collector.used_set(),
            dset == collector.declared_set(),
            iset == collector.imported_set(),
            forall|k1: int, k2: int|
                0 <= k1 < k2 < w@.len() ==> lex_lt(w@[k1].source@, w@[k2].source@),
            forall|k: int|
                0 <= k < w@.len() ==> #[trigger] entries_view(w@[k].entries@) == kept(
                    triples_lookup(model.take(t as int), w@[k].source@),
                    uset,
                    dset,
                    iset,
                ),
            forall|k: int| 0 <= k < w@.len() ==> #[trigger] w@[k].entries@.len() > 0,
            forall|s: Seq<char>|
                kept(#[trigger] triples_lookup(model.take(t as int), s), uset, dset, iset).len()
                    > 0 ==> exists|k: int| 0 <= k < w@.len() && w@[k].source@ == s,
        decreases n - t,
    {
        let trip = catalog.triple_at(t);
        let ghost tv = model[t as int];
        let ghost ev = (tv.1, tv.2);
        let local: &String = match &trip.2 {
            Option::Some(a) => a,
            Option::None => &trip.1,
        };
        proof {
            assert(tv == triple_view(*trip));
            assert(local@ == required_ev_local(ev));
        }
        let elig = if !contains_name(&collector.used_identifiers, local.as_str()) {
            false
        } else if contains_name(&collector.declared_identifiers, local.as_str()) {
            false
        } else if contains_name(&collector.imported_identifiers, local.as_str()) {
            false
        } else {
            true
        };
        proof {
            assert(elig == eligible(ev, uset, dset, iset));
        }
        if elig {
            let ghost srcv = tv.0;
            let ghost w_before = w@;
            let mut p: usize = 0;
            loop
                invariant
                    p <= w@.len(),
                    w@ == w_before,
                    srcv == trip.0@,
                    forall|q: int| 0 <= q < p ==> lex_lt(#[trigger] w@[q].source@, srcv),
                ensures
                    p <= w@.len(),
                    w@ == w_before,
                    forall|q: int| 0 <= q < p ==> lex_lt(#[trigger] w@[q].source@, srcv),
                    p < w@.len() ==> !lex_lt(w@[p as int].source@, srcv),
                decreases w@.len() - p,
            {
                if p >= w.len() {
                    break ;
                }
                if !str_lt(w[p].source.as_str(), trip.0.as_str()) {
                    break ;
                }
                p += 1;
            }
            let found = p < w.len() && str_eq(w[p].source.as_str(), trip.0.as_str());
            proof {
                lemma_lookup_take_step(model, t as int, srcv);
                lemma_kept_push(triples_lookup(model.take(t as int), srcv), ev, uset, dset, iset);
            }
            if found {
                let mut g = w.remove(p);
                let alias_c = clone_opt(&trip.2);
                let ghost g_before = g;
                g.entries.push((trip.1.clone(), alias_c));
                proof {
                    assert(entries_view(g.entries@) =~= entries_view(g_before.entries@).push(ev));
                }
                w.insert(p, g);
                proof {
                    assert(w@ =~= w_before.update(p as int, g));
                    assert(w@[p as int].source@ == srcv);
                    assert forall|k: int| 0 <= k < w@.len() && k != p implies w@[k].source@
                        != srcv by {
                        if k < p {
                            lemma_lex_lt_irrefl(srcv);
                            if w@[k].source@ == srcv {
                                assert(lex_lt(w@[k].source@, w@[p as int].source@));
                            }
                        } else {
                            lemma_lex_lt_irrefl(srcv);
                            if w@[k].source@ == srcv {
                                assert(lex_lt(w@[p as int].source@, w@[k].source@));
                            }
                        }
                    };
                    assert forall|k: int| 0 <= k < w@.len() implies #[trigger] entries_view(
                        w@[k].entries@,
                    ) == kept(
                        triples_lookup(model.take(t as int + 1), w@[k].source@),
                        uset,
                        dset,
                        iset,
                    ) by {
                        if k == p {
                            assert(triples_lookup(model.take(t as int + 1), srcv)
                                == triples_lookup(model.take(t as int), srcv).push(ev));
                        } else {
                            lemma_lookup_take_step(model, t as int, w@[k].source@);
                        }
                    };
                    assert forall|s: Seq<char>|
                        kept(
                            #[trigger] triples_lookup(model.take(t as int + 1), s),
                            uset,
                            dset,
                            iset,
                        ).len() > 0 implies exists|k: int|
                        0 <= k < w@.len() && w@[k].source@ == s by {
                        if s == srcv {
                            assert(w@[p as int].source@ == s);
                        } else {
                            lemma_lookup_take_step(model, t as int, s);
                            assert(kept(
                                triples_lookup(model.take(t as int), s),
                                uset,
                                dset,
                                iset,
                            ).len() > 0);
                            let k0 = choose|k0: int|
                                0 <= k0 < w_before.len() && w_before[k0].source@ == s;
                            assert(w@[k0].source@ == s);
                        }
                    };
                }
            } else {
                proof {
                    lemma_lex_lt_irrefl(srcv);
                    if p < w@.len() {
                        lemma_lex_le_from_not_lt(w@[p as int].source@, srcv);
                        assert(w@[p as int].source@ != srcv);
                        assert(lex_lt(srcv, w@[p as int].source@));
                    }
                    assert forall|k: int| 0 <= k < w@.len() implies w@[k].source@ != srcv by {
                        if k < p {
                            if w@[k].source@ == srcv {
                                assert(lex_lt(srcv, srcv));
                            }
                        } else {
                            assert(!lex_lt(w@[p as int].source@, srcv));
                            if k > p {
                                assert(lex_lt(w@[p as int].source@, w@[k].source@));
                                lemma_lex_lt_trans(srcv, w@[p as int].source@, w@[k].source@);
                            }
                            if w@[k].source@ == srcv {
                                assert(lex_lt(srcv, srcv));
                            }
                        }
                    };
                    // no group, so nothing was kept for this source yet
                    assert(kept(triples_lookup(model.take(t as int), srcv), uset, dset, iset).len()
                        == 0);
                }
                let alias_c = clone_opt(&trip.2);
                let mut es: Vec<(String, Option<String>)> = Vec::new();
                es.push((trip.1.clone(), alias_c));
                let g = PendingImport { source: trip.0.clone(), entries: es };
                let ghost gv = g;
                w.insert(p, g);
                proof {
                    assert(w@ =~= w_before.insert(p as int, gv));
                    assert(entries_view(gv.entries@) =~= Seq::<
                        (Seq<char>, Option<Seq<char>>),
                    >::empty().push(ev));
                    assert(kept(triples_lookup(model.take(t as int), srcv), uset, dset, iset)
                        =~= Seq::<(Seq<char>, Option<Seq<char>>)>::empty());
                    assert forall|k1: int, k2: int| 0 <= k1 < k2 < w@.len() implies lex_lt(
                        w@[k1].source@,
                        w@[k2].source@,
                    ) by {
                        if k2 < p {
                        } else if k2 == p {
                            assert(w@[k1].source@ == w_before[k1].source@);
                            assert(lex_lt(w_before[k1].source@, srcv));
                        } else if k1 == p {
                            assert(w@[k2].source@ == w_before[k2 - 1].source@);
                            assert(k2 - 1 >= p);
                            if k2 - 1 == p {
                                assert(lex_lt(srcv, w_before[p as int].source@));
                            } else {
                                assert(lex_lt(srcv, w_before[p as int].source@));
                                assert(lex_lt(
                                    w_before[p as int].source@,
                                    w_before[k2 - 1].source@,
                                ));
                                lemma_lex_lt_trans(
                                    srcv,
                                    w_before[p as int].source@,
                                    w_before[k2 - 1].source@,
                                );
                            }
                        } else if k1 < p {
                            assert(w@[k1].source@ == w_before[k1].source@);
                            assert(w@[k2].source@ == w_before[k2 - 1].source@);
                            if k2 - 1 == k1 {
                                assert(lex_lt(w_before[k1].source@, srcv));
                                assert(lex_lt(srcv, w_before[k2 - 1].source@));
                                lemma_lex_lt_trans(
                                    w_before[k1].source@,
                                    srcv,
                                    w_before[k2 - 1].source@,
                                );
                            } else {
                                assert(lex_lt(w_before[k1].source@, w_before[k2 - 1].source@));
                            }
                        } else {
                            assert(w@[k1].source@ == w_before[k1 - 1].source@);
                            assert(w@[k2].source@ == w_before[k2 - 1].source@);
                            assert(lex_lt(w_before[k1 - 1].source@, w_before[k2 - 1].source@));
                        }
                    };
                    assert forall|k: int| 0 <= k < w@.len() implies #[trigger] entries_view(
                        w@[k].entries@,
                    ) == kept(
                        triples_lookup(model.take(t as int + 1), w@[k].source@),
                        uset,
                        dset,
                        iset,
                    ) by {
                        if k == p {
                            assert(triples_lookup(model.take(t as int + 1), srcv)
                                == triples_lookup(model.take(t as int), srcv).push(ev));
                            assert(kept(
                                triples_lookup(model.take(t as int + 1), srcv),
                                uset,
                                dset,
                                iset,
                            ) =~= entries_view(gv.entries@));
                        } else {
                            let kb: int = if k < p {
                                k
                            } else {
                                k - 1
                            };
                            assert(w@[k] == w_before[kb]);
                            lemma_lookup_take_step(model, t as int, w@[k].source@);
                        }
                    };
                    assert forall|s: Seq<char>|
                        kept(
                            #[trigger] triples_lookup(model.take(t as int + 1), s),
                            uset,
                            dset,
                            iset,
                        ).len() > 0 implies exists|k: int|
                        0 <= k < w@.len() && w@[k].source@ == s by {
                        if s == srcv {
                            assert(w@[p as int].source@ == s);
                        } else {
                            lemma_lookup_take_step(model, t as int, s);
                            let k0 = choose|k0: int|
                                0 <= k0 < w_before.len() && w_before[k0].source@ == s;
                            if k0 < p {
                                assert(w@[k0].source@ == s);
                            } else {
                                assert(w@[k0 + 1].source@ == s);
                            }
                        }
                    };
                }
            }
        } else {
            proof {
                assert forall|s: Seq<char>|
                    kept(
                        #[trigger] triples_lookup(model.take(t as int + 1), s),
                        uset,
                        dset,
                        iset,
                    ) == kept(triples_lookup(model.take(t as int), s), uset, dset, iset) by {
                    lemma_lookup_take_step(model, t as int, s);
                    if tv.0 == s {
                        lemma_kept_push(
                            triples_lookup(model.take(t as int), s),
                            ev,
                            uset,
                            dset,
                            iset,
                        );
                    }
                };
            }
        }
        t += 1;
    }
    proof {
        assert(model.take(n as int) =~= model);
    }
    let ghost grouped = w@;
    let mut k: usize = 0;
    while k < w.len()
        invariant
            k <= w@.len(),
            w@.len() == grouped.len(),
            forall|i: int| 0 <= i < w@.len() ==> #[trigger] w@[i].source@ == grouped[i].source@,
            forall|i: int|
                0 <= i < k ==> sorted_by_name(#[trigger] entries_view(w@[i].entries@)),
            forall|i: int|
                0 <= i < k ==> #[trigger] entries_view(w@[i].entries@).to_multiset()
                    == entries_view(grouped[i].entries@).to_multiset(),
            forall|i: int|
                0 <= i < k ==> #[trigger] entries_view(w@[i].entries@) == sort_by_name(
                    entries_view(grouped[i].entries@),
                ),
            forall|i: int|
                0 <= i < k ==> #[trigger] w@[i].entries@.len() == grouped[i].entries@.len(),
            forall|i: int| k <= i < w@.len() ==> #[trigger] w@[i] == grouped[i],
        decreases w@.len() - k,
    {
        let mut g = w.remove(k);
        let ghost g_before = g;
        sort_entries(&mut g.entries);
        w.insert(k, g);
        proof {
            assert(w@ =~= w@.subrange(0, w@.len() as int));
            assert forall|i: int| 0 <= i < w@.len() implies #[trigger] w@[i].source@
                == grouped[i].source@ by {
                if i == k {
                    assert(g.source == g_before.source);
                }
            };
        }
        k += 1;
    }
    proof {
        assert forall|k2: int| 0 <= k2 < w@.len() implies #[trigger] entries_view(
            w@[k2].entries@,
        ).to_multiset() == kept(
            catalog.lookup(w@[k2].source@),
            uset,
            dset,
            iset,
        ).to_multiset() by {
            assert(entries_view(grouped[k2].entries@) == kept(
                triples_lookup(model, grouped[k2].source@),
                uset,
                dset,
                iset,
            ));
        };
        assert forall|k2: int| 0 <= k2 < w@.len() implies #[trigger] w@[k2].entries@.len()
            > 0 by {
            assert(grouped[k2].entries@.len() > 0);
        };
        assert forall|k2: int| 0 <= k2 < w@.len() implies #[trigger] entries_view(
            w@[k2].entries@,
        ) == sort_by_name(kept(catalog.lookup(w@[k2].source@), uset, dset, iset)) by {
            assert(entries_view(grouped[k2].entries@) == kept(
                triples_lookup(model, grouped[k2].source@),
                uset,
                dset,
                iset,
            ));
        };
        assert forall|s: Seq<char>|
            kept(#[trigger] catalog.lookup(s), uset, dset, iset).len() > 0 implies exists|k: int|
            0 <= k < w@.len() && w@[k].source@ == s by {
            assert(triples_lookup(model.take(n as int), s) == catalog.lookup(s));
            assert(kept(triples_lookup(model.take(n as int), s), uset, dset, iset).len() > 0);
            let k0 = choose|k0: int| 0 <= k0 < grouped.len() && grouped[k0].source@ == s;
            assert(w@[k0].source@ == s);
        };
    }
    w
}

} // verus!
