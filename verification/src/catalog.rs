//! The canonical import catalog: an ordered table of (source module,
//! exported name, optional local alias) rows. Rows accumulate in the order
//! the configuration supplies them; rows of one source are never
//! deduplicated, and the per-source view preserves their order.

use vstd::prelude::*;

use crate::strutil::str_eq;

verus! {

/// Spec view of an optional string.
pub open spec fn opt_view(o: Option<String>) -> Option<Seq<char>> {
    match o {
        Option::Some(a) => Option::Some(a@),
        Option::None => Option::None,
    }
}

/// Spec view of one catalog row.
pub open spec fn triple_view(t: (String, String, Option<String>)) -> (
    Seq<char>,
    Seq<char>,
    Option<Seq<char>>,
) {
    (t.0@, t.1@, opt_view(t.2))
}

/// Spec view of one (exported name, optional alias) entry.
pub open spec fn entry_view(e: (String, Option<String>)) -> (Seq<char>, Option<Seq<char>>) {
    (e.0@, opt_view(e.1))
}

/// Spec view of a list of entries.
pub open spec fn entries_view(es: Seq<(String, Option<String>)>) -> Seq<
    (Seq<char>, Option<Seq<char>>),
> {
    es.map_values(|e: (String, Option<String>)| entry_view(e))
}

/// The entries a row sequence holds for one source, in row order.
pub open spec fn triples_lookup(
    ts: Seq<(Seq<char>, Seq<char>, Option<Seq<char>>)>,
    s: Seq<char>,
) -> Seq<(Seq<char>, Option<Seq<char>>)>
    decreases ts.len(),
{
    if ts.len() == 0 {
        Seq::empty()
    } else {
        triples_lookup(ts.drop_last(), s) + (if ts.last().0 == s {
            seq![(ts.last().1, ts.last().2)]
        } else {
            Seq::empty()
        })
    }
}

/// A row that mentions source `s` makes the lookup for `s` non-empty.
pub proof fn lemma_triples_lookup_nonempty(
    ts: Seq<(Seq<char>, Seq<char>, Option<Seq<char>>)>,
    s: Seq<char>,
    j: int,
)
    requires
        0 <= j < ts.len(),
        ts[j].0 == s,
    ensures
        triples_lookup(ts, s).len() > 0,
    decreases ts.len(),
{
    if j < ts.len() - 1 {
        lemma_triples_lookup_nonempty(ts.drop_last(), s, j);
    }
}

/// Clones an optional name.
pub(crate) fn clone_opt(o: &Option<String>) -> (r: Option<String>)
    ensures
        r == *o,
{
    match o {
        Option::Some(a) => Option::Some(a.clone()),
        Option::None => Option::None,
    }
}

/// The normalized catalog: ordered rows of (source, name, alias).
pub struct Catalog {
    pub(crate) triples: Vec<(String, String, Option<String>)>,
}

impl Catalog {
    /// The catalog's model: its rows, as views, in order.
    pub closed spec fn model(&self) -> Seq<(Seq<char>, Seq<char>, Option<Seq<char>>)> {
        self.triples@.map_values(|t: (String, String, Option<String>)| triple_view(t))
    }

    /// The ordered entries this catalog offers from one source module.
    pub open spec fn lookup(&self, s: Seq<char>) -> Seq<(Seq<char>, Option<Seq<char>>)> {
        triples_lookup(self.model(), s)
    }

    /// An empty catalog.
    pub fn new() -> (r: Self)
        ensures
            r.model() == Seq::<(Seq<char>, Seq<char>, Option<Seq<char>>)>::empty(),
    {
        let r = Catalog { triples: Vec::new() };
        proof {
            assert(r.model() =~= Seq::<(Seq<char>, Seq<char>, Option<Seq<char>>)>::empty());
        }
        r
    }

    /// Appends one row.
    pub fn push_triple(&mut self, source: String, name: String, alias: Option<String>)
        ensures
            final(self).model() == old(self).model().push((source@, name@, opt_view(alias))),
    {
        let ghost tv = (source@, name@, opt_view(alias));
        self.triples.push((source, name, alias));
        proof {
            assert(final(self).model() =~= old(self).model().push(tv));
        }
    }

    /// Appends every row of another catalog, in order.
    pub fn append_from(&mut self, other: &Catalog)
        ensures
            final(self).model() == old(self).model() + other.model(),
    {
        let mut j: usize = 0;
        while j < other.triples.len()
            invariant
                j <= other.triples@.len(),
                self.model() == old(self).model() + other.model().take(j as int),
            decreases other.triples@.len() - j,
        {
            let t = &other.triples[j];
            let copied_alias = match &t.2 {
                Option::Some(a) => Option::Some(a.clone()),
                Option::None => Option::None,
            };
            self.push_triple(t.0.clone(), t.1.clone(), copied_alias);
            proof {
                assert(other.model()[j as int] == triple_view(other.triples@[j as int]));
                assert(self.model() =~= old(self).model() + other.model().take(j as int + 1));
            }
            j += 1;
        }
        proof {
            assert(other.model().take(other.model().len() as int) =~= other.model());
        }
    }

    /// How many rows the catalog holds.
    pub(crate) fn triple_count(&self) -> (n: usize)
        ensures
            n == self.model().len(),
    {
        self.triples.len()
    }

    /// One row, by position.
    pub(crate) fn triple_at(&self, i: usize) -> (t: &(String, String, Option<String>))
        requires
            i < self.model().len(),
        ensures
            triple_view(*t) == self.model()[i as int],
    {
        &self.triples[i]
    }

    /// Whether the catalog offers anything from one source module.
    pub fn contains_key(&self, source: &str) -> (r: bool)
        ensures
            r == (self.lookup(source@).len() > 0),
    {
        let mut j: usize = 0;
        while j < self.triples.len()
            invariant
                j <= self.triples@.len(),
                triples_lookup(self.model().take(j as int), source@).len() == 0,
            decreases self.triples@.len() - j,
        {
            if str_eq(self.triples[j].0.as_str(), source) {
                proof {
                    lemma_triples_lookup_nonempty(self.model(), source@, j as int);
                }
                return true;
            }
            proof {
                assert(self.model().take(j as int + 1).drop_last() =~= self.model().take(j as int));
            }
            j += 1;
        }
        proof {
            assert(self.model().take(self.model().len() as int) =~= self.model());
        }
        false
    }

    /// The entries offered from one source module, in row order, or `None`
    /// when the catalog has no row for it.
    pub fn get(&self, source: &str) -> (r: Option<Vec<(String, Option<String>)>>)
        ensures
            match r {
                Option::Some(es) => entries_view(es@) == self.lookup(source@) && es@.len() > 0,
                Option::None => self.lookup(source@).len() == 0,
            },
    {
        let mut out: Vec<(String, Option<String>)> = Vec::new();
        let mut j: usize = 0;
        while j < self.triples.len()
            invariant
                j <= self.triples@.len(),
                entries_view(out@) == triples_lookup(self.model().take(j as int), source@),
            decreases self.triples@.len() - j,
        {
            let t = &self.triples[j];
            if str_eq(t.0.as_str(), source) {
                let copied_alias = match &t.2 {
                    Option::Some(a) => Option::Some(a.clone()),
                    Option::None => Option::None,
                };
                out.push((t.1.clone(), copied_alias));
            }
            proof {
                assert(self.model().take(j as int + 1).drop_last() =~= self.model().take(j as int));
                assert(self.model()[j as int] == triple_view(self.triples@[j as int]));
                assert(entries_view(out@) =~= triples_lookup(
                    self.model().take(j as int + 1),
                    source@,
                ));
            }
            j += 1;
        }
        proof {
            assert(self.model().take(self.model().len() as int) =~= self.model());
        }
        if out.len() == 0 {
            Option::None
        } else {
            Option::Some(out)
        }
    }
}

} // verus!
