//! The identifier classifier: one total walk over a module that collects
//! which names are used, which are declared, and which are already bound by
//! an import declaration.

use vstd::prelude::*;

use crate::ast::{
    body_declared, body_imported, body_used, item_declared, item_imported, item_used, node_declared,
    node_used, nodes_declared, nodes_used, spec_local, Module, ModuleItem, Node, Specifier,
};
use crate::strutil::str_eq;

verus! {

/// The set of names a list of collected identifiers holds.
pub open spec fn names(v: Seq<String>) -> Set<Seq<char>> {
    Set::new(|nm: Seq<char>| exists|i: int| 0 <= i < v.len() && v[i]@ == nm)
}

/// Decides whether a collected list holds a name.
pub fn contains_name(v: &Vec<String>, name: &str) -> (r: bool)
    ensures
        r == names(v@).contains(name@),
{
    let mut j: usize = 0;
    while j < v.len()
        invariant
            j <= v@.len(),
            forall|k: int| 0 <= k < j ==> v@[k]@ != name@,
        decreases v@.len() - j,
    {
        if str_eq(v[j].as_str(), name) {
            proof {
                assert(v@[j as int]@ == name@);
            }
            return true;
        }
        j += 1;
    }
    false
}

/// Collects the identifiers of one module, partitioned into the three sets
/// the resolver reads. Membership is what matters; the lists may repeat names.
pub struct IdentifierCollector {
    /// Names referenced anywhere in the module.
    pub used_identifiers: Vec<String>,
    /// Names bound by a declaration anywhere in the module.
    pub declared_identifiers: Vec<String>,
    /// Names bound locally by an import declaration.
    pub imported_identifiers: Vec<String>,
}

/// Appends one name to a collected list.
fn push_name(v: &mut Vec<String>, s: &String)
    ensures
        names(final(v)@) == names(old(v)@).insert(s@),
{
    let copied = s.clone();
    v.push(copied);
    proof {
        assert forall|nm: Seq<char>| names(v@).contains(nm) implies names(old(v)@).insert(
            s@,
        ).contains(nm) by {
            let i = choose|i: int| 0 <= i < v@.len() && v@[i]@ == nm;
            if i < old(v)@.len() {
                assert(old(v)@[i]@ == nm);
            }
        };
        assert forall|nm: Seq<char>|
            names(old(v)@).insert(s@).contains(nm) implies names(v@).contains(nm) by {
            if names(old(v)@).contains(nm) {
                let i = choose|i: int| 0 <= i < old(v)@.len() && old(v)@[i]@ == nm;
                assert(v@[i]@ == nm);
            } else {
                assert(v@[v@.len() - 1]@ == nm);
            }
        };
        assert(names(v@) =~= names(old(v)@).insert(s@));
    }
}

impl IdentifierCollector {
    /// The set of used names.
    pub open spec fn used_set(&self) -> Set<Seq<char>> {
        names(self.used_identifiers@)
    }

    /// The set of declared names.
    pub open spec fn declared_set(&self) -> Set<Seq<char>> {
        names(self.declared_identifiers@)
    }

    /// The set of names bound by existing imports.
    pub open spec fn imported_set(&self) -> Set<Seq<char>> {
        names(self.imported_identifiers@)
    }

    /// A collector with all three sets empty.
    pub fn new() -> (r: Self)
        ensures
            names(r.used_identifiers@) == Set::<Seq<char>>::empty(),
            names(r.declared_identifiers@) == Set::<Seq<char>>::empty(),
            names(r.imported_identifiers@) == Set::<Seq<char>>::empty(),
    {
        let r = IdentifierCollector {
            used_identifiers: Vec::new(),
            declared_identifiers: Vec::new(),
            imported_identifiers: Vec::new(),
        };
        proof {
            assert(names(r.used_identifiers@) =~= Set::<Seq<char>>::empty());
            assert(names(r.declared_identifiers@) =~= Set::<Seq<char>>::empty());
            assert(names(r.imported_identifiers@) =~= Set::<Seq<char>>::empty());
        }
        r
    }

    /// Walks one nested node, adding its references to `used` and its
    /// bindings to `declared`.
    fn walk_node(&mut self, n: &Node)
        ensures
            names(final(self).used_identifiers@) == names(old(self).used_identifiers@).union(
                node_used(*n),
            ),
            names(final(self).declared_identifiers@) == names(
                old(self).declared_identifiers@,
            ).union(node_declared(*n)),
            final(self).imported_identifiers@ == old(self).imported_identifiers@,
        decreases *n,
    {
        match n {
            Node::Ref(s) => {
                push_name(&mut self.used_identifiers, s);
                proof {
                    assert(names(self.used_identifiers@) =~= names(
                        old(self).used_identifiers@,
                    ).union(node_used(*n)));
                    assert(names(self.declared_identifiers@) =~= names(
                        old(self).declared_identifiers@,
                    ).union(node_declared(*n)));
                }
            },
            Node::VarBind(s, ch) => {
                push_name(&mut self.declared_identifiers, s);
                push_name(&mut self.used_identifiers, s);
                self.walk_nodes(ch);
                proof {
                    assert(names(self.used_identifiers@) =~= names(
                        old(self).used_identifiers@,
                    ).union(node_used(*n)));
                    assert(names(self.declared_identifiers@) =~= names(
                        old(self).declared_identifiers@,
                    ).union(node_declared(*n)));
                }
            },
            Node::FnBind(s, ch) => {
                push_name(&mut self.declared_identifiers, s);
                push_name(&mut self.used_identifiers, s);
                self.walk_nodes(ch);
                proof {
                    assert(names(self.used_identifiers@) =~= names(
                        old(self).used_identifiers@,
                    ).union(node_used(*n)));
                    assert(names(self.declared_identifiers@) =~= names(
                        old(self).declared_identifiers@,
                    ).union(node_declared(*n)));
                }
            },
            Node::ClassBind(s, ch) => {
                push_name(&mut self.declared_identifiers, s);
                push_name(&mut self.used_identifiers, s);
                self.walk_nodes(ch);
                proof {
                    assert(names(self.used_identifiers@) =~= names(
                        old(self).used_identifiers@,
                    ).union(node_used(*n)));
                    assert(names(self.declared_identifiers@) =~= names(
                        old(self).declared_identifiers@,
                    ).union(node_declared(*n)));
                }
            },
            Node::Group(ch) => {
                self.walk_nodes(ch);
                proof {
                    assert(names(self.used_identifiers@) =~= names(
                        old(self).used_identifiers@,
                    ).union(node_used(*n)));
                    assert(names(self.declared_identifiers@) =~= names(
                        old(self).declared_identifiers@,
                    ).union(node_declared(*n)));
                }
            },
        }
    }

    /// Walks a sequence of sibling nodes.
    fn walk_nodes(&mut self, ns: &Vec<Node>)
        ensures
            names(final(self).used_identifiers@) == names(old(self).used_identifiers@).union(
                nodes_used(ns@),
            ),
            names(final(self).declared_identifiers@) == names(
                old(self).declared_identifiers@,
            ).union(nodes_declared(ns@)),
            final(self).imported_identifiers@ == old(self).imported_identifiers@,
        decreases ns@,
    {
        let mut j: usize = 0;
        while j < ns.len()
            invariant
                j <= ns@.len(),
                forall|nm: Seq<char>|
                    names(self.used_identifiers@).contains(nm) <==> names(
                        old(self).used_identifiers@,
                    ).contains(nm) || (exists|i: int|
                        0 <= i < j && node_used(ns@[i]).contains(nm)),
                forall|nm: Seq<char>|
                    names(self.declared_identifiers@).contains(nm) <==> names(
                        old(self).declared_identifiers@,
                    ).contains(nm) || (exists|i: int|
                        0 <= i < j && node_declared(ns@[i]).contains(nm)),
                self.imported_identifiers@ == old(self).imported_identifiers@,
            decreases ns@.len() - j,
        {
            proof {
                assert(decreases_to!(ns@ => ns@[j as int]));
            }
            self.walk_node(&ns[j]);
            j += 1;
        }
        proof {
            assert(names(self.used_identifiers@) =~= names(old(self).used_identifiers@).union(
                nodes_used(ns@),
            ));
            assert(names(self.declared_identifiers@) =~= names(
                old(self).declared_identifiers@,
            ).union(nodes_declared(ns@)));
        }
    }

    /// Records the locally bound names of one import declaration.
    fn walk_import(&mut self, specifiers: &Vec<Specifier>)
        ensures
            names(final(self).imported_identifiers@) == names(
                old(self).imported_identifiers@,
            ).union(
                Set::new(
                    |nm: Seq<char>|
                        exists|i: int|
                            0 <= i < specifiers@.len() && spec_local(specifiers@[i]) == nm,
                ),
            ),
            final(self).used_identifiers@ == old(self).used_identifiers@,
            final(self).declared_identifiers@ == old(self).declared_identifiers@,
    {
        let mut j: usize = 0;
        while j < specifiers.len()
            invariant
                j <= specifiers@.len(),
                forall|nm: Seq<char>|
                    names(self.imported_identifiers@).contains(nm) <==> names(
                        old(self).imported_identifiers@,
                    ).contains(nm) || (exists|i: int|
                        0 <= i < j && spec_local(specifiers@[i]) == nm),
                self.used_identifiers@ == old(self).used_identifiers@,
                self.declared_identifiers@ == old(self).declared_identifiers@,
            decreases specifiers@.len() - j,
        {
            match &specifiers[j] {
                Specifier::Named { imported: _, local } => {
                    push_name(&mut self.imported_identifiers, local);
                },
                Specifier::DefaultImport { local } => {
                    push_name(&mut self.imported_identifiers, local);
                },
                Specifier::NamespaceImport { local } => {
                    push_name(&mut self.imported_identifiers, local);
                },
            }
            j += 1;
        }
        proof {
            assert(names(self.imported_identifiers@) =~= names(
                old(self).imported_identifiers@,
            ).union(
                Set::new(
                    |nm: Seq<char>|
                        exists|i: int|
                            0 <= i < specifiers@.len() && spec_local(specifiers@[i]) == nm,
                ),
            ));
        }
    }

    /// Walks one module, collecting all three sets in one pass.
    pub fn collect_module(&mut self, m: &Module)
        ensures
            names(final(self).used_identifiers@) == names(old(self).used_identifiers@).union(
                body_used(m.body@),
            ),
            names(final(self).declared_identifiers@) == names(
                old(self).declared_identifiers@,
            ).union(body_declared(m.body@)),
            names(final(self).imported_identifiers@) == names(
                old(self).imported_identifiers@,
            ).union(body_imported(m.body@)),
    {
        let mut j: usize = 0;
        while j < m.body.len()
            invariant
                j <= m.body@.len(),
                forall|nm: Seq<char>|
                    names(self.used_identifiers@).contains(nm) <==> names(
                        old(self).used_identifiers@,
                    ).contains(nm) || (exists|i: int|
                        0 <= i < j && item_used(m.body@[i]).contains(nm)),
                forall|nm: Seq<char>|
                    names(self.declared_identifiers@).contains(nm) <==> names(
                        old(self).declared_identifiers@,
                    ).contains(nm) || (exists|i: int|
                        0 <= i < j && item_declared(m.body@[i]).contains(nm)),
                forall|nm: Seq<char>|
                    names(self.imported_identifiers@).contains(nm) <==> names(
                        old(self).imported_identifiers@,
                    ).contains(nm) || (exists|i: int|
                        0 <= i < j && item_imported(m.body@[i]).contains(nm)),
            decreases m.body@.len() - j,
        {
            match &m.body[j] {
                ModuleItem::Import { src: _, specifiers } => {
                    self.walk_import(specifiers);
                },
                ModuleItem::Directive { text: _ } => {
                },
                ModuleItem::Stmt { node } => {
                    self.walk_node(node);
                },
            }
            j += 1;
        }
        proof {
            assert(names(self.used_identifiers@) =~= names(old(self).used_identifiers@).union(
                body_used(m.body@),
            ));
            assert(names(self.declared_identifiers@) =~= names(
                old(self).declared_identifiers@,
            ).union(body_declared(m.body@)));
            assert(names(self.imported_identifiers@) =~= names(
                old(self).imported_identifiers@,
            ).union(body_imported(m.body@)));
        }
    }
}

} // verus!
