//! Model of one parsed module: the shape of its top-level statements and,
//! inside each statement, the identifier occurrences and bindings that the
//! engine reads. Everything else a real syntax tree carries is abstracted
//! into the nesting structure.

use vstd::prelude::*;

verus! {

/// One specifier of an import declaration, carrying its locally bound name.
#[derive(Debug, PartialEq, Eq)]
pub enum Specifier {
    /// `import { imported as local } from ...` (or `{ local }` when no alias).
    Named { imported: Option<String>, local: String },
    /// `import local from ...`
    DefaultImport { local: String },
    /// `import * as local from ...`
    NamespaceImport { local: String },
}

/// A nested syntax node, reduced to what the identifier walk reads:
/// identifier references, bindings, and child nodes.
#[derive(Debug, PartialEq, Eq)]
pub enum Node {
    /// An identifier reference occurrence.
    Ref(String),
    /// A variable declarator binding a simple identifier, with its children.
    VarBind(String, Vec<Node>),
    /// A function declaration binding its name, with its children.
    FnBind(String, Vec<Node>),
    /// A class declaration binding its name, with its children.
    ClassBind(String, Vec<Node>),
    /// Any other construct: only its children matter.
    Group(Vec<Node>),
}

/// One top-level item of a module body.
#[derive(Debug, PartialEq, Eq)]
pub enum ModuleItem {
    /// An import declaration.
    Import { src: String, specifiers: Vec<Specifier> },
    /// A bare string-literal expression statement (a directive).
    Directive { text: String },
    /// Any other top-level statement or declaration.
    Stmt { node: Node },
}

/// A module: its top-level statement sequence.
#[derive(Debug, PartialEq, Eq)]
pub struct Module {
    pub body: Vec<ModuleItem>,
}

/// The name an import specifier binds locally.
pub open spec fn spec_local(s: Specifier) -> Seq<char> {
    match s {
        Specifier::Named { imported: _, local } => local@,
        Specifier::DefaultImport { local } => local@,
        Specifier::NamespaceImport { local } => local@,
    }
}

/// The identifier references reachable from one node, the node's own
/// binding name included.
pub open spec fn node_used(n: Node) -> Set<Seq<char>>
    decreases n,
{
    match n {
        Node::Ref(s) => set![s@],
        Node::VarBind(s, ch) => set![s@].union(nodes_used(ch@)),
        Node::FnBind(s, ch) => set![s@].union(nodes_used(ch@)),
        Node::ClassBind(s, ch) => set![s@].union(nodes_used(ch@)),
        Node::Group(ch) => nodes_used(ch@),
    }
}

/// The identifier references reachable from a sequence of nodes.
pub open spec fn nodes_used(ns: Seq<Node>) -> Set<Seq<char>>
    decreases ns,
{
    Set::new(|nm: Seq<char>| exists|i: int| 0 <= i < ns.len() && node_used(ns[i]).contains(nm))
}

/// The binding names declared anywhere under one node.
pub open spec fn node_declared(n: Node) -> Set<Seq<char>>
    decreases n,
{
    match n {
        Node::Ref(_) => Set::empty(),
        Node::VarBind(s, ch) => set![s@].union(nodes_declared(ch@)),
        Node::FnBind(s, ch) => set![s@].union(nodes_declared(ch@)),
        Node::ClassBind(s, ch) => set![s@].union(nodes_declared(ch@)),
        Node::Group(ch) => nodes_declared(ch@),
    }
}

/// The binding names declared anywhere under a sequence of nodes.
pub open spec fn nodes_declared(ns: Seq<Node>) -> Set<Seq<char>>
    decreases ns,
{
    Set::new(
        |nm: Seq<char>| exists|i: int| 0 <= i < ns.len() && node_declared(ns[i]).contains(nm),
    )
}

/// The names one top-level item marks as used.
pub open spec fn item_used(it: ModuleItem) -> Set<Seq<char>> {
    match it {
        ModuleItem::Stmt { node } => node_used(node),
        _ => Set::empty(),
    }
}

/// The names one top-level item declares.
pub open spec fn item_declared(it: ModuleItem) -> Set<Seq<char>> {
    match it {
        ModuleItem::Stmt { node } => node_declared(node),
        _ => Set::empty(),
    }
}

/// The names one top-level item binds by import.
pub open spec fn item_imported(it: ModuleItem) -> Set<Seq<char>> {
    match it {
        ModuleItem::Import { src: _, specifiers } => Set::new(
            |nm: Seq<char>|
                exists|i: int|
                    0 <= i < specifiers@.len() && spec_local(specifiers@[i]) == nm,
        ),
        _ => Set::empty(),
    }
}

/// All names a module body marks as used.
pub open spec fn body_used(body: Seq<ModuleItem>) -> Set<Seq<char>> {
    Set::new(|nm: Seq<char>| exists|i: int| 0 <= i < body.len() && item_used(body[i]).contains(nm))
}

/// All names a module body declares.
pub open spec fn body_declared(body: Seq<ModuleItem>) -> Set<Seq<char>> {
    Set::new(
        |nm: Seq<char>| exists|i: int| 0 <= i < body.len() && item_declared(body[i]).contains(nm),
    )
}

/// All names a module body binds by import.
pub open spec fn body_imported(body: Seq<ModuleItem>) -> Set<Seq<char>> {
    Set::new(
        |nm: Seq<char>| exists|i: int| 0 <= i < body.len() && item_imported(body[i]).contains(nm),
    )
}

/// Whether one top-level item is a directive.
pub open spec fn is_directive(it: ModuleItem) -> bool {
    it is Directive
}

} // verus!
