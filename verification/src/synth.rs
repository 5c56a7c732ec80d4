//! The statement synthesizer: turns one resolved group into an import
//! declaration. The sentinel names `default` and `*` select the default
//! and namespace specifier forms; everything else becomes a named
//! specifier, aliased when the entry carries an alias.

use vstd::prelude::*;

use crate::ast::{ModuleItem, Specifier};
use crate::catalog::{clone_opt, entries_view, opt_view};
use crate::resolve::PendingImport;
use crate::strutil::str_eq;

verus! {

/// The local name a default or namespace specifier binds: the alias when
/// present, else the literal name `default`.
pub open spec fn sentinel_local(alias: Option<Seq<char>>) -> Seq<char> {
    match alias {
        Option::Some(a) => a,
        Option::None => "default"@,
    }
}

/// How the specifier synthesized from one entry must look.
pub open spec fn specifier_matches(sp: Specifier, e: (Seq<char>, Option<Seq<char>>)) -> bool {
    if e.0 == "default"@ {
        match sp {
            Specifier::DefaultImport { local } => local@ == sentinel_local(e.1),
            _ => false,
        }
    } else if e.0 == "*"@ {
        match sp {
            Specifier::NamespaceImport { local } => local@ == sentinel_local(e.1),
            _ => false,
        }
    } else {
        match sp {
            Specifier::Named { imported, local } => match e.1 {
                Option::Some(a) => {
                    &&& match imported {
                        Option::Some(im) => im@ == e.0,
                        Option::None => false,
                    }
                    &&& local@ == a
                },
                Option::None => imported is None && local@ == e.0,
            },
            _ => false,
        }
    }
}

/// Builds the specifier for one entry.
fn synth_specifier(name: String, alias: Option<String>) -> (sp: Specifier)
    ensures
        specifier_matches(sp, (name@, opt_view(alias))),
{
    if str_eq(name.as_str(), "default") {
        let local = match alias {
            Option::Some(a) => a,
            Option::None => "default".to_owned(),
        };
        Specifier::DefaultImport { local }
    } else if str_eq(name.as_str(), "*") {
        let local = match alias {
            Option::Some(a) => a,
            Option::None => "default".to_owned(),
        };
        Specifier::NamespaceImport { local }
    } else {
        match alias {
            Option::Some(a) => Specifier::Named { imported: Option::Some(name), local: a },
            Option::None => Specifier::Named { imported: Option::None, local: name },
        }
    }
}

/// Builds one import declaration from a pending group: one specifier per
/// entry, in entry order, against the group's source module.
pub fn synth_import(p: PendingImport) -> (it: ModuleItem)
    ensures
        match it {
            ModuleItem::Import { src, specifiers } => {
                &&& src@ == p.source@
                &&& specifiers@.len() == p.entries@.len()
                &&& forall|i: int|
                    0 <= i < specifiers@.len() ==> specifier_matches(
                        #[trigger] specifiers@[i],
                        entries_view(p.entries@)[i],
                    )
            },
            _ => false,
        },
{
    let mut specifiers: Vec<Specifier> = Vec::new();
    let mut j: usize = 0;
    while j < p.entries.len()
        invariant
            j <= p.entries@.len(),
            specifiers@.len() == j,
            forall|i: int|
                0 <= i < j ==> specifier_matches(
                    #[trigger] specifiers@[i],
                    entries_view(p.entries@)[i],
                ),
        decreases p.entries@.len() - j,
    {
        let e = &p.entries[j];
        let alias_c = clone_opt(&e.1);
        let sp = synth_specifier(e.0.clone(), alias_c);
        proof {
            assert(entries_view(p.entries@)[j as int] == (e.0@, opt_view(e.1)));
        }
        specifiers.push(sp);
        j += 1;
    }
    ModuleItem::Import { src: p.source, specifiers }
}

} // verus!
