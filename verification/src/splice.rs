//! The splicer: inserts the synthesized import statements immediately
//! after the module's leading directive statements, preserving every
//! existing statement's relative order.

use vstd::prelude::*;

use crate::ast::{is_directive, Module, ModuleItem};

verus! {

/// How many leading statements of a body are directives.
pub open spec fn directive_prefix_len(body: Seq<ModuleItem>) -> int
    decreases body.len(),
{
    if body.len() == 0 {
        0
    } else if is_directive(body[0]) {
        1 + directive_prefix_len(body.drop_first())
    } else {
        0
    }
}

/// The directive prefix is a well-formed position in the body.
pub proof fn lemma_directive_prefix_len_bounds(body: Seq<ModuleItem>)
    ensures
        0 <= directive_prefix_len(body) <= body.len(),
    decreases body.len(),
{
    if body.len() > 0 && is_directive(body[0]) {
        lemma_directive_prefix_len_bounds(body.drop_first());
    }
}

/// A maximal run of leading directives pins the directive prefix length.
proof fn lemma_directive_prefix_len_is(body: Seq<ModuleItem>, i: int)
    requires
        0 <= i <= body.len(),
        forall|j: int| 0 <= j < i ==> is_directive(#[trigger] body[j]),
        i < body.len() ==> !is_directive(body[i]),
    ensures
        directive_prefix_len(body) == i,
    decreases body.len(),
{
    if body.len() == 0 {
    } else if i == 0 {
    } else {
        assert(is_directive(body[0]));
        let tail = body.drop_first();
        assert(forall|j: int| 0 <= j < i - 1 ==> is_directive(#[trigger] tail[j]));
        lemma_directive_prefix_len_is(tail, i - 1);
    }
}

/// Finds the position of the first statement that is not a directive; the
/// body's length when every statement is one.
pub fn insert_position(body: &Vec<ModuleItem>) -> (i: usize)
    ensures
        i == directive_prefix_len(body@),
{
    let mut i: usize = 0;
    loop
        invariant
            i <= body@.len(),
            forall|j: int| 0 <= j < i ==> is_directive(#[trigger] body@[j]),
        ensures
            i <= body@.len(),
            forall|j: int| 0 <= j < i ==> is_directive(#[trigger] body@[j]),
            i < body@.len() ==> !is_directive(body@[i as int]),
        decreases body@.len() - i,
    {
        if i >= body.len() {
            break ;
        }
        match &body[i] {
            ModuleItem::Directive { text: _ } => {
                i += 1;
            },
            _ => {
                break ;
            },
        }
    }
    proof {
        lemma_directive_prefix_len_is(body@, i as int);
    }
    i
}

/// Inserts the synthesized statements, in their given order, right after
/// the leading directives. With no statements to insert the body is left
/// unchanged.
pub fn splice_imports(module: &mut Module, new_items: Vec<ModuleItem>)
    ensures
        final(module).body@ == old(module).body@.take(directive_prefix_len(old(module).body@))
            + new_items@ + old(module).body@.skip(directive_prefix_len(old(module).body@)),
{
    proof {
        lemma_directive_prefix_len_bounds(module.body@);
    }
    let idx = insert_position(&module.body);
    let ghost obody = module.body@;
    let ghost orig_new = new_items@;
    let mut items = new_items;
    proof {
        assert(orig_new.skip(items@.len() as int) =~= Seq::<ModuleItem>::empty());
        assert(items@ =~= orig_new.take(items@.len() as int));
        assert(module.body@ =~= obody.take(idx as int) + orig_new.skip(items@.len() as int)
            + obody.skip(idx as int));
    }
    loop
        invariant
            idx == directive_prefix_len(obody),
            0 <= idx <= obody.len(),
            items@.len() <= orig_new.len(),
            items@ == orig_new.take(items@.len() as int),
            module.body@ == obody.take(idx as int) + orig_new.skip(items@.len() as int)
                + obody.skip(idx as int),
        ensures
            module.body@ == obody.take(idx as int) + orig_new + obody.skip(idx as int),
        decreases items@.len(),
    {
        let ghost pre = items@;
        let popped = items.pop();
        match popped {
            Option::Some(it) => {
                let ghost k: int = items@.len() as int;
                proof {
                    assert(pre.len() == k + 1);
                    assert(pre == orig_new.take(k + 1));
                    assert(it == pre.last());
                    assert(pre.last() == orig_new[k]);
                }
                module.body.insert(idx, it);
                proof {
                    assert(items@ == pre.drop_last());
                    assert(items@ =~= orig_new.take(k));
                    assert(module.body@ =~= obody.take(idx as int) + orig_new.skip(k)
                        + obody.skip(idx as int));
                }
            },
            Option::None => {
                proof {
                    assert(orig_new.skip(0) =~= orig_new);
                }
                break ;
            },
        }
    }
}

} // verus!
