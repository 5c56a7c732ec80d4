//! The preset library: fixed catalog fragments reachable under short names.

use vstd::prelude::*;

use crate::catalog::Catalog;
use crate::strutil::str_eq;

verus! {

/// The rows of the `vue` preset.
pub open spec fn vue_triples() -> Seq<(Seq<char>, Seq<char>, Option<Seq<char>>)> {
    seq![
        ("vue"@, "ref"@, Option::None),
        ("vue"@, "computed"@, Option::None),
        ("vue"@, "reactive"@, Option::None),
        ("vue"@, "watch"@, Option::None),
        ("vue"@, "watchEffect"@, Option::None),
        ("vue"@, "onMounted"@, Option::None),
        ("vue"@, "onUnmounted"@, Option::None),
        ("vue"@, "onBeforeMount"@, Option::None),
        ("vue"@, "onBeforeUnmount"@, Option::None),
        ("vue"@, "onUpdated"@, Option::None),
        ("vue"@, "onBeforeUpdate"@, Option::None),
        ("vue"@, "nextTick"@, Option::None),
        ("vue"@, "defineComponent"@, Option::None),
        ("vue"@, "createApp"@, Option::None),
        ("vue"@, "toRef"@, Option::None),
        ("vue"@, "toRefs"@, Option::None),
        ("vue"@, "unref"@, Option::None),
        ("vue"@, "isRef"@, Option::None),
    ]
}

/// The rows of the `react` preset.
pub open spec fn react_triples() -> Seq<(Seq<char>, Seq<char>, Option<Seq<char>>)> {
    seq![
        ("react"@, "useState"@, Option::None),
        ("react"@, "useCallback"@, Option::None),
        ("react"@, "useMemo"@, Option::None),
        ("react"@, "useEffect"@, Option::None),
        ("react"@, "useRef"@, Option::None),
        ("react"@, "useContext"@, Option::None),
        ("react"@, "useReducer"@, Option::None),
        ("react"@, "useImperativeHandle"@, Option::None),
        ("react"@, "useDebugValue"@, Option::None),
        ("react"@, "useDeferredValue"@, Option::None),
        ("react"@, "useLayoutEffect"@, Option::None),
        ("react"@, "useTransition"@, Option::None),
        ("react"@, "startTransition"@, Option::None),
        ("react"@, "useSyncExternalStore"@, Option::None),
        ("react"@, "useInsertionEffect"@, Option::None),
        ("react"@, "useId"@, Option::None),
        ("react"@, "lazy"@, Option::None),
        ("react"@, "memo"@, Option::None),
        ("react"@, "createRef"@, Option::None),
        ("react"@, "forwardRef"@, Option::None),
        ("react"@, "cache"@, Option::None),
        ("react"@, "cacheSignal"@, Option::None),
        ("react"@, "createContext"@, Option::None),
        ("react"@, "use"@, Option::None),
        ("react"@, "useOptimistic"@, Option::None),
        ("react"@, "useEffectEvent"@, Option::None),
        ("react"@, "useActionState"@, Option::None),
        ("react"@, "Fragment"@, Option::None),
        ("react"@, "Suspense"@, Option::None),
        ("react"@, "Activity"@, Option::None),
    ]
}

/// The rows of the `react-dom` preset.
pub open spec fn react_dom_triples() -> Seq<(Seq<char>, Seq<char>, Option<Seq<char>>)> {
    seq![
        ("react-dom"@, "useFormStatus"@, Option::None),
        ("react-dom"@, "createPortal"@, Option::None),
        ("react-dom"@, "flushSync"@, Option::None),
        ("react-dom"@, "preconnect"@, Option::None),
        ("react-dom"@, "prefetchDNS"@, Option::None),
        ("react-dom"@, "preinit"@, Option::None),
        ("react-dom"@, "preinitModule"@, Option::None),
        ("react-dom"@, "preload"@, Option::None),
        ("react-dom"@, "preloadModule"@, Option::None),
    ]
}

/// The rows of the `vue-router` preset.
pub open spec fn vue_router_triples() -> Seq<(Seq<char>, Seq<char>, Option<Seq<char>>)> {
    seq![("vue-router"@, "useRouter"@, Option::None), ("vue-router"@, "useRoute"@, Option::None)]
}

/// The rows of the `react-router` preset, offered from `react-router-dom`.
pub open spec fn react_router_triples() -> Seq<(Seq<char>, Seq<char>, Option<Seq<char>>)> {
    seq![
        ("react-router-dom"@, "useNavigate"@, Option::None),
        ("react-router-dom"@, "useLocation"@, Option::None),
        ("react-router-dom"@, "useParams"@, Option::None),
        ("react-router-dom"@, "useSearchParams"@, Option::None),
    ]
}

/// What one preset name expands to; unknown names expand to nothing.
pub open spec fn preset_triples(p: Seq<char>) -> Seq<(Seq<char>, Seq<char>, Option<Seq<char>>)> {
    if p == "vue"@ {
        vue_triples()
    } else if p == "react"@ {
        react_triples()
    } else if p == "react-dom"@ {
        react_dom_triples()
    } else if p == "vue-router"@ {
        vue_router_triples()
    } else if p == "react-router"@ {
        react_router_triples()
    } else {
        Seq::empty()
    }
}

/// Appends one alias-free row to a catalog being built.
fn add_named(cat: &mut Catalog, source: &str, name: &str)
    ensures
        final(cat).model() == old(cat).model().push((source@, name@, Option::None)),
{
    cat.push_triple(source.to_owned(), name.to_owned(), Option::None);
}

/// Expands one preset name to its catalog fragment. An unknown name yields
/// an empty catalog.
pub fn get_preset_imports(preset: &str) -> (r: Catalog)
    ensures
        r.model() == preset_triples(preset@),
{
    let mut cat = Catalog::new();
    if str_eq(preset, "vue") {
        add_named(&mut cat, "vue", "ref");
        add_named(&mut cat, "vue", "computed");
        add_named(&mut cat, "vue", "reactive");
        add_named(&mut cat, "vue", "watch");
        add_named(&mut cat, "vue", "watchEffect");
        add_named(&mut cat, "vue", "onMounted");
        add_named(&mut cat, "vue", "onUnmounted");
        add_named(&mut cat, "vue", "onBeforeMount");
        add_named(&mut cat, "vue", "onBeforeUnmount");
        add_named(&mut cat, "vue", "onUpdated");
        add_named(&mut cat, "vue", "onBeforeUpdate");
        add_named(&mut cat, "vue", "nextTick");
        add_named(&mut cat, "vue", "defineComponent");
        add_named(&mut cat, "vue", "createApp");
        add_named(&mut cat, "vue", "toRef");
        add_named(&mut cat, "vue", "toRefs");
        add_named(&mut cat, "vue", "unref");
        add_named(&mut cat, "vue", "isRef");
        proof {
            assert(cat.model() =~= preset_triples(preset@));
        }
    } else if str_eq(preset, "react") {
        add_named(&mut cat, "react", "useState");
        add_named(&mut cat, "react", "useCallback");
        add_named(&mut cat, "react", "useMemo");
        add_named(&mut cat, "react", "useEffect");
        add_named(&mut cat, "react", "useRef");
        add_named(&mut cat, "react", "useContext");
        add_named(&mut cat, "react", "useReducer");
        add_named(&mut cat, "react", "useImperativeHandle");
        add_named(&mut cat, "react", "useDebugValue");
        add_named(&mut cat, "react", "useDeferredValue");
        add_named(&mut cat, "react", "useLayoutEffect");
        add_named(&mut cat, "react", "useTransition");
        add_named(&mut cat, "react", "startTransition");
        add_named(&mut cat, "react", "useSyncExternalStore");
        add_named(&mut cat, "react", "useInsertionEffect");
        add_named(&mut cat, "react", "useId");
        add_named(&mut cat, "react", "lazy");
        add_named(&mut cat, "react", "memo");
        add_named(&mut cat, "react", "createRef");
        add_named(&mut cat, "react", "forwardRef");
        add_named(&mut cat, "react", "cache");
        add_named(&mut cat, "react", "cacheSignal");
        add_named(&mut cat, "react", "createContext");
        add_named(&mut cat, "react", "use");
        add_named(&mut cat, "react", "useOptimistic");
        add_named(&mut cat, "react", "useEffectEvent");
        add_named(&mut cat, "react", "useActionState");
        add_named(&mut cat, "react", "Fragment");
        add_named(&mut cat, "react", "Suspense");
        add_named(&mut cat, "react", "Activity");
        proof {
            assert(cat.model() =~= preset_triples(preset@));
        }
    } else if str_eq(preset, "react-dom") {
        add_named(&mut cat, "react-dom", "useFormStatus");
        add_named(&mut cat, "react-dom", "createPortal");
        add_named(&mut cat, "react-dom", "flushSync");
        add_named(&mut cat, "react-dom", "preconnect");
        add_named(&mut cat, "react-dom", "prefetchDNS");
        add_named(&mut cat, "react-dom", "preinit");
        add_named(&mut cat, "react-dom", "preinitModule");
        add_named(&mut cat, "react-dom", "preload");
        add_named(&mut cat, "react-dom", "preloadModule");
        proof {
            assert(cat.model() =~= preset_triples(preset@));
        }
    } else if str_eq(preset, "vue-router") {
        add_named(&mut cat, "vue-router", "useRouter");
        add_named(&mut cat, "vue-router", "useRoute");
        proof {
            assert(cat.model() =~= preset_triples(preset@));
        }
    } else if str_eq(preset, "react-router") {
        add_named(&mut cat, "react-router-dom", "useNavigate");
        add_named(&mut cat, "react-router-dom", "useLocation");
        add_named(&mut cat, "react-router-dom", "useParams");
        add_named(&mut cat, "react-router-dom", "useSearchParams");
        proof {
            assert(cat.model() =~= preset_triples(preset@));
        }
    } else {
        proof {
            assert(cat.model() =~= preset_triples(preset@));
        }
    }
    cat
}

} // verus!
