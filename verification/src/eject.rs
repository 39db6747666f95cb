//! Choosing what to eject: functions marked `@eject` in the source, plus the
//! ones asked for by name (or all of them), each ejected to its module's
//! routing target; and the manifest that records them.

use vstd::prelude::*;
use crate::ast::{Module, Item, Func, Attribute, Arg, has_eject_spec};
use crate::router::{route, target_spec, target_text};
use crate::text::{string_of, push_str, copy_string, str_eq};
use crate::format::{join, lemma_join_step};

verus! {

/// `(module, function, language)` of one ejected function.
pub type EjectV = (Seq<char>, Seq<char>, Seq<char>);

pub open spec fn eject_view(e: (String, String, String)) -> EjectV {
    (e.0@, e.1@, e.2@)
}

pub open spec fn ejects_view(es: Seq<(String, String, String)>) -> Seq<EjectV> {
    es.map_values(|e: (String, String, String)| eject_view(e))
}

/// The item is a function named `name`.
pub open spec fn is_func_named(it: Item, name: Seq<char>) -> bool {
    match it {
        Item::Func(f) => f.name@ == name,
        _ => false,
    }
}

/// Some function of the modules is named `name`.
pub open spec fn func_named(ms: Seq<Module>, name: Seq<char>) -> bool {
    exists|i: int, j: int| 0 <= i < ms.len() && 0 <= j < ms[i].items@.len()
        && #[trigger] is_func_named(ms[i].items@[j], name)
}

/// Whether a function is picked: by name, or every function when no name
/// is given.
pub open spec fn picked(f: Func, only: Option<Seq<char>>) -> bool {
    match only {
        Some(n) => f.name@ == n,
        None => true,
    }
}

/// The function is ejected: picked, or already marked `@eject`.
pub open spec fn ejects(f: Func, only: Option<Seq<char>>) -> bool {
    picked(f, only) || has_eject_spec(f.attributes@)
}

/// `g` is `f` marked for ejection to `lang`: an `@eject(lang)` attribute
/// added after its own unless it already had one.
pub open spec fn marked_as(f: Func, g: Func, only: Option<Seq<char>>, lang: Seq<char>) -> bool {
    &&& g.name == f.name
    &&& g.params == f.params
    &&& g.return_ty == f.return_ty
    &&& g.requires == f.requires
    &&& g.ensures == f.ensures
    &&& g.body == f.body
    &&& g.elided == f.elided
    &&& g.span == f.span
    &&& g.requires_spans == f.requires_spans
    &&& g.ensures_spans == f.ensures_spans
    &&& if ejects(f, only) && !has_eject_spec(f.attributes@) {
        &&& g.attributes@.len() == f.attributes@.len() + 1
        &&& g.attributes@.take(f.attributes@.len() as int) == f.attributes@
        &&& g.attributes@.last().name@ == "eject"@
        &&& g.attributes@.last().args@.len() == 1
        &&& is_flag(g.attributes@.last().args@[0], lang)
    } else {
        g.attributes == f.attributes
    }
}

pub open spec fn is_flag(a: Arg, lang: Seq<char>) -> bool {
    match a {
        Arg::Flag(l) => l@ == lang,
        _ => false,
    }
}

/// Item `b` is item `a` after marking.
pub open spec fn item_marked(a: Item, b: Item, only: Option<Seq<char>>, lang: Seq<char>) -> bool {
    match a {
        Item::Func(f) => match b {
            Item::Func(g) => marked_as(f, g, only, lang),
            _ => false,
        },
        _ => b == a,
    }
}

/// The ejections of the functions of `items`, in order.
pub open spec fn item_ejects(m: Seq<char>, items: Seq<Item>, only: Option<Seq<char>>, lang: Seq<char>) -> Seq<EjectV>
    decreases items.len(),
{
    if items.len() == 0 {
        Seq::empty()
    } else {
        item_ejects(m, items.drop_last(), only, lang) + match items.last() {
            Item::Func(f) => if ejects(f, only) { seq![(m, f.name@, lang)] } else { Seq::empty() },
            _ => Seq::empty(),
        }
    }
}

/// The ejections of all modules, in order, each function to its module's
/// target.
pub open spec fn all_ejects(ms: Seq<Module>, only: Option<Seq<char>>) -> Seq<EjectV>
    decreases ms.len(),
{
    if ms.len() == 0 {
        Seq::empty()
    } else {
        let m = ms.last();
        all_ejects(ms.drop_last(), only) + item_ejects(m.name@, m.items@, only, target_text(target_spec(m.attributes@)))
    }
}

pub open spec fn only_view(only: Option<&str>) -> Option<Seq<char>> {
    match only {
        Some(n) => Some(n@),
        None => None,
    }
}

/// Whether some function of the modules is named `name`.
pub fn has_func(modules: &Vec<Module>, name: &str) -> (r: bool)
    ensures
        r == func_named(modules@, name@),
{
    let mut i: usize = 0;
    while i < modules.len()
        invariant
            i <= modules@.len(),
            forall|a: int, j: int| 0 <= a < i && 0 <= j < modules@[a].items@.len()
                ==> !#[trigger] is_func_named(modules@[a].items@[j], name@),
        decreases modules@.len() - i,
    {
        let m = &modules[i];
        let mut j: usize = 0;
        while j < m.items.len()
            invariant
                i < modules@.len(),
                *m == modules@[i as int],
                j <= m.items@.len(),
                forall|a: int, k: int| 0 <= a < i && 0 <= k < modules@[a].items@.len()
                    ==> !#[trigger] is_func_named(modules@[a].items@[k], name@),
                forall|k: int| 0 <= k < j ==> !#[trigger] is_func_named(m.items@[k], name@),
            decreases m.items@.len() - j,
        {
            if let Item::Func(f) = &m.items[j] {
                if str_eq(f.name.as_str(), name) {
                    assert(is_func_named(modules@[i as int].items@[j as int], name@));
                    return true;
                }
            }
            j = j + 1;
        }
        i = i + 1;
    }
    false
}

fn mark_func(f: &mut Func, only: Option<&str>, lang: &String) -> (r: bool)
    ensures
        r == ejects(*old(f), only_view(only)),
        marked_as(*old(f), *final(f), only_view(only), lang@),
{
    let selected = match only {
        Some(n) => str_eq(n, f.name.as_str()),
        None => true,
    };
    let already = f.is_ejected();
    if selected || already {
        if !already {
            let mut args: Vec<Arg> = Vec::new();
            args.push(Arg::Flag(copy_string(lang)));
            f.attributes.push(Attribute { name: string_of("eject"), args });
            assert(f.attributes@.take(old(f).attributes@.len() as int) =~= old(f).attributes@);
        }
        true
    } else {
        false
    }
}

/// Mark the functions to eject: every function marked `@eject` in the
/// source, and the one named `only` (or every function when `only` is
/// `None`), each to its module's routing target; return the ejections as
/// `(module, function, language)`.
pub fn mark_ejections(modules: &mut Vec<Module>, only: Option<&str>) -> (r: Vec<(String, String, String)>)
    ensures
        final(modules)@.len() == old(modules)@.len(),
        forall|i: int| 0 <= i < old(modules)@.len() ==> {
            let (a, b) = (old(modules)@[i], #[trigger] final(modules)@[i]);
            &&& b.attributes == a.attributes
            &&& b.name == a.name
            &&& b.items@.len() == a.items@.len()
            &&& forall|j: int| 0 <= j < a.items@.len() ==>
                item_marked(a.items@[j], #[trigger] b.items@[j], only_view(only), target_text(target_spec(a.attributes@)))
        },
        ejects_view(r@) == all_ejects(old(modules)@, only_view(only)),
{
    let ghost ms0 = modules@;
    let mut out: Vec<(String, String, String)> = Vec::new();
    let mut i: usize = 0;
    assert(ejects_view(out@) =~= all_ejects(ms0.take(0), only_view(only)));
    while i < modules.len()
        invariant
            i <= modules@.len(),
            modules@.len() == ms0.len(),
            ms0 == old(modules)@,
            forall|k: int| i <= k < ms0.len() ==> #[trigger] modules@[k] == ms0[k],
            forall|k: int| 0 <= k < i ==> {
                let (a, b) = (ms0[k], #[trigger] modules@[k]);
                &&& b.attributes == a.attributes
                &&& b.name == a.name
                &&& b.items@.len() == a.items@.len()
                &&& forall|j: int| 0 <= j < a.items@.len() ==>
                    item_marked(a.items@[j], #[trigger] b.items@[j], only_view(only), target_text(target_spec(a.attributes@)))
            },
            ejects_view(out@) == all_ejects(ms0.take(i as int), only_view(only)),
        decreases ms0.len() - i,
    {
        let mut m = modules.remove(i);
        let ghost m0 = m;
        assert(m0 == ms0[i as int]);
        let lang = string_of(route(m.attributes.as_slice()).target.as_str());
        let ghost base = out@;
        let mut j: usize = 0;
        assert(ms0.take(i + 1).drop_last() =~= ms0.take(i as int));
        assert(item_ejects(m0.name@, m0.items@.take(0), only_view(only), lang@) =~= Seq::<EjectV>::empty());
        assert(ejects_view(out@) =~= ejects_view(base) + item_ejects(m0.name@, m0.items@.take(0), only_view(only), lang@));
        while j < m.items.len()
            invariant
                j <= m.items@.len(),
                m.items@.len() == m0.items@.len(),
                m.attributes == m0.attributes,
                m.name == m0.name,
                lang@ == target_text(target_spec(m0.attributes@)),
                forall|k: int| j <= k < m0.items@.len() ==> #[trigger] m.items@[k] == m0.items@[k],
                forall|k: int| 0 <= k < j ==> item_marked(m0.items@[k], #[trigger] m.items@[k], only_view(only), lang@),
                ejects_view(out@) == ejects_view(base) + item_ejects(m0.name@, m0.items@.take(j as int), only_view(only), lang@),
            decreases m0.items@.len() - j,
        {
            let mut it = m.items.remove(j);
            assert(it == m0.items@[j as int]);
            assert(m0.items@.take(j + 1).drop_last() =~= m0.items@.take(j as int));
            let ghost before = out@;
            match it {
                Item::Func(mut f) => {
                    let ghost f0 = f;
                    let e = mark_func(&mut f, only, &lang);
                    if e {
                        out.push((copy_string(&m.name), copy_string(&f.name), copy_string(&lang)));
                        assert(ejects_view(out@) =~= ejects_view(before).push((m0.name@, f0.name@, lang@)));
                    }
                    it = Item::Func(f);
                },
                _ => {},
            }
            m.items.insert(j, it);
            j = j + 1;
        }
        assert(m0.items@.take(m0.items@.len() as int) =~= m0.items@);
        modules.insert(i, m);
        i = i + 1;
    }
    assert(ms0.take(ms0.len() as int) =~= ms0);
    out
}

/// The JSON manifest of ejected functions, one entry per line.
pub open spec fn eject_manifest_spec(es: Seq<EjectV>) -> Seq<char> {
    "{\n  \"ejected\": [\n"@
        + crate::prove::concat(Seq::new(es.len(), |i: int|
            "    { \"module\": \""@ + es[i].0 + "\", \"func\": \""@ + es[i].1 + "\", \"lang\": \""@ + es[i].2 + "\" }"@
                + (if i + 1 < es.len() { ","@ } else { Seq::empty() }) + "\n"@))
        + "  ]\n}\n"@
}

/// Render the manifest recording the ejected functions.
pub fn eject_manifest(ejected: &Vec<(String, String, String)>) -> (r: String)
    ensures
        r@ == eject_manifest_spec(ejects_view(ejected@)),
{
    let ghost es = ejects_view(ejected@);
    let ghost xs = Seq::new(es.len(), |i: int|
        "    { \"module\": \""@ + es[i].0 + "\", \"func\": \""@ + es[i].1 + "\", \"lang\": \""@ + es[i].2 + "\" }"@
            + (if i + 1 < es.len() { ","@ } else { Seq::empty() }) + "\n"@);
    let mut s = string_of("{\n  \"ejected\": [\n");
    let ghost base = s@;
    let n = ejected.len();
    let mut i: usize = 0;
    assert(base =~= base + crate::prove::concat(xs.take(0)));
    while i < n
        invariant
            n == ejected@.len(),
            i <= n,
            es == ejects_view(ejected@),
            xs == Seq::new(es.len(), |i: int|
                "    { \"module\": \""@ + es[i].0 + "\", \"func\": \""@ + es[i].1 + "\", \"lang\": \""@ + es[i].2 + "\" }"@
                    + (if i + 1 < es.len() { ","@ } else { Seq::empty() }) + "\n"@),
            s@ == base + crate::prove::concat(xs.take(i as int)),
        decreases n - i,
    {
        proof { crate::prove::lemma_concat_step(xs, i as int); }
        let ghost before = s@;
        push_str(&mut s, "    { \"module\": \"");
        push_str(&mut s, ejected[i].0.as_str());
        push_str(&mut s, "\", \"func\": \"");
        push_str(&mut s, ejected[i].1.as_str());
        push_str(&mut s, "\", \"lang\": \"");
        push_str(&mut s, ejected[i].2.as_str());
        push_str(&mut s, "\" }");
        if i + 1 < n {
            push_str(&mut s, ",");
        }
        push_str(&mut s, "\n");
        assert(s@ =~= before + xs[i as int]);
        i = i + 1;
    }
    assert(xs.take(xs.len() as int) =~= xs);
    push_str(&mut s, "  ]\n}\n");
    s
}

/// The error when nothing is ejected.
pub open spec fn no_match_spec(only: Option<Seq<char>>) -> Seq<char> {
    "no matching function to eject"@ + match only {
        Some(n) => " (looked for `"@ + n + "`)"@,
        None => Seq::empty(),
    }
}

pub fn no_match_message(only: Option<&str>) -> (r: String)
    ensures
        r@ == no_match_spec(only_view(only)),
{
    let mut s = string_of("no matching function to eject");
    match only {
        Some(n) => {
            push_str(&mut s, " (looked for `");
            push_str(&mut s, n);
            push_str(&mut s, "`)");
        },
        None => {},
    }
    s
}

} // verus!
