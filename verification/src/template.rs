//! Starter modules for a new project.

use vstd::prelude::*;
use crate::text::{string_of, push_str, str_eq};

verus! {

pub open spec fn simple_head() -> Seq<char> { "@boundary(cpu_bound)\nmodule "@ }
pub open spec fn simple_tail() -> Seq<char> { " {\n\ninvariant Counter {\ncount >= 0\n}\n\nfunc increment(c: Counter)\nrequires c.count >= 0\nensures c.count == old(c.count) + 1\n{\nmutate state {\nc.count += 1\n}\n}\n\nfunc get(c: Counter): Int\nrequires c.count >= 0\nensures result == c.count\n{\nmutate state {\nreturn c.count\n}\n}\n}\n"@ }
pub open spec fn dual_head() -> Seq<char> { "// Dual-backend template: one Rust module (cpu_bound) and one Go module (network_io).\n\n@boundary(cpu_bound)\nmodule "@ }
pub open spec fn dual_middle() -> Seq<char> { "Rust {\n\ninvariant Counter {\ncount >= 0\n}\n\nfunc increment(c: Counter)\nrequires c.count >= 0\nensures c.count == old(c.count) + 1\n{\nmutate state {\nc.count += 1\n}\n}\n}\n\n@boundary(network_io)\nmodule "@ }
pub open spec fn dual_tail() -> Seq<char> { "Go {\n\nfunc handle(req: Int): Int\nrequires req >= 0\nensures result >= 0\n{\nmutate state {\nreturn req\n}\n}\n}\n"@ }
pub open spec fn eject_head() -> Seq<char> { "@boundary(cpu_bound)\nmodule "@ }
pub open spec fn eject_tail() -> Seq<char> { " {\n\n// @eject marks this function as a trusted opaque block.\n// The compiler generates a guard wrapper that enforces contracts at runtime.\n@eject\nfunc process(x: Int): Int\nrequires x >= 0\nensures result >= x\n{\nmutate state {\nreturn x\n}\n}\n}\n"@ }

/// The starter source for a template, with the module named `name`: `simple`
/// (or no name) a counter module; `dual-backend` a Rust module and a Go
/// module; `eject` one ejected function. `None` for any other template.
pub open spec fn starter_spec(name: Seq<char>, template: Seq<char>) -> Option<Seq<char>> {
    if template == "simple"@ || template.len() == 0 {
        Some(simple_head() + name + simple_tail())
    } else if template == "dual-backend"@ {
        Some(dual_head() + name + dual_middle() + name + dual_tail())
    } else if template == "eject"@ {
        Some(eject_head() + name + eject_tail())
    } else {
        None
    }
}

pub open spec fn unknown_template_message(template: Seq<char>) -> Seq<char> {
    "unknown template `"@ + template + "`; valid options: simple, dual-backend, eject"@
}

/// The starter source of a new module, or the message naming the valid
/// templates when `template` is none of them.
pub fn starter_module(module_name: &str, template: &str) -> (r: Result<String, String>)
    ensures
        match starter_spec(module_name@, template@) {
            Some(t) => r matches Ok(s) && s@ == t,
            None => r matches Err(e) && e@ == unknown_template_message(template@),
        },
{
    if str_eq(template, "simple") || template.unicode_len() == 0 {
        let mut s = string_of("@boundary(cpu_bound)\nmodule ");
        push_str(&mut s, module_name);
        push_str(&mut s, " {\n\ninvariant Counter {\ncount >= 0\n}\n\nfunc increment(c: Counter)\nrequires c.count >= 0\nensures c.count == old(c.count) + 1\n{\nmutate state {\nc.count += 1\n}\n}\n\nfunc get(c: Counter): Int\nrequires c.count >= 0\nensures result == c.count\n{\nmutate state {\nreturn c.count\n}\n}\n}\n");
        Ok(s)
    } else if str_eq(template, "dual-backend") {
        let mut s = string_of("// Dual-backend template: one Rust module (cpu_bound) and one Go module (network_io).\n\n@boundary(cpu_bound)\nmodule ");
        push_str(&mut s, module_name);
        push_str(&mut s, "Rust {\n\ninvariant Counter {\ncount >= 0\n}\n\nfunc increment(c: Counter)\nrequires c.count >= 0\nensures c.count == old(c.count) + 1\n{\nmutate state {\nc.count += 1\n}\n}\n}\n\n@boundary(network_io)\nmodule ");
        push_str(&mut s, module_name);
        push_str(&mut s, "Go {\n\nfunc handle(req: Int): Int\nrequires req >= 0\nensures result >= 0\n{\nmutate state {\nreturn req\n}\n}\n}\n");
        Ok(s)
    } else if str_eq(template, "eject") {
        let mut s = string_of("@boundary(cpu_bound)\nmodule ");
        push_str(&mut s, module_name);
        push_str(&mut s, " {\n\n// @eject marks this function as a trusted opaque block.\n// The compiler generates a guard wrapper that enforces contracts at runtime.\n@eject\nfunc process(x: Int): Int\nrequires x >= 0\nensures result >= x\n{\nmutate state {\nreturn x\n}\n}\n}\n");
        Ok(s)
    } else {
        let mut m = string_of("unknown template `");
        push_str(&mut m, template);
        push_str(&mut m, "`; valid options: simple, dual-backend, eject");
        Err(m)
    }
}

/// Where the starter module is written: the given path, else the module's
/// name with the `.telos` extension.
pub fn starter_path(module_name: &str, out: Option<&str>) -> (r: String)
    ensures
        r@ == match out {
            Some(p) => p@,
            None => module_name@ + ".telos"@,
        },
{
    match out {
        Some(p) => string_of(p),
        None => {
            let mut s = string_of(module_name);
            push_str(&mut s, ".telos");
            s
        },
    }
}

} // verus!
