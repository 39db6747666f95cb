//! Naming conventions of the Go backend.

use vstd::prelude::*;
use crate::text::{chars_of, push_char};

verus! {

/// The exported Go spelling of a name: its first letter in upper case when
/// it is a lower-case ASCII letter, the rest unchanged.
pub open spec fn exported_spec(s: Seq<char>) -> Seq<char> {
    if s.len() > 0 && 'a' <= s[0] && s[0] <= 'z' {
        seq![((s[0] as u32) - 32) as char] + s.drop_first()
    } else {
        s
    }
}

/// The exported (capitalised) Go spelling of `name`.
pub fn exported(name: &str) -> (r: String)
    ensures
        r@ == exported_spec(name@),
{
    let cs = chars_of(name);
    let mut out = String::new();
    let mut i: usize = 0;
    while i < cs.len()
        invariant
            cs@ == name@,
            i <= cs@.len(),
            out@ == exported_spec(cs@.take(i as int)),
            i > 0 ==> exported_spec(cs@.take(i as int)) == exported_spec(cs@).take(i as int),
            i == 0 ==> out@.len() == 0,
        decreases cs@.len() - i,
    {
        let c = cs[i];
        let ghost before = out@;
        if i == 0 && 'a' <= c && c <= 'z' {
            let up = crate::json::char_from((c as u32) - 32);
            match up {
                Some(u) => push_char(&mut out, u),
                None => push_char(&mut out, c),
            }
        } else {
            push_char(&mut out, c);
        }
        assert(exported_spec(cs@.take(i + 1)) =~= exported_spec(cs@).take(i + 1));
        assert(out@ =~= exported_spec(cs@.take(i + 1)));
        i = i + 1;
    }
    assert(cs@.take(cs@.len() as int) =~= cs@);
    out
}

} // verus!
