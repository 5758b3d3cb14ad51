//! Unix path joining, as `Path::join` does it on text: an absolute part
//! replaces the base, and a separator is added only where one is missing.

use vstd::prelude::*;

use crate::text::{chars_of, string_of};

verus! {

/// `base` joined with `part`.
pub open spec fn join(base: Seq<char>, part: Seq<char>) -> Seq<char> {
    if part.len() > 0 && part[0] == '/' {
        part
    } else if base.len() > 0 && base.last() != '/' {
        base + seq!['/'] + part
    } else {
        base + part
    }
}

pub fn join_chars(base: &Vec<char>, part: &Vec<char>) -> (r: Vec<char>)
    ensures
        r@ == join(base@, part@),
{
    if part.len() > 0 && part[0] == '/' {
        return part.clone();
    }
    let mut r = base.clone();
    if base.len() > 0 && base[base.len() - 1] != '/' {
        r.push('/');
    }
    let ghost head = r@;
    let mut i: usize = 0;
    while i < part.len()
        invariant
            i <= part.len(),
            r@ == head + part@.take(i as int),
        decreases part.len() - i,
    {
        r.push(part[i]);
        i = i + 1;
        assert(r@ =~= head + part@.take(i as int));
    }
    assert(part@.take(part.len() as int) =~= part@);
    r
}

/// `base` joined with the literal component `part`.
pub fn join_str(base: &Vec<char>, part: &str) -> (r: Vec<char>)
    ensures
        r@ == join(base@, part@),
{
    join_chars(base, &chars_of(part))
}

/// `base` joined with `part` (`Path::join`, then `display`).
pub fn join_path(base: &str, part: &str) -> (r: String)
    ensures
        r@ == join(base@, part@),
{
    string_of(&join_chars(&chars_of(base), &chars_of(part)))
}

} // verus!
