//! Small verified operations on strings.

use vstd::prelude::*;

verus! {

/// Whether two strings hold the same characters.
pub fn str_eq(a: &str, b: &str) -> (r: bool)
    ensures
        r == (a@ == b@),
{
    let n = a.unicode_len();
    if n != b.unicode_len() {
        return false;
    }
    let mut i: usize = 0;
    while i < n
        invariant
            n == a@.len(),
            n == b@.len(),
            i <= n,
            forall|j: int| 0 <= j < i ==> a@[j] == b@[j],
        decreases n - i,
    {
        if a.get_char(i) != b.get_char(i) {
            return false;
        }
        i = i + 1;
    }
    assert(a@ =~= b@);
    true
}

/// The index of the first `'.'` in `s` at or after `i`.
pub open spec fn first_dot_from(s: Seq<char>, i: nat) -> Option<nat>
    decreases s.len() - i,
{
    if i >= s.len() {
        None
    } else if s[i as int] == '.' {
        Some(i)
    } else {
        first_dot_from(s, i + 1)
    }
}

/// A qualified name `Module.function` without its module: what follows the
/// first `'.'`, or the whole name where there is none.
pub open spec fn unqualified(name: Seq<char>) -> Seq<char> {
    match first_dot_from(name, 0) {
        Some(i) => name.subrange(i + 1int, name.len() as int),
        None => name,
    }
}

/// Whether `name` holds a `'.'`.
pub fn has_dot(name: &str) -> (r: bool)
    ensures
        r == (first_dot_from(name@, 0) is Some),
{
    let n = name.unicode_len();
    let mut i: usize = 0;
    while i < n
        invariant
            n == name@.len(),
            i <= n,
            first_dot_from(name@, 0) == first_dot_from(name@, i as nat),
        decreases n - i,
    {
        if name.get_char(i) == '.' {
            return true;
        }
        i = i + 1;
    }
    false
}

/// See [`unqualified`].
pub fn unqualified_name(name: &str) -> (r: String)
    ensures
        r@ == unqualified(name@),
{
    let n = name.unicode_len();
    let mut i: usize = 0;
    while i < n
        invariant
            n == name@.len(),
            i <= n,
            first_dot_from(name@, 0) == first_dot_from(name@, i as nat),
        decreases n - i,
    {
        if name.get_char(i) == '.' {
            return name.substring_char(i + 1, n).to_owned();
        }
        i = i + 1;
    }
    name.to_owned()
}

} // verus!
