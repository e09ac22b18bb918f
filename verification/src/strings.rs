//! Owned strings handed over by value, by shared reference and by exclusive
//! reference. Each function returns what it has built; nothing is printed
//! here.

use vstd::prelude::*;
use vstd::string::StringExecFns;
use vstd::utf8::encode_utf8;

verus! {

/// Clones a string and appends to the clone; the string cloned from stays
/// as it is.
pub fn cloning() -> (s: String)
    ensures
        s@ == "foo "@ + "cloned!"@,
{
    let s3 = String::from_str("foo ");
    let mut s4 = s3.clone();
    s4.append("cloned!");
    s4
}

/// Moves a string to a mutable binding and appends to it there.
pub fn mut_move() -> (s: String)
    ensures
        s@ == "wha? "@ + " fool"@,
{
    let s = String::from_str("wha? ");
    let mut s2 = s;
    s2.append(" fool");
    s2
}

/// Builds a string in an inner scope and moves it out to the caller.
pub fn move_from_inner() -> (s: String)
    ensures
        s@ == "inner"@,
{
    let s = String::from_str("inner");
    s
}

/// Takes a string by value and moves it back out unchanged, together with
/// its length in bytes.
pub fn move_in_and_out(s: String) -> (out: (usize, String))
    ensures
        out.0 == encode_utf8(s@).len(),
        out.1 == s,
{
    let n = take_ref(&s);
    (n, s)
}

/// Takes a string by value, appends to it and moves it back out.
pub fn move_in_and_out_mut(s: String) -> (out: String)
    ensures
        out@ == s@ + " move_in_and_out_mut!"@,
{
    let mut s = s;
    s.append(" move_in_and_out_mut!");
    s
}

/// Reads a string through a shared reference and returns its length in
/// bytes.
pub fn take_ref(s: &String) -> (n: usize)
    ensures
        n == encode_utf8(s@).len(),
{
    s.as_str().as_bytes().len()
}

/// Appends to a string through an exclusive reference.
pub fn take_mut_ref(s: &mut String)
    ensures
        final(s)@ == old(s)@ + "mutable ref"@,
{
    s.append("mutable ref");
}

/// Reads one string through two shared references that are live together,
/// and returns what each of them sees.
pub fn multiple_refs() -> (out: (String, String))
    ensures
        out.0@ == "foo"@,
        out.1@ == "foo"@,
{
    let s = String::from_str("foo");
    let r1 = &s;
    let r2 = &s;
    (r1.clone(), r2.clone())
}

/// Appends through an exclusive reference that lives in a block of its
/// own, then reads through a shared reference. Returns what each of them
/// sees, the exclusive one first.
pub fn multiple_mut_refs() -> (out: (String, String))
    ensures
        out.0@ == "foo"@ + " changed"@,
        out.1@ == "foo"@ + " changed"@,
{
    let mut s = String::from_str("foo");
    let seen;
    {
        let r1 = &mut s;
        r1.append(" changed");
        seen = r1.clone();
    }
    let r2 = &s;
    (seen, r2.clone())
}

/// Reads through a shared reference, then appends through an exclusive
/// one taken in the same block after the last use of the shared one.
/// Returns what each of them sees, the shared one first.
pub fn multiple_mut_refs_scope() -> (out: (String, String))
    ensures
        out.0@ == "foo"@,
        out.1@ == "foo"@ + " changed"@,
{
    let mut s = String::from_str("foo");
    let r2 = &s;
    let first = r2.clone();
    let r1 = &mut s;
    r1.append(" changed");
    (first, r1.clone())
}

} // verus!
