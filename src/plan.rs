use vstd::prelude::*;

use crate::error::BuildError;

verus! {

/// The path separator of the hosts this builds for.
pub open spec fn is_separator(c: char) -> bool {
    c == '/'
}

pub open spec fn has_separator(s: Seq<char>) -> bool {
    exists|i: int| 0 <= i < s.len() && is_separator(#[trigger] s[i])
}

/// Accepts an output prefix unless it holds a path separator: the directory
/// goes in its own option.
pub fn check_output_prefix(prefix: &String) -> (r: Result<(), BuildError>)
    ensures
        match r {
            Ok(_) => !has_separator(prefix@),
            Err(e) => has_separator(prefix@) && (e matches BuildError::InvalidOutputPrefix(p)
                && p@ == prefix@),
        },
{
    let s = prefix.as_str();
    let n = s.unicode_len();
    let mut i: usize = 0;
    while i < n
        invariant
            n == s@.len(),
            s@ == prefix@,
            i <= n,
            forall|j: int| 0 <= j < i ==> !is_separator(#[trigger] s@[j]),
        decreases n - i,
    {
        if s.get_char(i) == '/' {
            return Err(BuildError::InvalidOutputPrefix(prefix.clone()));
        }
        i = i + 1;
    }
    Ok(())
}

/// The name of an artifact: the prefix followed by the artifact's extension.
pub fn artifact_name(prefix: &String, extension: &str) -> (r: String)
    ensures
        r@ == prefix@ + extension@,
{
    let mut r = prefix.clone();
    r.append(extension);
    r
}

/// `name` inside directory `dir`.
pub fn joined(dir: &String, name: &String) -> (r: String)
    ensures
        r@ == dir@ + "/"@ + name@,
{
    let mut r = dir.clone();
    r.append("/");
    r.append(name.as_str());
    r
}

/// Where the binary goes: `name` itself in the current directory, else `name`
/// inside `dir`.
pub fn output_file(dir: &String, name: &String) -> (r: String)
    ensures
        dir@ == "."@ ==> r@ == name@,
        dir@ != "."@ ==> r@ == dir@ + "/"@ + name@,
{
    if *dir == String::from_str(".") {
        name.clone()
    } else {
        joined(dir, name)
    }
}

} // verus!
