//! The Maven dependency workflow: naming the Maven Central path of the POM
//! whose `scm/url` field carries the repository URL.

use vstd::prelude::*;

use crate::strutil::{extend_chars, from_chars, replace_chars, replaced, to_chars};

verus! {

/// The Maven Central location of a dependency's POM: the group's dots become
/// path separators, and the file is named `<artifact>-<version>.pom`.
pub open spec fn maven_pom_endpoint(group: Seq<char>, name: Seq<char>, ver: Seq<char>) -> Seq<
    char,
> {
    "https://search.maven.org/remotecontent?filepath="@ + replaced(group, '.', '/') + seq!['/']
        + name + seq!['/'] + ver + seq!['/'] + name + seq!['-'] + ver + ".pom"@
}

/// Builds the Maven Central URL of a dependency's POM.
pub fn maven_pom_url(group: &String, name: &String, ver: &String) -> (r: String)
    ensures
        r@ == maven_pom_endpoint(group@, name@, ver@),
{
    let mut out = to_chars("https://search.maven.org/remotecontent?filepath=");
    let groupc = to_chars(group.as_str());
    let slashed = replace_chars(&groupc, '.', '/');
    extend_chars(&mut out, &slashed);
    out.push('/');
    let namec = to_chars(name.as_str());
    extend_chars(&mut out, &namec);
    out.push('/');
    let verc = to_chars(ver.as_str());
    extend_chars(&mut out, &verc);
    out.push('/');
    extend_chars(&mut out, &namec);
    out.push('-');
    extend_chars(&mut out, &verc);
    let tail = to_chars(".pom");
    extend_chars(&mut out, &tail);
    assert(out@ =~= maven_pom_endpoint(group@, name@, ver@));
    from_chars(&out)
}

} // verus!
