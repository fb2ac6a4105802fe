//! The rows the About page shows for a dependency.

use crate::text::{append_chars, chars_of, string_of};
use vstd::prelude::*;

verus! {

/// A Markdown link whose text is its target: `[t](t)`.
pub open spec fn link_spec(t: Seq<char>) -> Seq<char> {
    seq!['['] + t + seq![']', '('] + t + seq![')']
}

/// The rows of a dependency as (label, value): its name with the version
/// and its license; the description where there is one; the website as a
/// link where there is one that is not the repository; the repository as a
/// link where there is one.
pub open spec fn dep_rows_spec(
    name: Seq<char>,
    version: Seq<char>,
    license: Seq<char>,
    description: Seq<char>,
    website: Seq<char>,
    repository: Seq<char>,
) -> Seq<(Seq<char>, Seq<char>)> {
    let base = seq![(name, version), ("License"@, license)];
    let d = if description.len() > 0 {
        base.push(("Description"@, description))
    } else {
        base
    };
    let w = if website.len() > 0 && website != repository {
        d.push(("Website"@, link_spec(website)))
    } else {
        d
    };
    if repository.len() > 0 {
        w.push(("Repository"@, link_spec(repository)))
    } else {
        w
    }
}

/// `[t](t)`.
fn link(t: &str) -> (r: String)
    ensures
        r@ == link_spec(t@),
{
    let tc = chars_of(t);
    let mut v: Vec<char> = Vec::new();
    v.push('[');
    append_chars(&mut v, &tc);
    v.push(']');
    v.push('(');
    append_chars(&mut v, &tc);
    v.push(')');
    assert(v@ =~= link_spec(t@));
    string_of(&v)
}

/// The rows of a dependency (see `dep_rows_spec`).
pub fn dep_list(
    name: &str,
    version: &str,
    license: &str,
    description: &str,
    website: &str,
    repository: &str,
) -> (r: Vec<(String, String)>)
    ensures
        r@.map_values(|p: (String, String)| (p.0@, p.1@)) == dep_rows_spec(
            name@,
            version@,
            license@,
            description@,
            website@,
            repository@,
        ),
{
    let mut r: Vec<(String, String)> = Vec::new();
    r.push((string_of(&chars_of(name)), string_of(&chars_of(version))));
    r.push((string_of(&chars_of("License")), string_of(&chars_of(license))));
    let ghost d0 = r@.map_values(|p: (String, String)| (p.0@, p.1@));
    if !description.is_empty() {
        r.push((string_of(&chars_of("Description")), string_of(&chars_of(description))));
    }
    let distinct = !crate::text::chars_eq(&chars_of(website), &chars_of(repository));
    if !website.is_empty() && distinct {
        r.push((string_of(&chars_of("Website")), link(website)));
    }
    if !repository.is_empty() {
        r.push((string_of(&chars_of("Repository")), link(repository)));
    }
    proof {
        let base = seq![(name@, version@), ("License"@, license@)];
        assert(d0 =~= base);
    }
    assert(r@.map_values(|p: (String, String)| (p.0@, p.1@)) =~= dep_rows_spec(
        name@,
        version@,
        license@,
        description@,
        website@,
        repository@,
    ));
    r
}

} // verus!
