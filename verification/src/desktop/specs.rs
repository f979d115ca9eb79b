//! The specs of a project, as the desktop app lists them.
use vstd::prelude::*;

use crate::error::{error_message, ForjaError};
use crate::models::spec::{spec_lookup, SpecFile};
use crate::paths::{join_path, joined};
use crate::text::{contains, find_chars, chars_of};

verus! {

/// Where a project's specs live: `<project>/.forja/specs` when that exists
/// (`forja_specs_exists`), else `<project>/docs/specs`.
pub fn resolve_specs_dir(project_path: &str, forja_specs_exists: bool) -> (r: String)
    ensures
        r@ == if forja_specs_exists {
            joined(joined(project_path@, ".forja"@), "specs"@)
        } else {
            joined(joined(project_path@, "docs"@), "specs"@)
        },
{
    if forja_specs_exists {
        let forja = join_path(project_path, ".forja");
        join_path(forja.as_str(), "specs")
    } else {
        let docs = join_path(project_path, "docs");
        join_path(docs.as_str(), "specs")
    }
}

/// The specs to list from a discovery: a failure whose message mentions
/// "not found" means no specs yet; any other failure is reported by its
/// message.
pub fn list_specs(discovered: Result<Vec<SpecFile>, ForjaError>) -> (r: Result<Vec<SpecFile>, String>)
    ensures
        match discovered {
            Ok(specs) => r == Ok::<Vec<SpecFile>, String>(specs),
            Err(e) => if contains(error_message(e), "not found"@) {
                r is Ok && r->Ok_0@.len() == 0
            } else {
                r is Err && r->Err_0@ == error_message(e)
            },
        },
{
    match discovered {
        Ok(specs) => Ok(specs),
        Err(e) => {
            let m = e.message();
            let mc = chars_of(m.as_str());
            let nf = chars_of("not found");
            if find_chars(&mc, &nf, 0).is_some() {
                Ok(Vec::new())
            } else {
                Err(m)
            }
        },
    }
}

/// The spec `spec_id` among the discovered specs, or the error's message.
pub fn get_spec(discovered: Result<Vec<SpecFile>, ForjaError>, spec_id: &str) -> (r: Result<
    SpecFile,
    String,
>)
    ensures
        match discovered {
            Err(e) => r is Err && r->Err_0@ == error_message(e),
            Ok(specs) => match r {
                Ok(s) => spec_lookup(specs@, spec_id@, Ok(s)),
                Err(m) => exists|e: ForjaError| spec_lookup(specs@, spec_id@, Err(e)) && m@ == error_message(e),
            },
        },
{
    match crate::models::spec::find_spec(discovered, spec_id) {
        Ok(s) => Ok(s),
        Err(e) => Err(e.message()),
    }
}

} // verus!
