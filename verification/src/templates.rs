//! Templates of map requests: the file a template is read from, and which errors of the
//! template engine mean that there simply are no templates yet.
use vstd::prelude::*;
use crate::text::{contains_text, occurs_in, owned, push_str};

verus! {

/// The file of the template `name`: `{name}.json`.
pub open spec fn template_file(name: Seq<char>) -> Seq<char> {
    name + ".json"@
}

/// The file of a template.
pub fn template_file_name(name: &str) -> (f: String)
    ensures
        f@ == template_file(name@),
{
    let mut f = owned(name);
    push_str(&mut f, ".json");
    f
}

/// `true` when an error of the template engine only says that no template file was
/// found; the server then starts with no templates.
pub open spec fn means_no_templates(message: Seq<char>) -> bool {
    occurs_in(message, "no templates found"@) || occurs_in(message, "match any files"@)
}

/// Whether an error of the template engine only says that no template file was found.
pub fn is_missing_templates_error(message: &str) -> (b: bool)
    ensures
        b == means_no_templates(message@),
{
    contains_text(message, "no templates found") || contains_text(message, "match any files")
}

} // verus!
