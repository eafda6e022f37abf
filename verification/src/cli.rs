//! Command-line conventions: how switches are spelled and what a new project is called
//! by default.

use vstd::prelude::*;

use crate::text::{opt_view, str_eq};

verus! {

/// The spellings of an on/off switch.
pub open spec fn switch_value(value: Seq<char>) -> Option<bool> {
    if value == "true"@ || value == "yes"@ || value == "1"@ || value == "on"@ {
        Some(true)
    } else if value == "false"@ || value == "no"@ || value == "0"@ || value == "off"@ {
        Some(false)
    } else {
        None
    }
}

/// Read an on/off switch: `true`, `yes`, `1` or `on`, and `false`, `no`, `0` or `off`.
pub fn parse_switch(value: &str) -> (r: Option<bool>)
    ensures
        r == switch_value(value@),
{
    if str_eq(value, "true") || str_eq(value, "yes") || str_eq(value, "1") || str_eq(value, "on") {
        Some(true)
    } else if str_eq(value, "false") || str_eq(value, "no") || str_eq(value, "0") || str_eq(value, "off") {
        Some(false)
    } else {
        None
    }
}

/// What `std::path::Path::file_name` returns for a path, as text.
pub uninterp spec fn path_file_name_of(path: Seq<char>) -> Option<Seq<char>>;

/// `std::path::Path::file_name` on a UTF-8 path: its final component, unless that is
/// `..` or there is none. The contract names the result; the component rules are not
/// restated.
#[verifier::external_body]
fn path_file_name(path: &str) -> (n: Option<String>)
    ensures
        opt_view(n) == path_file_name_of(path@),
{
    match std::path::Path::new(path).file_name() {
        Some(name) => match name.to_str() {
            Some(text) => Some(text.to_owned()),
            None => None,
        },
        None => None,
    }
}

/// The name a project gets from its directory's file name: that name, or `Untitled`
/// when there is none or it is empty.
pub open spec fn name_or_untitled(file_name: Option<Seq<char>>) -> Seq<char> {
    match file_name {
        Some(n) => if n.len() > 0 { n } else { "Untitled"@ },
        None => "Untitled"@,
    }
}

/// The name a project gets when none is given: its directory's name, or `Untitled`.
pub open spec fn default_project_name_spec(path: Seq<char>) -> Seq<char> {
    name_or_untitled(path_file_name_of(path))
}

/// A project's name from its directory's file name: that name, or `Untitled` when
/// there is none or it is empty.
pub fn project_name_from_file_name(file_name: Option<String>) -> (name: String)
    ensures
        name@ == name_or_untitled(opt_view(file_name)),
{
    match file_name {
        Some(n) => {
            if n.as_str().is_empty() {
                "Untitled".to_owned()
            } else {
                n
            }
        },
        None => "Untitled".to_owned(),
    }
}

/// The default name of a project created at `path`.
pub fn default_project_name(path: &str) -> (name: String)
    ensures
        name@ == default_project_name_spec(path@),
{
    project_name_from_file_name(path_file_name(path))
}

} // verus!
