//! The namespace dynamic-parameter encoding: the selection list offered to
//! the operator and the command-line fragment each choice stands for — the
//! current context, all namespaces, or one namespace by name. Fetching the
//! live namespace list and presenting the choice belong to the cluster-query
//! collaborator outside the core.

use vstd::prelude::*;
use crate::text::{chars_to_string, str_to_chars};

verus! {

/// The selection list for a namespace choice: the current-context entry,
/// the all-namespaces entry, then the live namespace names in order.
pub fn namespace_menu_items(names: &Vec<String>) -> (r: Vec<String>)
    ensures
        r@.len() == names@.len() + 2,
        r@[0]@ == "context"@,
        r@[1]@ == "all"@,
        forall|i: int| 0 <= i < names@.len() ==> r@[i + 2]@ == names@[i]@,
{
    let mut r: Vec<String> = Vec::new();
    r.push("context".to_owned());
    r.push("all".to_owned());
    let mut i: usize = 0;
    while i < names.len()
        invariant
            i <= names@.len(),
            r@.len() == i + 2,
            r@[0]@ == "context"@,
            r@[1]@ == "all"@,
            forall|j: int| 0 <= j < i ==> r@[j + 2]@ == names@[j]@,
        decreases names@.len() - i,
    {
        r.push(names[i].clone());
        i = i + 1;
    }
    r
}

/// The command-line fragment a namespace selection encodes: the empty
/// string for the current context, the all-namespaces flag, or a scoping
/// flag plus the chosen name; nothing for a selection out of range.
pub fn namespace_argument(items: &Vec<String>, selection: usize) -> (r: Option<String>)
    ensures
        match r {
            Some(s) => {
                if selection == 0 {
                    s@ == Seq::<char>::empty()
                } else if selection == 1 {
                    s@ == "--all-namespaces"@
                } else {
                    selection < items@.len() && s@ == "-n "@ + items@[selection as int]@
                }
            },
            None => selection >= 2 && selection >= items@.len(),
        },
{
    if selection == 0 {
        Some(String::new())
    } else if selection == 1 {
        Some("--all-namespaces".to_owned())
    } else if selection < items.len() {
        let mut out = str_to_chars("-n ");
        let mut name = str_to_chars(items[selection].as_str());
        out.append(&mut name);
        Some(chars_to_string(&out))
    } else {
        None
    }
}

} // verus!
