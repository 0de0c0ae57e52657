//! The computing half of tabular column extraction: locating a named column
//! in a header row. The reading itself (files, spreadsheets) stays outside
//! the library; it hands the header cells in as plain strings.

use vstd::prelude::*;
use vstd::string::StringExecFns;

verus! {

/// Finds the first header cell equal to `name`: its index, or `None` when no
/// cell matches — the condition on which a column lookup must fail.
pub fn find_column(headers: &Vec<String>, name: &str) -> (r: Option<usize>)
    ensures
        match r {
            Some(i) => i < headers@.len() && headers@[i as int]@ == name@
                && forall|j: int| 0 <= j < i ==> (#[trigger] headers@[j])@ != name@,
            None => forall|j: int| 0 <= j < headers@.len() ==> (#[trigger] headers@[j])@ != name@,
        },
{
    let target = String::from_str(name);
    let mut i: usize = 0;
    while i < headers.len()
        invariant
            i <= headers@.len(),
            target@ == name@,
            forall|j: int| 0 <= j < i ==> (#[trigger] headers@[j])@ != name@,
        decreases headers@.len() - i,
    {
        if headers[i] == target {
            return Some(i);
        }
        i = i + 1;
    }
    None
}

} // verus!
