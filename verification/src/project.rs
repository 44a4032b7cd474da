//! Project naming rules of the editor.

use vstd::prelude::*;

verus! {

/// An ASCII letter, upper or lower case.
pub open spec fn spec_is_ascii_alpha(c: char) -> bool {
    ('A' <= c && c <= 'Z') || ('a' <= c && c <= 'z')
}

/// A valid project name: between one and 127 characters, letters only.
pub open spec fn spec_is_valid_project_name(name: Seq<char>) -> bool {
    &&& 1 <= name.len() <= 127
    &&& forall|i: int| 0 <= i < name.len() ==> spec_is_ascii_alpha(#[trigger] name[i])
}

/// Whether a project name is acceptable: non-empty, at most 127
/// characters, and made of ASCII letters alone.
pub fn is_project_name_valid(name: &str) -> (r: bool)
    ensures
        r == spec_is_valid_project_name(name@),
{
    let n = name.unicode_len();
    if n == 0 || n > 127 {
        return false;
    }
    let mut i: usize = 0;
    while i < n
        invariant
            n == name@.len(),
            1 <= n <= 127,
            0 <= i <= n,
            forall|j: int| 0 <= j < i ==> spec_is_ascii_alpha(#[trigger] name@[j]),
        decreases n - i,
    {
        let c = name.get_char(i);
        if !((c >= 'A' && c <= 'Z') || (c >= 'a' && c <= 'z')) {
            return false;
        }
        i = i + 1;
    }
    true
}

} // verus!
