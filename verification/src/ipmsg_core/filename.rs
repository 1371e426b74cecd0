//! Names of files and directories that come from the network.
use crate::chars;
use crate::chars::{is_control, is_text, split, to_chars, to_text, trim, upper};
use vstd::prelude::*;
use vstd::slice::slice_subrange;

verus! {

/// A character that no path component holds: a control character, a separator, or
/// the colon of a drive or a data stream.
pub open spec fn path_breaking(c: char) -> bool {
    chars::control(c) || c == '/' || c == '\\' || c == ':'
}

/// A name that stands for a device, in upper case.
pub open spec fn device(stem: Seq<char>) -> bool {
    ||| stem == "CON"@
    ||| stem == "PRN"@
    ||| stem == "AUX"@
    ||| stem == "NUL"@
    ||| {
        &&& stem.len() == 4
        &&& stem.take(3) == "COM"@ || stem.take(3) == "LPT"@
        &&& '1' <= stem[3] <= '9'
    }
}

/// A name that can be joined to a directory and stays inside it.
pub open spec fn safe_component(name: Seq<char>) -> bool {
    &&& name.len() > 0
    &&& name != "."@
    &&& name != ".."@
    &&& forall|i: int| 0 <= i < name.len() ==> !path_breaking(#[trigger] name[i])
    &&& !device(chars::raised(chars::pieces(name, '.')[0]))
}

/// The component that a name from the network is taken for, if it is safe.
pub open spec fn component_of(name: Seq<char>) -> Option<Seq<char>> {
    let name = chars::trimmed(name);
    if safe_component(name) {
        Some(name)
    } else {
        None
    }
}

fn is_device(stem: &[char]) -> (r: bool)
    ensures
        r == device(stem@),
{
    if is_text(stem, "CON") || is_text(stem, "PRN") || is_text(stem, "AUX") || is_text(
        stem,
        "NUL",
    ) {
        return true;
    }
    if stem.len() != 4 {
        return false;
    }
    let kind = slice_subrange(stem, 0, 3);
    assert(kind@ =~= stem@.take(3));
    (is_text(kind, "COM") || is_text(kind, "LPT")) && '1' <= stem[3] && stem[3] <= '9'
}

fn has_path_breaking(name: &[char]) -> (r: bool)
    ensures
        r == exists|i: int| 0 <= i < name@.len() && path_breaking(#[trigger] name@[i]),
{
    let mut i: usize = 0;
    while i < name.len()
        invariant
            i <= name@.len(),
            forall|k: int| 0 <= k < i ==> !path_breaking(#[trigger] name@[k]),
        decreases name@.len() - i,
    {
        let c: char = name[i];
        if is_control(c) || c == '/' || c == '\\' || c == ':' {
            return true;
        }
        i += 1;
    }
    false
}

/// Checks a name from the network before it touches the file system. What it
/// gives back is trimmed, and stays inside the directory it is joined to.
pub fn sanitize_wire_filename(name: &str) -> (r: Option<String>)
    ensures
        match component_of(name@) {
            Some(component) => r is Some && r->0@ == component,
            None => r is None,
        },
{
    let name = to_chars(name);
    let name = trim(name.as_slice());
    if name.len() == 0 || is_text(name.as_slice(), ".") || is_text(name.as_slice(), "..") {
        return None;
    }
    if has_path_breaking(name.as_slice()) {
        return None;
    }
    let parts = split(name.as_slice(), '.');
    proof {
        chars::lemma_pieces_some(name@, '.');
        assert(chars::views(parts@)[0] == parts@[0]@);
    }
    let stem = upper(parts[0].as_slice());
    if is_device(stem.as_slice()) {
        return None;
    }
    Some(to_text(name.as_slice()))
}

/// What is taken for a component is safe, has no white space around it, and is
/// taken for itself.
pub proof fn law_component(name: Seq<char>)
    ensures
        component_of(name) matches Some(c) ==> safe_component(c) && chars::trimmed(c) == c
            && component_of(c) == Some(c),
{
    let c = chars::trimmed(name);
    chars::lemma_trimmed_edges(name);
    if c.len() > 0 {
        chars::lemma_trimmed_tight(c);
    }
}

/// A component is no reference to a directory and holds no separator, colon or
/// control character, so the path that it makes has one more component.
pub proof fn law_component_stays_inside(name: Seq<char>)
    requires
        safe_component(name),
    ensures
        !name.contains('/'),
        !name.contains('\\'),
        !name.contains(':'),
        !name.contains('\0'),
        name != seq!['.'],
        name != seq!['.', '.'],
{
    reveal_strlit(".");
    reveal_strlit("..");
    assert("."@ =~= seq!['.']);
    assert(".."@ =~= seq!['.', '.']);
    assert(forall|i: int|
        0 <= i < name.len() ==> !path_breaking(#[trigger] name[i]) && name[i] != '/' && name[i]
            != '\\' && name[i] != ':' && name[i] != '\0');
}

} // verus!
