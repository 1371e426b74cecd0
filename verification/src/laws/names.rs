//! Names of files that come from the network.
use crate::chars;
use crate::ipmsg_core::filename;
use crate::laws::texts;
use vstd::prelude::*;

verus! {

/// The names that stand for devices, in upper case.
pub open spec fn device_names() -> Seq<Seq<char>> {
    seq![
        seq!['C', 'O', 'N'],
        seq!['P', 'R', 'N'],
        seq!['A', 'U', 'X'],
        seq!['N', 'U', 'L'],
        seq!['C', 'O', 'M', '1'],
        seq!['C', 'O', 'M', '2'],
        seq!['C', 'O', 'M', '3'],
        seq!['C', 'O', 'M', '4'],
        seq!['C', 'O', 'M', '5'],
        seq!['C', 'O', 'M', '6'],
        seq!['C', 'O', 'M', '7'],
        seq!['C', 'O', 'M', '8'],
        seq!['C', 'O', 'M', '9'],
        seq!['L', 'P', 'T', '1'],
        seq!['L', 'P', 'T', '2'],
        seq!['L', 'P', 'T', '3'],
        seq!['L', 'P', 'T', '4'],
        seq!['L', 'P', 'T', '5'],
        seq!['L', 'P', 'T', '6'],
        seq!['L', 'P', 'T', '7'],
        seq!['L', 'P', 'T', '8'],
        seq!['L', 'P', 'T', '9'],
    ]
}

/// The text is this one, in upper or lower case.
pub open spec fn reads_as(s: Seq<char>, upper: Seq<char>) -> bool {
    &&& s.len() == upper.len()
    &&& forall|i: int|
        0 <= i < s.len() ==> (#[trigger] s[i] == upper[i] || ('A' <= upper[i] <= 'Z' && s[i] as u32
            == upper[i] as u32 + 32))
}

/// The text is the name of a device.
pub open spec fn names_device(s: Seq<char>) -> bool {
    exists|k: int| 0 <= k < 22 && reads_as(s, #[trigger] device_names()[k])
}

/// What stands before the first dot is the name of a device.
pub open spec fn device_before_dot(name: Seq<char>) -> bool {
    exists|n: int|
        {
            &&& 0 <= n <= name.len()
            &&& n == name.len() || name[n] == '.'
            &&& forall|i: int| 0 <= i < n ==> name[i] != '.'
            &&& #[trigger] names_device(name.take(n))
        }
}

/// A character that a name may hold: no control character, no separator of paths, and
/// not the colon.
pub open spec fn ordinary(c: char) -> bool {
    &&& 0x20 <= (c as u32) < 0x7f || (c as u32) > 0x9f
    &&& c != '/'
    &&& c != '\\'
    &&& c != ':'
}

proof fn lemma_device(s: Seq<char>)
    ensures
        filename::device(chars::raised(s)) <==> names_device(s),
{
    reveal_strlit("CON");
    reveal_strlit("PRN");
    reveal_strlit("AUX");
    reveal_strlit("NUL");
    reveal_strlit("COM");
    reveal_strlit("LPT");
    let up = chars::raised(s);
    let names = device_names();
    assert forall|k: int| 0 <= k < 22 implies (reads_as(s, #[trigger] names[k]) <==> up
        == names[k]) by {
        let n = names[k];
        assert(forall|i: int| 0 <= i < n.len() ==> !('a' <= #[trigger] n[i] <= 'z'));
        if reads_as(s, n) {
            assert forall|i: int| 0 <= i < s.len() implies up[i] == n[i] by {
                assert(s[i] == n[i] || ('A' <= n[i] <= 'Z' && s[i] as u32 == n[i] as u32 + 32));
            }
            assert(up =~= n);
        }
        if up == n {
            assert forall|i: int| 0 <= i < s.len() implies (#[trigger] s[i] == n[i] || ('A' <= n[i]
                <= 'Z' && s[i] as u32 == n[i] as u32 + 32)) by {
                assert(up[i] == chars::ascii_upper(s[i]));
            }
        }
    }
    if filename::device(up) {
        if up == "CON"@ {
            assert(up =~= names[0]);
        } else if up == "PRN"@ {
            assert(up =~= names[1]);
        } else if up == "AUX"@ {
            assert(up =~= names[2]);
        } else if up == "NUL"@ {
            assert(up =~= names[3]);
        } else {
            let d = up[3] as u32 - '1' as u32;
            let k = if up.take(3) == "COM"@ {
                4 + d
            } else {
                13 + d
            };
            assert(up.take(3)[0] == up[0] && up.take(3)[1] == up[1] && up.take(3)[2] == up[2]);
            assert(names[k].len() == 4);
            assert(names[k][3] == up[3]);
            assert(up =~= names[k]);
        }
    }
    if names_device(s) {
        let k = choose|k: int| 0 <= k < 22 && reads_as(s, #[trigger] names[k]);
        assert(up == names[k]);
        if k == 0 {
            assert(up =~= "CON"@);
        } else if k == 1 {
            assert(up =~= "PRN"@);
        } else if k == 2 {
            assert(up =~= "AUX"@);
        } else if k == 3 {
            assert(up =~= "NUL"@);
        } else if k < 13 {
            assert(up.take(3) =~= "COM"@);
        } else {
            assert(up.take(3) =~= "LPT"@);
        }
    }
}

/// A trimmed name is accepted as it is unless it is empty, stands for the directory or
/// its parent, holds a control character, a separator of paths or a colon, or begins
/// with the name of a device; no other name is refused.
pub proof fn law_names_accepted(name: Seq<char>)
    requires
        texts::tight(name),
    ensures
        filename::component_of(name) == if name.len() > 0 && name != seq!['.'] && name != seq![
            '.',
            '.',
        ] && (forall|i: int| 0 <= i < name.len() ==> ordinary(#[trigger] name[i]))
            && !device_before_dot(name) {
            Some(name)
        } else {
            None
        },
{
    reveal_strlit(".");
    reveal_strlit("..");
    assert("."@ =~= seq!['.']);
    assert(".."@ =~= seq!['.', '.']);
    let none = Seq::<char>::empty();
    texts::law_trimming(none, name, none);
    assert(none + name + none =~= name);
    assert(forall|c: char| ordinary(c) <==> !filename::path_breaking(c));
    let stem = chars::pieces(name, '.')[0];
    texts::lemma_first_piece(name, '.');
    lemma_device(stem);
    if names_device(stem) {
        assert forall|i: int| 0 <= i < stem.len() implies name[i] != '.' by {
            assert(stem[i] == name[i]);
        }
        assert(names_device(name.take(stem.len() as int)));
    }
    if device_before_dot(name) {
        let n = choose|n: int|
            {
                &&& 0 <= n <= name.len()
                &&& n == name.len() || name[n] == '.'
                &&& forall|i: int| 0 <= i < n ==> name[i] != '.'
                &&& #[trigger] names_device(name.take(n))
            };
        if n < stem.len() {
            assert(stem[n] == '.');
        }
        assert(n == stem.len());
    }
}

/// White space around a name makes no difference.
pub proof fn law_names_trimmed(before: Seq<char>, name: Seq<char>, after: Seq<char>)
    requires
        texts::all_white(before),
        texts::all_white(after),
        texts::tight(name),
    ensures
        filename::component_of(before + name + after) == filename::component_of(name),
{
    let none = Seq::<char>::empty();
    texts::law_trimming(before, name, after);
    texts::law_trimming(none, name, none);
    assert(none + name + none =~= name);
}

} // verus!
