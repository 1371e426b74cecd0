//! Trimming, parting and cleaning of texts.
use crate::chars;
use vstd::prelude::*;

verus! {

/// Nothing but white space.
pub open spec fn all_white(s: Seq<char>) -> bool {
    forall|i: int| 0 <= i < s.len() ==> chars::white(#[trigger] s[i])
}

/// Nothing, or a text with no white space at either end.
pub open spec fn tight(s: Seq<char>) -> bool {
    s.len() > 0 ==> !chars::white(s[0]) && !chars::white(s.last())
}

/// The texts, with a separator between each two of them.
pub open spec fn joined(parts: Seq<Seq<char>>, sep: char) -> Seq<char>
    decreases parts.len(),
{
    if parts.len() == 0 {
        Seq::empty()
    } else if parts.len() == 1 {
        parts[0]
    } else {
        parts[0].push(sep) + joined(parts.skip(1), sep)
    }
}

/// No text holds the separator.
pub open spec fn none_holds(parts: Seq<Seq<char>>, sep: char) -> bool {
    forall|i: int| 0 <= i < parts.len() ==> !(#[trigger] parts[i]).contains(sep)
}

/// White space is the tabulator and the line ends, the blank, and the blanks and line
/// ends that Unicode has beyond ASCII; no letter, digit or mark is.
pub proof fn law_white_space(c: char)
    ensures
        chars::white(c) <==> seq![
            0x09u32, 0x0a, 0x0b, 0x0c, 0x0d, 0x20, 0x85, 0xa0, 0x1680, 0x2000, 0x2001, 0x2002,
            0x2003, 0x2004, 0x2005, 0x2006, 0x2007, 0x2008, 0x2009, 0x200a, 0x2028, 0x2029, 0x202f,
            0x205f, 0x3000,
        ].contains(c as u32),
{
    let all = seq![
        0x09u32, 0x0a, 0x0b, 0x0c, 0x0d, 0x20, 0x85, 0xa0, 0x1680, 0x2000, 0x2001, 0x2002, 0x2003,
        0x2004, 0x2005, 0x2006, 0x2007, 0x2008, 0x2009, 0x200a, 0x2028, 0x2029, 0x202f, 0x205f,
        0x3000,
    ];
    let n = c as u32;
    if 0x09 <= n <= 0x0d {
        assert(all[n - 0x09] == n);
    } else if 0x2000 <= n <= 0x200a {
        assert(all[9 + n - 0x2000] == n);
    } else if chars::white(c) {
        assert(all[5] == 0x20 && all[6] == 0x85 && all[7] == 0xa0 && all[8] == 0x1680 && all[20]
            == 0x2028 && all[21] == 0x2029 && all[22] == 0x202f && all[23] == 0x205f && all[24]
            == 0x3000);
    }
}

proof fn lemma_trim_start_around(before: Seq<char>, s: Seq<char>)
    requires
        all_white(before),
        s.len() > 0 ==> !chars::white(s[0]),
    ensures
        chars::trim_start(before + s) == s,
    decreases before.len(),
{
    if before.len() > 0 {
        assert((before + s).drop_first() =~= before.drop_first() + s);
        assert(chars::white(before[0]));
        assert(all_white(before.drop_first())) by {
            assert forall|i: int| 0 <= i < before.drop_first().len() implies chars::white(
                #[trigger] before.drop_first()[i],
            ) by {
                assert(chars::white(before[i + 1]));
            }
        }
        lemma_trim_start_around(before.drop_first(), s);
    } else {
        assert(before + s =~= s);
    }
}

proof fn lemma_trim_end_around(s: Seq<char>, after: Seq<char>)
    requires
        all_white(after),
        s.len() > 0 ==> !chars::white(s.last()),
    ensures
        chars::trim_end(s + after) == s,
    decreases after.len(),
{
    if after.len() > 0 {
        assert((s + after).drop_last() =~= s + after.drop_last());
        assert((s + after).last() == after[after.len() - 1]);
        assert(all_white(after.drop_last())) by {
            assert forall|i: int| 0 <= i < after.drop_last().len() implies chars::white(
                #[trigger] after.drop_last()[i],
            ) by {
                assert(chars::white(after[i]));
            }
        }
        lemma_trim_end_around(s, after.drop_last());
    } else {
        assert(s + after =~= s);
    }
}

/// Trimming takes away the white space around a text, all of it, and nothing else.
pub proof fn law_trimming(before: Seq<char>, s: Seq<char>, after: Seq<char>)
    requires
        all_white(before),
        all_white(after),
        tight(s),
    ensures
        chars::trimmed(before + s + after) == s,
{
    if s.len() > 0 {
        assert(before + s + after =~= before + (s + after));
        lemma_trim_start_around(before, s + after);
        lemma_trim_end_around(s, after);
    } else {
        let all = before + s + after;
        assert(all_white(all)) by {
            assert forall|i: int| 0 <= i < all.len() implies chars::white(#[trigger] all[i]) by {
                if i < before.len() {
                    assert(all[i] == before[i]);
                } else {
                    assert(all[i] == after[i - before.len()]);
                }
            }
        }
        assert(all + s =~= all);
        lemma_trim_start_around(all, s);
        assert(s =~= Seq::<char>::empty());
    }
}

/// Parting a text is the inverse of joining: texts that do not hold the separator are
/// what the joined text is parted into, however many there are and also if some are
/// empty.
pub proof fn law_parting(parts: Seq<Seq<char>>, sep: char)
    requires
        parts.len() > 0,
        none_holds(parts, sep),
    ensures
        chars::pieces(joined(parts, sep), sep) == parts,
    decreases parts.len(),
{
    chars::lemma_pieces_plain(parts[0], sep);
    if parts.len() == 1 {
        assert(parts =~= seq![parts[0]]);
    } else {
        let rest = parts.skip(1);
        assert forall|i: int| 0 <= i < rest.len() implies !(#[trigger] rest[i]).contains(sep) by {
            assert(rest[i] == parts[i + 1]);
        }
        law_parting(rest, sep);
        chars::lemma_pieces_joined(parts[0], joined(rest, sep), sep);
        assert(parts =~= seq![parts[0]] + rest);
    }
}

/// Parting a text into at most so many parts leaves the last of them as it is, with all
/// the separators that it holds; where there are fewer parts, none is left joined.
pub proof fn law_first_parts(parts: Seq<Seq<char>>, rest: Seq<char>, n: nat, sep: char)
    requires
        none_holds(parts, sep),
        parts.len() < n,
        parts.len() + 1 < n ==> !rest.contains(sep),
    ensures
        chars::first_pieces(joined(parts.push(rest), sep), n, sep) == parts.push(rest),
    decreases parts.len(),
{
    let all = parts.push(rest);
    if parts.len() == 0 {
        if n == 1 {
            chars::lemma_first_pieces_one(rest, sep);
        } else {
            chars::lemma_first_pieces_plain(rest, n, sep);
        }
        assert(all =~= seq![rest]);
    } else {
        let tail = parts.skip(1);
        assert(!parts[0].contains(sep));
        assert forall|i: int| 0 <= i < tail.len() implies !(#[trigger] tail[i]).contains(sep) by {
            assert(tail[i] == parts[i + 1]);
        }
        law_first_parts(tail, rest, (n - 1) as nat, sep);
        assert(all.skip(1) =~= tail.push(rest));
        chars::lemma_first_pieces_joined(parts[0], joined(tail.push(rest), sep), n, sep);
        assert(all =~= seq![parts[0]] + tail.push(rest));
    }
}

/// A text is shown character by character: those below the blank and those from 0x7f to
/// 0x9f are left out, and all others stay, in their order.
pub proof fn law_shown_characters(a: Seq<char>, c: char)
    ensures
        chars::printable(Seq::empty()) == Seq::<char>::empty(),
        (c as u32) < 0x20 || 0x7f <= (c as u32) <= 0x9f ==> chars::printable(a.push(c))
            == chars::printable(a),
        0x20 <= (c as u32) < 0x7f || (c as u32) > 0x9f ==> chars::printable(a.push(c))
            == chars::printable(a).push(c),
{
    reveal(Seq::filter);
    assert(a.push(c).drop_last() =~= a);
    assert(chars::printable(Seq::empty()) =~= Seq::<char>::empty());
}

/// The first of the pieces is what stands before the first separator.
pub proof fn lemma_first_piece(s: Seq<char>, sep: char)
    ensures
        ({
            let p = chars::pieces(s, sep)[0];
            &&& p.len() <= s.len()
            &&& p == s.take(p.len() as int)
            &&& !p.contains(sep)
            &&& p.len() == s.len() || s[p.len() as int] == sep
            &&& p.len() == s.len() <==> chars::pieces(s, sep).len() == 1
        }),
    decreases s.len(),
{
    chars::lemma_pieces_clean(s, sep);
    chars::lemma_pieces_some(s, sep);
    if s.len() > 0 {
        let init = s.drop_last();
        lemma_first_piece(init, sep);
        chars::lemma_pieces_some(init, sep);
        let p = chars::pieces(init, sep)[0];
        let q = chars::pieces(s, sep)[0];
        assert(s.take(p.len() as int) =~= init.take(p.len() as int));
        if s.last() != sep && chars::pieces(init, sep).len() == 1 {
            assert(q =~= s);
        }
        assert(q =~= s.take(q.len() as int));
    } else {
        assert(s.take(0) =~= Seq::<char>::empty());
    }
}

} // verus!
