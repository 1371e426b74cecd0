//! Text as a sequence of characters: classes of characters, trimming,
//! splitting and the passage between `&str`, `String` and `Vec<char>`.
use vstd::prelude::*;
use vstd::slice::slice_subrange;
use vstd::slice::slice_to_vec;

verus! {

/// `String::push` appends the given character to the end of the string.
pub assume_specification[ String::push ](s: &mut String, c: char)
    ensures
        final(s)@ == old(s)@.push(c),
;

/// Unicode's `White_Space` property.
pub open spec fn white(c: char) -> bool {
    let n = c as u32;
    ||| 0x09 <= n <= 0x0d
    ||| n == 0x20
    ||| n == 0x85
    ||| n == 0xa0
    ||| n == 0x1680
    ||| 0x2000 <= n <= 0x200a
    ||| n == 0x2028
    ||| n == 0x2029
    ||| n == 0x202f
    ||| n == 0x205f
    ||| n == 0x3000
}

/// Unicode's general category `Cc`.
pub open spec fn control(c: char) -> bool {
    let n = c as u32;
    n <= 0x1f || 0x7f <= n <= 0x9f
}

/// The upper-case form of an ASCII letter; every other character is itself.
pub open spec fn ascii_upper(c: char) -> char {
    if 'a' as u32 <= c as u32 <= 'z' as u32 {
        (c as u32 - 32) as char
    } else {
        c
    }
}

/// The lower-case form of an ASCII letter; every other character is itself.
pub open spec fn ascii_lower(c: char) -> char {
    if 'A' as u32 <= c as u32 <= 'Z' as u32 {
        (c as u32 + 32) as char
    } else {
        c
    }
}

pub open spec fn trim_start(s: Seq<char>) -> Seq<char>
    decreases s.len(),
{
    if s.len() > 0 && white(s[0]) {
        trim_start(s.drop_first())
    } else {
        s
    }
}

pub open spec fn trim_end(s: Seq<char>) -> Seq<char>
    decreases s.len(),
{
    if s.len() > 0 && white(s.last()) {
        trim_end(s.drop_last())
    } else {
        s
    }
}

/// `s` without the white space around it.
pub open spec fn trimmed(s: Seq<char>) -> Seq<char> {
    trim_end(trim_start(s))
}

/// The pieces of `s` between the occurrences of `sep`; there is always one.
pub open spec fn pieces(s: Seq<char>, sep: char) -> Seq<Seq<char>>
    decreases s.len(),
{
    if s.len() == 0 {
        seq![Seq::<char>::empty()]
    } else {
        extend_pieces(pieces(s.drop_last(), sep), s.last(), sep)
    }
}

/// The pieces after one more character has been read.
pub open spec fn extend_pieces(done: Seq<Seq<char>>, c: char, sep: char) -> Seq<Seq<char>> {
    if c == sep {
        done.push(Seq::<char>::empty())
    } else {
        done.update(done.len() - 1, done.last().push(c))
    }
}

/// At most `n` pieces: once there are `n`, the last one takes all that is left.
pub open spec fn first_pieces(s: Seq<char>, n: nat, sep: char) -> Seq<Seq<char>>
    decreases s.len(),
{
    if s.len() == 0 {
        seq![Seq::<char>::empty()]
    } else {
        let done = first_pieces(s.drop_last(), n, sep);
        if done.len() < n {
            extend_pieces(done, s.last(), sep)
        } else {
            done.update(done.len() - 1, done.last().push(s.last()))
        }
    }
}

/// The characters of a vector of vectors.
pub open spec fn views(v: Seq<Vec<char>>) -> Seq<Seq<char>> {
    Seq::new(v.len(), |i: int| v[i]@)
}

/// The characters of a vector of strings.
pub open spec fn string_views(v: Seq<String>) -> Seq<Seq<char>> {
    Seq::new(v.len(), |i: int| v[i]@)
}

pub fn is_white(c: char) -> (r: bool)
    ensures
        r == white(c),
{
    let n: u32 = c as u32;
    (0x09 <= n && n <= 0x0d) || n == 0x20 || n == 0x85 || n == 0xa0 || n == 0x1680 || (0x2000 <= n
        && n <= 0x200a) || n == 0x2028 || n == 0x2029 || n == 0x202f || n == 0x205f || n == 0x3000
}

pub fn is_control(c: char) -> (r: bool)
    ensures
        r == control(c),
{
    let n: u32 = c as u32;
    n <= 0x1f || (0x7f <= n && n <= 0x9f)
}

/// The characters of a string.
pub fn to_chars(s: &str) -> (r: Vec<char>)
    ensures
        r@ == s@,
{
    let mut r: Vec<char> = Vec::new();
    for c in it: s.chars()
        invariant
            r@ == it.seq().take(it.index() as int),
            it.seq() == s@,
    {
        r.push(c);
        assert(it.seq().take(it.index() as int + 1) =~= it.seq().take(it.index() as int).push(c));
    }
    assert(s@.take(s@.len() as int) =~= s@);
    r
}

/// The string that the characters make.
pub fn to_text(s: &[char]) -> (r: String)
    ensures
        r@ == s@,
{
    let mut r = String::new();
    let mut i: usize = 0;
    while i < s.len()
        invariant
            i <= s@.len(),
            r@ == s@.take(i as int),
        decreases s@.len() - i,
    {
        r.push(s[i]);
        i += 1;
        assert(s@.take(i as int) =~= s@.take(i - 1).push(s@[i - 1]));
    }
    assert(s@.take(i as int) =~= s@);
    r
}

/// `s` without the white space around it.
pub fn trim(s: &[char]) -> (r: Vec<char>)
    ensures
        r@ == trimmed(s@),
{
    let mut start: usize = 0;
    let mut end: usize = s.len();
    assert(s@.subrange(0, end as int) =~= s@);
    while start < end && is_white(s[start])
        invariant
            start <= end == s@.len(),
            trim_start(s@) == trim_start(s@.subrange(start as int, end as int)),
        decreases end - start,
    {
        assert(s@.subrange(start as int, end as int).drop_first() =~= s@.subrange(
            start + 1,
            end as int,
        ));
        start += 1;
    }
    let ghost front = s@.subrange(start as int, end as int);
    assert(trim_start(s@) == front);
    while end > start && is_white(s[end - 1])
        invariant
            start <= end <= s@.len(),
            trimmed(s@) == trim_end(s@.subrange(start as int, end as int)),
        decreases end - start,
    {
        assert(s@.subrange(start as int, end as int).drop_last() =~= s@.subrange(
            start as int,
            end - 1,
        ));
        end -= 1;
    }
    slice_to_vec(slice_subrange(s, start, end))
}

/// The pieces of `s` between the occurrences of `sep`.
pub fn split(s: &[char], sep: char) -> (r: Vec<Vec<char>>)
    ensures
        views(r@) == pieces(s@, sep),
{
    let mut r: Vec<Vec<char>> = Vec::new();
    r.push(Vec::new());
    let mut i: usize = 0;
    assert(views(r@) =~= pieces(s@.take(0), sep));
    while i < s.len()
        invariant
            i <= s@.len(),
            r@.len() >= 1,
            views(r@) == pieces(s@.take(i as int), sep),
        decreases s@.len() - i,
    {
        let ghost before = r@;
        add_to_pieces(&mut r, s[i], sep);
        assert(s@.take(i + 1).drop_last() =~= s@.take(i as int));
        i += 1;
    }
    assert(s@.take(i as int) =~= s@);
    r
}

/// At most `n` pieces of `s`, of which the last takes all that is left.
pub fn splitn(s: &[char], n: usize, sep: char) -> (r: Vec<Vec<char>>)
    ensures
        views(r@) == first_pieces(s@, n as nat, sep),
{
    let mut r: Vec<Vec<char>> = Vec::new();
    r.push(Vec::new());
    let mut i: usize = 0;
    assert(views(r@) =~= first_pieces(s@.take(0), n as nat, sep));
    while i < s.len()
        invariant
            i <= s@.len(),
            r@.len() >= 1,
            views(r@) == first_pieces(s@.take(i as int), n as nat, sep),
        decreases s@.len() - i,
    {
        if r.len() < n {
            add_to_pieces(&mut r, s[i], sep);
        } else {
            add_to_last(&mut r, s[i]);
        }
        assert(s@.take(i + 1).drop_last() =~= s@.take(i as int));
        i += 1;
    }
    assert(s@.take(i as int) =~= s@);
    r
}

fn add_to_last(r: &mut Vec<Vec<char>>, c: char)
    requires
        old(r)@.len() >= 1,
    ensures
        final(r)@.len() == old(r)@.len(),
        views(final(r)@) == views(old(r)@).update(
            old(r)@.len() - 1,
            views(old(r)@).last().push(c),
        ),
{
    let ghost before = r@;
    match r.pop() {
        Some(last) => {
            let mut last = last;
            last.push(c);
            r.push(last);
        },
        None => {},
    }
    assert(views(r@) =~= views(before).update(before.len() - 1, views(before).last().push(c)));
}

fn add_to_pieces(r: &mut Vec<Vec<char>>, c: char, sep: char)
    requires
        old(r)@.len() >= 1,
    ensures
        final(r)@.len() >= 1,
        views(final(r)@) == extend_pieces(views(old(r)@), c, sep),
{
    let ghost before = r@;
    if c == sep {
        r.push(Vec::new());
        assert(views(r@) =~= views(before).push(Seq::empty()));
    } else {
        add_to_last(r, c);
    }
}

/// Whether the two hold the same characters.
pub fn same(a: &[char], b: &[char]) -> (r: bool)
    ensures
        r == (a@ == b@),
{
    if a.len() != b.len() {
        return false;
    }
    let mut i: usize = 0;
    while i < a.len()
        invariant
            i <= a@.len() == b@.len(),
            forall|k: int| 0 <= k < i ==> a@[k] == b@[k],
        decreases a@.len() - i,
    {
        if a[i] != b[i] {
            return false;
        }
        i += 1;
    }
    assert(a@ =~= b@);
    true
}

/// Whether `s` begins with `prefix`.
pub fn starts_with(s: &[char], prefix: &[char]) -> (r: bool)
    ensures
        r == prefix@.is_prefix_of(s@),
{
    if prefix.len() > s.len() {
        return false;
    }
    let head = slice_subrange(s, 0, prefix.len());
    same(prefix, head)
}

/// `needle` stands in `s` at place `at`.
pub open spec fn occurs_at(s: Seq<char>, needle: Seq<char>, at: int) -> bool {
    0 <= at && at + needle.len() <= s.len() && s.subrange(at, at + needle.len()) == needle
}

/// `needle` stands somewhere in `s`.
pub open spec fn occurs_in(s: Seq<char>, needle: Seq<char>) -> bool {
    exists|at: int| occurs_at(s, needle, at)
}

/// Whether `needle` stands somewhere in `s`.
pub fn contains(s: &[char], needle: &[char]) -> (r: bool)
    ensures
        r == occurs_in(s@, needle@),
{
    if needle.len() > s.len() {
        return false;
    }
    if needle.len() == 0 {
        assert(s@.subrange(0, 0) =~= needle@);
        assert(occurs_at(s@, needle@, 0));
        return true;
    }
    let mut at: usize = 0;
    while at <= s.len() - needle.len()
        invariant
            1 <= needle@.len() <= s@.len(),
            at <= s@.len() - needle@.len() + 1,
            forall|k: int| 0 <= k < at ==> !occurs_at(s@, needle@, k),
        decreases s@.len() - needle@.len() + 1 - at,
    {
        let window = slice_subrange(s, at, at + needle.len());
        if same(window, needle) {
            assert(occurs_at(s@, needle@, at as int));
            return true;
        }
        at += 1;
    }
    false
}

/// `s` with each ASCII letter in lower case.
pub open spec fn lowered(s: Seq<char>) -> Seq<char> {
    s.map_values(|c: char| ascii_lower(c))
}

/// `s` with each ASCII letter in upper case.
pub open spec fn raised(s: Seq<char>) -> Seq<char> {
    s.map_values(|c: char| ascii_upper(c))
}

fn lower_char(c: char) -> (r: char)
    ensures
        r == ascii_lower(c),
{
    if 'A' <= c && c <= 'Z' {
        ((c as u8) + 32) as char
    } else {
        c
    }
}

fn upper_char(c: char) -> (r: char)
    ensures
        r == ascii_upper(c),
{
    if 'a' <= c && c <= 'z' {
        ((c as u8) - 32) as char
    } else {
        c
    }
}

/// `s` with each ASCII letter in lower case.
pub fn lower(s: &[char]) -> (r: Vec<char>)
    ensures
        r@ == lowered(s@),
{
    let mut r: Vec<char> = Vec::new();
    let mut i: usize = 0;
    while i < s.len()
        invariant
            i <= s@.len(),
            r@ =~= lowered(s@.take(i as int)),
        decreases s@.len() - i,
    {
        r.push(lower_char(s[i]));
        i += 1;
    }
    assert(s@.take(i as int) =~= s@);
    r
}

/// `s` with each ASCII letter in upper case.
pub fn upper(s: &[char]) -> (r: Vec<char>)
    ensures
        r@ == raised(s@),
{
    let mut r: Vec<char> = Vec::new();
    let mut i: usize = 0;
    while i < s.len()
        invariant
            i <= s@.len(),
            r@ =~= raised(s@.take(i as int)),
        decreases s@.len() - i,
    {
        r.push(upper_char(s[i]));
        i += 1;
    }
    assert(s@.take(i as int) =~= s@);
    r
}

/// Whether `text` stands somewhere in `s`.
pub fn contains_text(s: &[char], text: &str) -> (r: bool)
    ensures
        r == occurs_in(s@, text@),
{
    let needle = to_chars(text);
    contains(s, needle.as_slice())
}

/// Whether `s` is `text`.
pub fn is_text(s: &[char], text: &str) -> (r: bool)
    ensures
        r == (s@ == text@),
{
    let other = to_chars(text);
    same(s, other.as_slice())
}

/// Appends the characters of `text`.
pub fn push_text(out: &mut Vec<char>, text: &str)
    ensures
        final(out)@ == old(out)@ + text@,
{
    let mut more = to_chars(text);
    out.append(&mut more);
}

/// `s` without its control characters.
pub open spec fn printable(s: Seq<char>) -> Seq<char> {
    s.filter(|c: char| !control(c))
}

/// `s` without its control characters.
pub fn strip_control(s: &[char]) -> (r: Vec<char>)
    ensures
        r@ == printable(s@),
{
    let mut r: Vec<char> = Vec::new();
    let mut i: usize = 0;
    let ghost keep = |c: char| !control(c);
    assert(s@.take(0).filter(keep) =~= r@) by {
        reveal(Seq::filter);
    }
    while i < s.len()
        invariant
            i <= s@.len(),
            keep == (|c: char| !control(c)),
            r@ == s@.take(i as int).filter(keep),
        decreases s@.len() - i,
    {
        assert(s@.take(i + 1).drop_last() =~= s@.take(i as int));
        proof {
            reveal(Seq::filter);
        }
        if !is_control(s[i]) {
            r.push(s[i]);
        }
        i += 1;
    }
    assert(s@.take(i as int) =~= s@);
    r
}

/// The pieces are never none.
pub proof fn lemma_pieces_some(s: Seq<char>, sep: char)
    ensures
        pieces(s, sep).len() >= 1,
    decreases s.len(),
{
    if s.len() > 0 {
        lemma_pieces_some(s.drop_last(), sep);
    }
}

/// A text without the separator is one piece.
pub proof fn lemma_pieces_plain(s: Seq<char>, sep: char)
    requires
        !s.contains(sep),
    ensures
        pieces(s, sep) == seq![s],
    decreases s.len(),
{
    if s.len() > 0 {
        assert(!s.drop_last().contains(sep)) by {
            if s.drop_last().contains(sep) {
                let k = s.drop_last().index_of(sep);
                assert(s[k] == sep);
            }
        }
        lemma_pieces_plain(s.drop_last(), sep);
        assert(s[s.len() - 1] == s.last());
        assert(s.drop_last().push(s.last()) =~= s);
        assert(pieces(s, sep) =~= seq![s]);
    } else {
        assert(s =~= Seq::<char>::empty());
    }
}

/// No piece holds the separator.
pub proof fn lemma_pieces_clean(s: Seq<char>, sep: char)
    ensures
        forall|i: int| 0 <= i < pieces(s, sep).len() ==> !(#[trigger] pieces(s, sep)[i]).contains(sep),
    decreases s.len(),
{
    if s.len() > 0 {
        let done = pieces(s.drop_last(), sep);
        lemma_pieces_some(s.drop_last(), sep);
        lemma_pieces_clean(s.drop_last(), sep);
        assert forall|i: int| 0 <= i < pieces(s, sep).len() implies !(#[trigger] pieces(
            s,
            sep,
        )[i]).contains(sep) by {
            let piece = pieces(s, sep)[i];
            if piece.contains(sep) {
                let k = piece.index_of(sep);
                assert(piece[k] == sep);
                if i < done.len() {
                    assert(!done[i].contains(sep));
                    if piece != done[i] {
                        assert(piece == done[i].push(s.last()));
                        if k < done[i].len() {
                            assert(done[i][k] == sep);
                        }
                    }
                }
            }
        }
    }
}

/// What follows a separator at the end of a text is split on its own.
pub proof fn lemma_pieces_after(a: Seq<char>, b: Seq<char>, sep: char)
    requires
        pieces(a, sep).last().len() == 0,
    ensures
        pieces(a + b, sep) == pieces(a, sep).drop_last() + pieces(b, sep),
    decreases b.len(),
{
    lemma_pieces_some(a, sep);
    lemma_pieces_some(b, sep);
    if b.len() == 0 {
        assert(a + b =~= a);
        assert(pieces(a, sep).last() =~= Seq::<char>::empty());
        assert(pieces(a, sep) =~= pieces(a, sep).drop_last() + pieces(b, sep));
    } else {
        lemma_pieces_after(a, b.drop_last(), sep);
        lemma_pieces_some(b.drop_last(), sep);
        assert((a + b).drop_last() =~= a + b.drop_last());
        assert((a + b).last() == b.last());
        assert(pieces(a + b, sep) =~= pieces(a, sep).drop_last() + pieces(b, sep));
    }
}

/// Splitting two texts that the separator joins.
pub proof fn lemma_pieces_joined(a: Seq<char>, b: Seq<char>, sep: char)
    ensures
        pieces(a.push(sep) + b, sep) == pieces(a, sep) + pieces(b, sep),
    decreases b.len(),
{
    lemma_pieces_some(a, sep);
    lemma_pieces_some(b, sep);
    if b.len() == 0 {
        assert(a.push(sep) + b =~= a.push(sep));
        assert(a.push(sep).drop_last() =~= a);
        assert(pieces(a.push(sep), sep) =~= pieces(a, sep) + pieces(b, sep));
    } else {
        lemma_pieces_joined(a, b.drop_last(), sep);
        lemma_pieces_some(b.drop_last(), sep);
        assert((a.push(sep) + b).drop_last() =~= a.push(sep) + b.drop_last());
        assert(pieces(a.push(sep) + b, sep) =~= pieces(a, sep) + pieces(b, sep));
    }
}

/// The first of at most `n` pieces ends at the first separator.
pub proof fn lemma_first_pieces_joined(a: Seq<char>, b: Seq<char>, n: nat, sep: char)
    requires
        !a.contains(sep),
        n >= 2,
    ensures
        first_pieces(a.push(sep) + b, n, sep) == seq![a] + first_pieces(b, (n - 1) as nat, sep),
    decreases b.len(),
{
    lemma_first_pieces_some(b, (n - 1) as nat, sep);
    if b.len() == 0 {
        lemma_first_pieces_plain(a, n, sep);
        assert(a.push(sep) + b =~= a.push(sep));
        assert(a.push(sep).drop_last() =~= a);
        assert(first_pieces(a.push(sep), n, sep) =~= seq![a] + first_pieces(b, (n - 1) as nat, sep));
    } else {
        lemma_first_pieces_joined(a, b.drop_last(), n, sep);
        lemma_first_pieces_some(b.drop_last(), (n - 1) as nat, sep);
        assert((a.push(sep) + b).drop_last() =~= a.push(sep) + b.drop_last());
        assert(first_pieces(a.push(sep) + b, n, sep) =~= seq![a] + first_pieces(
            b,
            (n - 1) as nat,
            sep,
        ));
    }
}

/// There is at least one piece, and at most `n`.
pub proof fn lemma_first_pieces_some(s: Seq<char>, n: nat, sep: char)
    ensures
        first_pieces(s, n, sep).len() >= 1,
        n >= 1 ==> first_pieces(s, n, sep).len() <= n,
    decreases s.len(),
{
    if s.len() > 0 {
        lemma_first_pieces_some(s.drop_last(), n, sep);
    }
}

/// A text without the separator is one piece.
pub proof fn lemma_first_pieces_plain(s: Seq<char>, n: nat, sep: char)
    requires
        !s.contains(sep),
    ensures
        first_pieces(s, n, sep) == seq![s],
    decreases s.len(),
{
    if s.len() > 0 {
        assert(!s.drop_last().contains(sep)) by {
            if s.drop_last().contains(sep) {
                let k = s.drop_last().index_of(sep);
                assert(s[k] == sep);
            }
        }
        lemma_first_pieces_plain(s.drop_last(), n, sep);
        assert(s[s.len() - 1] == s.last());
        assert(s.drop_last().push(s.last()) =~= s);
        assert(first_pieces(s, n, sep) =~= seq![s]);
    } else {
        assert(s =~= Seq::<char>::empty());
    }
}

/// One piece alone holds the whole text.
pub proof fn lemma_first_pieces_one(s: Seq<char>, sep: char)
    ensures
        first_pieces(s, 1, sep) == seq![s],
    decreases s.len(),
{
    if s.len() > 0 {
        lemma_first_pieces_one(s.drop_last(), sep);
        assert(s.drop_last().push(s.last()) =~= s);
        assert(first_pieces(s, 1, sep) =~= seq![s]);
    } else {
        assert(s =~= Seq::<char>::empty());
    }
}

/// A text that neither begins nor ends with white space is its own trimmed form.
pub proof fn lemma_trimmed_tight(s: Seq<char>)
    requires
        s.len() > 0,
        !white(s[0]),
        !white(s.last()),
    ensures
        trimmed(s) == s,
{
}

/// The trimmed form neither begins nor ends with white space, and it is a part
/// of the text.
pub proof fn lemma_trimmed_edges(s: Seq<char>)
    ensures
        trimmed(s).len() > 0 ==> !white(trimmed(s)[0]) && !white(trimmed(s).last()),
        forall|c: char| trimmed(s).contains(c) ==> s.contains(c),
{
    lemma_trim_start(s);
    lemma_trim_end(trim_start(s));
}

proof fn lemma_trim_start(s: Seq<char>)
    ensures
        trim_start(s).len() > 0 ==> !white(trim_start(s)[0]),
        forall|c: char| trim_start(s).contains(c) ==> s.contains(c),
    decreases s.len(),
{
    if s.len() > 0 && white(s[0]) {
        lemma_trim_start(s.drop_first());
        assert forall|c: char| trim_start(s).contains(c) implies s.contains(c) by {
            assert(s.drop_first().contains(c));
            let k = s.drop_first().index_of(c);
            assert(s[k + 1] == c);
        }
    }
}

proof fn lemma_trim_end(s: Seq<char>)
    ensures
        trim_end(s).len() > 0 ==> !white(trim_end(s).last()) && trim_end(s)[0] == s[0],
        forall|c: char| trim_end(s).contains(c) ==> s.contains(c),
    decreases s.len(),
{
    if s.len() > 0 && white(s.last()) {
        lemma_trim_end(s.drop_last());
        assert forall|c: char| trim_end(s).contains(c) implies s.contains(c) by {
            assert(s.drop_last().contains(c));
            let k = s.drop_last().index_of(c);
            assert(s[k] == c);
        }
    }
}

} // verus!
