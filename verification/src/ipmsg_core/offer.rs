//! Offers of files: how they are written into a message and read from one.
use crate::chars;
use crate::chars::{push_text, split, to_chars, to_text, trim};
use crate::ipmsg_core::packet;
use crate::ipmsg_core::protocol::{IPMSG_FILE_DIR, IPMSG_FILE_REGULAR};
use crate::number;
use crate::number::{parse_auto_radix, parse_hex_number, push_decimal, push_hexadecimal};
use vstd::prelude::*;

verus! {

/// A file or a folder on offer, as a message states it.
#[derive(Debug, Clone)]
pub struct Offer {
    pub file_id: u32,
    pub name: String,
    pub size: u64,
    pub is_dir: bool,
}

#[verifier::ext_equal]
pub struct OfferView {
    pub file_id: u32,
    pub name: Seq<char>,
    pub size: u64,
    pub is_dir: bool,
}

impl View for Offer {
    type V = OfferView;

    open spec fn view(&self) -> OfferView {
        OfferView {
            file_id: self.file_id,
            name: self.name@,
            size: self.size,
            is_dir: self.is_dir,
        }
    }
}

pub open spec fn offer_views(v: Seq<Offer>) -> Seq<OfferView> {
    v.map_values(|o: Offer| o@)
}

/// A name with each colon doubled.
pub open spec fn doubled_colons(name: Seq<char>) -> Seq<char>
    decreases name.len(),
{
    if name.len() == 0 {
        name
    } else if name.last() == ':' {
        doubled_colons(name.drop_last()).push(':').push(':')
    } else {
        doubled_colons(name.drop_last()).push(name.last())
    }
}

/// Doubles each colon in a name.
pub fn double_colons(name: &str) -> (r: String)
    ensures
        r@ == doubled_colons(name@),
{
    let s = to_chars(name);
    let mut out: Vec<char> = Vec::new();
    let mut i: usize = 0;
    assert(s@.take(0) =~= Seq::<char>::empty());
    while i < s.len()
        invariant
            i <= s@.len(),
            out@ == doubled_colons(s@.take(i as int)),
        decreases s@.len() - i,
    {
        assert(s@.take(i + 1).drop_last() =~= s@.take(i as int));
        if s[i] == ':' {
            out.push(':');
        }
        out.push(s[i]);
        i += 1;
    }
    assert(s@.take(i as int) =~= s@);
    to_text(out.as_slice())
}

/// What stands for a file or a folder in its attributes.
pub open spec fn attribute(is_dir: bool) -> u32 {
    if is_dir {
        IPMSG_FILE_DIR
    } else {
        IPMSG_FILE_REGULAR
    }
}

/// One offer, up to the mark that ends it: the number in decimal, the name, then
/// size, time and attributes in hexadecimal.
pub open spec fn item_text(o: OfferView, mtime: u64) -> Seq<char> {
    number::decimal(o.file_id as nat).push(':') + (o.name.push(':') + (number::hexadecimal(
        o.size as nat,
    ).push(':') + (number::hexadecimal(mtime as nat).push(':') + (number::hexadecimal(
        attribute(o.is_dir) as nat,
    ).push(':')))))
}

/// Writes an offer and the mark that ends it.
pub fn push_item(
    out: &mut Vec<char>,
    file_id: u32,
    name: &str,
    size: u64,
    mtime: u64,
    is_dir: bool,
)
    ensures
        final(out)@ == old(out)@ + item_text(
            OfferView { file_id, name: name@, size, is_dir },
            mtime,
        ).push('\x07'),
{
    push_decimal(out, file_id as u64);
    out.push(':');
    push_text(out, name);
    out.push(':');
    push_hexadecimal(out, size);
    out.push(':');
    push_hexadecimal(out, mtime);
    out.push(':');
    let attr: u32 = if is_dir {
        IPMSG_FILE_DIR
    } else {
        IPMSG_FILE_REGULAR
    };
    push_hexadecimal(out, attr as u64);
    out.push(':');
    out.push('\x07');
    assert(out@ =~= old(out)@ + item_text(
        OfferView { file_id, name: name@, size, is_dir },
        mtime,
    ).push('\x07'));
}

/// The offer that an item is, if it has enough fields. Size and attributes are in
/// hexadecimal; the number should be in decimal, but some clients write it otherwise.
pub open spec fn offer_in(item: Seq<char>) -> Option<OfferView> {
    let item = chars::trimmed(item);
    let parts = chars::pieces(item, ':');
    if item.len() == 0 || parts.len() < 5 {
        None
    } else {
        Some(
            OfferView {
                file_id: number::auto_radix(parts[0], u32::MAX as nat) as u32,
                name: parts[1],
                size: number::hex_number(parts[2], u64::MAX as nat) as u64,
                is_dir: number::hex_number(parts[4], u32::MAX as nat) % 0x100 == IPMSG_FILE_DIR,
            },
        )
    }
}

/// The offers among items.
pub open spec fn offers_among(items: Seq<Seq<char>>) -> Seq<OfferView>
    decreases items.len(),
{
    if items.len() == 0 {
        Seq::empty()
    } else {
        match offer_in(items.last()) {
            Some(o) => offers_among(items.drop_last()).push(o),
            None => offers_among(items.drop_last()),
        }
    }
}

/// The offers in the parts of a message behind its text.
pub open spec fn offers_in(parts: Seq<Seq<char>>) -> Seq<OfferView>
    decreases parts.len(),
{
    if parts.len() == 0 {
        Seq::empty()
    } else {
        offers_in(parts.drop_last()) + offers_among(chars::pieces(parts.last(), '\x07'))
    }
}

fn parse_item(item: &[char]) -> (r: Option<Offer>)
    ensures
        match offer_in(item@) {
            Some(o) => r is Some && r->0@ == o,
            None => r is None,
        },
{
    let item = trim(item);
    if item.len() == 0 {
        return None;
    }
    let parts = split(item.as_slice(), ':');
    assert(forall|i: int|
        0 <= i < parts@.len() ==> chars::pieces(item@, ':')[i] == (#[trigger] parts@[i])@);
    if parts.len() < 5 {
        return None;
    }
    let attr: u64 = parse_hex_number(parts[4].as_slice(), u32::MAX as u64);
    Some(
        Offer {
            file_id: parse_auto_radix(parts[0].as_slice(), u32::MAX as u64) as u32,
            name: to_text(parts[1].as_slice()),
            size: parse_hex_number(parts[2].as_slice(), u64::MAX),
            is_dir: attr % 0x100 == IPMSG_FILE_DIR as u64,
        },
    )
}

/// Reads the offers from the parts of a message behind its text.
pub fn parse_offers(parts: &Vec<String>) -> (r: Vec<Offer>)
    ensures
        offer_views(r@) == offers_in(chars::string_views(parts@)),
{
    let mut r: Vec<Offer> = Vec::new();
    let ghost all = chars::string_views(parts@);
    let mut i: usize = 0;
    assert(offer_views(r@) =~= offers_in(all.take(0)));
    while i < parts.len()
        invariant
            i <= parts@.len(),
            all == chars::string_views(parts@),
            offer_views(r@) == offers_in(all.take(i as int)),
        decreases parts@.len() - i,
    {
        let part = to_chars(parts[i].as_str());
        let items = split(part.as_slice(), '\x07');
        let ghost texts = chars::views(items@);
        assert(all.take(i + 1).drop_last() =~= all.take(i as int));
        assert(all.take(i + 1).last() == part@);
        let ghost before = offer_views(r@);
        let mut k: usize = 0;
        assert(texts.take(0) =~= Seq::<Seq<char>>::empty());
        assert(offer_views(r@) =~= before + offers_among(texts.take(0)));
        while k < items.len()
            invariant
                k <= items@.len(),
                texts == chars::views(items@),
                offer_views(r@) == before + offers_among(texts.take(k as int)),
            decreases items@.len() - k,
        {
            assert(texts.take(k + 1).drop_last() =~= texts.take(k as int));
            assert(texts.take(k + 1).last() == items@[k as int]@);
            if let Some(o) = parse_item(items[k].as_slice()) {
                let ghost list = r@;
                r.push(o);
                assert(offer_views(r@) =~= offer_views(list).push(o@));
                assert(offer_views(r@) =~= before + offers_among(texts.take(k + 1)));
            }
            k += 1;
        }
        assert(texts.take(k as int) =~= texts);
        i += 1;
    }
    assert(all.take(i as int) =~= all);
    r
}

/// Offers as a message carries them, each with its time.
pub open spec fn offers_text(list: Seq<(OfferView, u64)>) -> Seq<char>
    decreases list.len(),
{
    if list.len() == 0 {
        Seq::empty()
    } else {
        offers_text(list.drop_last()) + item_text(list.last().0, list.last().1).push('\x07')
    }
}

/// A name that the format can carry.
pub open spec fn carriable(name: Seq<char>) -> bool {
    !name.contains(':') && !name.contains('\0') && !name.contains('\x07')
}

/// The name in an offer that is read holds no colon: a name that was written with
/// doubled colons is cut at the first of them.
pub proof fn law_read_name_has_no_colon(item: Seq<char>)
    ensures
        offer_in(item) matches Some(o) ==> !o.name.contains(':'),
{
    chars::lemma_pieces_clean(chars::trimmed(item), ':');
}

/// A name without colons is written as it is.
pub proof fn law_plain_name_kept(name: Seq<char>)
    requires
        !name.contains(':'),
    ensures
        doubled_colons(name) == name,
    decreases name.len(),
{
    if name.len() > 0 {
        assert(!name.drop_last().contains(':')) by {
            if name.drop_last().contains(':') {
                let k = name.drop_last().index_of(':');
                assert(name[k] == ':');
            }
        }
        law_plain_name_kept(name.drop_last());
        assert(name[name.len() - 1] == name.last());
        assert(name.drop_last().push(name.last()) =~= name);
    }
}

/// A number that is written in decimal is read back, though the radix is guessed.
pub proof fn lemma_decimal_read(n: nat, max: nat)
    requires
        n <= max,
    ensures
        number::auto_radix(number::decimal(n), max) == n,
{
    let s = number::decimal(n);
    number::lemma_digits_plain(n, 10);
    number::law_number_round_trip(n, 10);
    assert(s[s.len() - 1] == s.last());
    chars::lemma_trimmed_tight(s);
    lemma_decimal_digits(n);
}

/// A number that is written in hexadecimal is read back.
pub proof fn lemma_hex_read(n: nat, max: nat)
    requires
        n <= max,
    ensures
        number::hex_number(number::hexadecimal(n), max) == n,
{
    let s = number::hexadecimal(n);
    number::lemma_digits_plain(n, 16);
    number::law_number_round_trip(n, 16);
    assert(s[s.len() - 1] == s.last());
    chars::lemma_trimmed_tight(s);
}

proof fn lemma_decimal_digits(n: nat)
    ensures
        forall|i: int|
            0 <= i < number::digits(n, 10).len() ==> !number::hex_letter(
                #[trigger] number::digits(n, 10)[i],
            ),
{
    number::lemma_digits_shape(n, 10);
}

/// No separator stands in a written number.
pub proof fn lemma_digits_lack(n: nat, radix: nat)
    requires
        radix == 10 || radix == 16,
    ensures
        !number::digits(n, radix).contains(':'),
        !number::digits(n, radix).contains('\0'),
        !number::digits(n, radix).contains('\x07'),
{
    number::lemma_digits_plain(n, radix);
    let s = number::digits(n, radix);
    assert(forall|i: int| 0 <= i < s.len() ==> s[i] != ':' && s[i] != '\0' && s[i] != '\x07');
}

/// An offer is read back from its item, which holds no separator of items.
proof fn lemma_item(o: OfferView, mtime: u64)
    requires
        carriable(o.name),
    ensures
        offer_in(item_text(o, mtime)) == Some(o),
        !item_text(o, mtime).contains('\0'),
        !item_text(o, mtime).contains('\x07'),
{
    let id = number::decimal(o.file_id as nat);
    let size = number::hexadecimal(o.size as nat);
    let time = number::hexadecimal(mtime as nat);
    let attr = number::hexadecimal(attribute(o.is_dir) as nat);
    lemma_digits_lack(o.file_id as nat, 10);
    lemma_digits_lack(o.size as nat, 16);
    lemma_digits_lack(mtime as nat, 16);
    lemma_digits_lack(attribute(o.is_dir) as nat, 16);
    lemma_decimal_read(o.file_id as nat, u32::MAX as nat);
    lemma_hex_read(o.size as nat, u64::MAX as nat);
    lemma_hex_read(attribute(o.is_dir) as nat, u32::MAX as nat);
    let r4 = attr.push(':');
    let r3 = time.push(':') + r4;
    let r2 = size.push(':') + r3;
    let r1 = o.name.push(':') + r2;
    let item = item_text(o, mtime);
    assert(r4 =~= attr.push(':') + Seq::<char>::empty());
    chars::lemma_pieces_joined(attr, Seq::empty(), ':');
    chars::lemma_pieces_joined(time, r4, ':');
    chars::lemma_pieces_joined(size, r3, ':');
    chars::lemma_pieces_joined(o.name, r2, ':');
    chars::lemma_pieces_joined(id, r1, ':');
    chars::lemma_pieces_plain(attr, ':');
    chars::lemma_pieces_plain(time, ':');
    chars::lemma_pieces_plain(size, ':');
    chars::lemma_pieces_plain(o.name, ':');
    chars::lemma_pieces_plain(id, ':');
    let parts = chars::pieces(item, ':');
    assert(parts =~= seq![id, o.name, size, time, attr] + chars::pieces(Seq::empty(), ':'));
    number::lemma_digits_plain(o.file_id as nat, 10);
    assert(item[0] == id[0]);
    assert(item.last() == ':');
    chars::lemma_trimmed_tight(item);
    lemma_item_lacks(id, o.name, size, time, attr, '\0');
    lemma_item_lacks(id, o.name, size, time, attr, '\x07');
}

proof fn lemma_item_lacks(
    a: Seq<char>,
    b: Seq<char>,
    c: Seq<char>,
    d: Seq<char>,
    e: Seq<char>,
    sep: char,
)
    requires
        sep != ':',
        !a.contains(sep),
        !b.contains(sep),
        !c.contains(sep),
        !d.contains(sep),
        !e.contains(sep),
    ensures
        !(a.push(':') + (b.push(':') + (c.push(':') + (d.push(':') + e.push(':'))))).contains(sep),
{
    let s4 = e.push(':');
    let s3 = d.push(':') + s4;
    let s2 = c.push(':') + s3;
    let s1 = b.push(':') + s2;
    lemma_lacks(e, Seq::empty(), sep);
    assert(s4 =~= e.push(':') + Seq::<char>::empty());
    lemma_lacks(d, s4, sep);
    lemma_lacks(c, s3, sep);
    lemma_lacks(b, s2, sep);
    lemma_lacks(a, s1, sep);
}

proof fn lemma_lacks(a: Seq<char>, b: Seq<char>, sep: char)
    requires
        sep != ':',
        !a.contains(sep),
        !b.contains(sep),
    ensures
        !(a.push(':') + b).contains(sep),
{
    let s = a.push(':') + b;
    assert(forall|i: int| 0 <= i < a.len() ==> s[i] == a[i]);
    assert(forall|i: int| a.len() < i < s.len() ==> s[i] == b[i - a.len() - 1]);
}

proof fn lemma_offers_text(list: Seq<(OfferView, u64)>)
    requires
        forall|i: int|
            0 <= i < list.len() ==> carriable((#[trigger] list[i]).0.name),
    ensures
        chars::pieces(offers_text(list), '\x07').last().len() == 0,
        offers_among(chars::pieces(offers_text(list), '\x07')) == list.map_values(
            |p: (OfferView, u64)| p.0,
        ),
        offers_among(chars::pieces(offers_text(list), '\x07').drop_last()) == list.map_values(
            |p: (OfferView, u64)| p.0,
        ),
        !offers_text(list).contains('\0'),
        list.len() > 0 ==> offers_text(list).len() > 0,
    decreases list.len(),
{
    let offers = list.map_values(|p: (OfferView, u64)| p.0);
    let parts = chars::pieces(offers_text(list), '\x07');
    if list.len() == 0 {
        assert(parts.drop_last() =~= Seq::<Seq<char>>::empty());
        assert(offers =~= Seq::<OfferView>::empty());
        assert(offers_among(parts) =~= offers) by {
            reveal_with_fuel(offers_among, 2);
        }
    } else {
        let init = list.drop_last();
        let (o, mtime) = list.last();
        let item = item_text(o, mtime);
        assert(list[list.len() - 1] == list.last());
        lemma_offers_text(init);
        lemma_item(o, mtime);
        let before = chars::pieces(offers_text(init), '\x07');
        chars::lemma_pieces_some(offers_text(init), '\x07');
        chars::lemma_pieces_after(offers_text(init), item.push('\x07'), '\x07');
        assert(item.push('\x07') =~= item.push('\x07') + Seq::<char>::empty());
        chars::lemma_pieces_joined(item, Seq::empty(), '\x07');
        chars::lemma_pieces_plain(item, '\x07');
        assert(parts =~= before.drop_last().push(item).push(Seq::<char>::empty()));
        assert(parts.drop_last() =~= before.drop_last().push(item));
        assert(parts.drop_last().drop_last() =~= before.drop_last());
        assert(offers_among(parts.drop_last()) =~= offers);
        assert(offer_in(parts.last()) is None);
        let text = offers_text(list);
        let front = offers_text(init);
        assert(forall|i: int| 0 <= i < front.len() ==> text[i] == front[i]);
        assert(forall|i: int|
            front.len() <= i < text.len() - 1 ==> text[i] == item[i - front.len()]);
        assert(text[text.len() - 1] == '\x07');
    }
}

/// Offers that are written into a message are read back from it, and so is its
/// text.
pub proof fn law_offers_round_trip(text: Seq<char>, list: Seq<(OfferView, u64)>)
    requires
        !text.contains('\0'),
        forall|i: int|
            0 <= i < list.len() ==> carriable((#[trigger] list[i]).0.name),
    ensures
        packet::main_part(text.push('\0') + offers_text(list)) == text,
        offers_in(packet::further_parts(text.push('\0') + offers_text(list))) == list.map_values(
            |p: (OfferView, u64)| p.0,
        ),
{
    let body = offers_text(list);
    let offers = list.map_values(|p: (OfferView, u64)| p.0);
    lemma_offers_text(list);
    chars::lemma_pieces_joined(text, body, '\0');
    chars::lemma_pieces_plain(text, '\0');
    chars::lemma_pieces_plain(body, '\0');
    let parts = chars::pieces(text.push('\0') + body, '\0');
    assert(parts =~= seq![text, body]);
    let keep = |part: Seq<char>| part.len() > 0;
    assert(parts.skip(1) =~= seq![body]);
    reveal_with_fuel(Seq::filter, 2);
    assert(parts.skip(1).drop_last() =~= Seq::<Seq<char>>::empty());
    assert(parts.skip(1).last() == body);
    let further = packet::further_parts(text.push('\0') + body);
    if list.len() > 0 {
        assert(further =~= seq![body]);
        assert(further.drop_last() =~= Seq::<Seq<char>>::empty());
        assert(offers_in(further.drop_last()) =~= Seq::<OfferView>::empty());
        assert(further.last() == body);
        assert(offers_in(further) =~= offers);
    } else {
        assert(body.len() == 0);
        assert(further =~= Seq::<Seq<char>>::empty());
        assert(offers =~= Seq::<OfferView>::empty());
    }
}

} // verus!
