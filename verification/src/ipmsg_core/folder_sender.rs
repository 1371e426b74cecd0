//! The stream that a folder is sent as.
use crate::chars;
use crate::chars::{push_text, to_text};
use crate::ipmsg_core::filename;
use crate::ipmsg_core::filename::sanitize_wire_filename;
use crate::ipmsg_core::folder;
use crate::ipmsg_core::protocol::{
    IPMSG_FILE_CREATETIME, IPMSG_FILE_DIR, IPMSG_FILE_MTIME, IPMSG_FILE_REGULAR,
    IPMSG_FILE_RETPARENT,
};
use crate::ipmsg_core::text;
use crate::ipmsg_core::text::{encode_text, TextEncoding};
use crate::number;
use crate::number::{push_hexadecimal, push_padded};
use vstd::prelude::*;

verus! {

/// A time in a header: its kind, an equals sign, the time.
pub open spec fn time_field(kind: u32, time: u64) -> Seq<char> {
    number::hexadecimal(kind as nat).push('=') + number::hexadecimal(time as nat)
}

/// What stands behind the first colon of a header.
pub open spec fn header_fields(name: Seq<char>, kind: u32, size: u64, time: u64) -> Seq<char> {
    name.push(':') + (number::hexadecimal(size as nat).push(':') + (number::hexadecimal(
        kind as nat,
    ).push(':') + (time_field(IPMSG_FILE_CREATETIME, time).push(':') + time_field(
        IPMSG_FILE_MTIME,
        time,
    ).push(':'))))
}

/// A header behind its length.
pub open spec fn header_text(name: Seq<char>, kind: u32, size: u64, time: u64) -> Seq<char> {
    seq![':'] + header_fields(name, kind, size, time)
}

/// The bytes of a text of ASCII characters.
pub open spec fn ascii_bytes(text: Seq<char>) -> Seq<u8> {
    Seq::new(text.len(), |i: int| text[i] as u8)
}

/// The time that a header states: that of the entry, or the present where that
/// is not known.
pub open spec fn stated_time(mtime: u64, now: u64) -> u64 {
    if mtime == 0 {
        now
    } else {
        mtime
    }
}

/// A header on the wire: its length, which counts four characters of its own, and
/// its text.
pub open spec fn header_bytes(
    encoding: TextEncoding,
    name: Seq<char>,
    kind: u32,
    size: u64,
    time: u64,
) -> Seq<u8> {
    let body = text::encoded(encoding, header_text(name, kind, size, time));
    ascii_bytes(number::padded(body.len() + 4, 4)) + body
}

/// The most characters that a header needs beside the name.
pub const HEADER_OVERHEAD: usize = 80;

proof fn lemma_hex_len(n: nat)
    requires
        n <= u64::MAX,
    ensures
        1 <= number::hexadecimal(n).len() <= 16,
{
    reveal_with_fuel(number::digits, 17);
}

proof fn lemma_header_len(name: Seq<char>, kind: u32, size: u64, time: u64)
    ensures
        header_text(name, kind, size, time).len() <= name.len() + HEADER_OVERHEAD,
{
    lemma_hex_len(kind as nat);
    lemma_hex_len(size as nat);
    lemma_hex_len(time as nat);
    lemma_hex_len(IPMSG_FILE_CREATETIME as nat);
    lemma_hex_len(IPMSG_FILE_MTIME as nat);
    reveal_with_fuel(number::digits, 9);
}

proof fn lemma_padded_ascii(n: nat, width: nat)
    ensures
        forall|i: int|
            0 <= i < number::padded(n, width).len() ==> text::ascii(
                #[trigger] number::padded(n, width)[i],
            ),
{
    number::lemma_digits_plain(n, 16);
}

/// The header of an entry.
pub fn write_dir_header(
    encoding: TextEncoding,
    name: &str,
    kind: u32,
    size: u64,
    mtime: u64,
    now: u64,
) -> (r: Vec<u8>)
    requires
        name@.len() + HEADER_OVERHEAD <= text::MAX_TEXT,
    ensures
        r@ == header_bytes(encoding, name@, kind, size, stated_time(mtime, now)),
{
    let time: u64 = if mtime == 0 {
        now
    } else {
        mtime
    };
    let mut header: Vec<char> = Vec::new();
    header.push(':');
    push_text(&mut header, name);
    header.push(':');
    push_hexadecimal(&mut header, size);
    header.push(':');
    push_hexadecimal(&mut header, kind as u64);
    header.push(':');
    push_hexadecimal(&mut header, IPMSG_FILE_CREATETIME as u64);
    header.push('=');
    push_hexadecimal(&mut header, time);
    header.push(':');
    push_hexadecimal(&mut header, IPMSG_FILE_MTIME as u64);
    header.push('=');
    push_hexadecimal(&mut header, time);
    header.push(':');
    proof {
        assert(header@ =~= header_text(name@, kind, size, time));
        lemma_header_len(name@, kind, size, time);
    }
    let line = to_text(header.as_slice());
    let mut body = encode_text(encoding, line.as_str());
    let total: u64 = body.len() as u64 + 4;
    let mut digits: Vec<char> = Vec::new();
    push_padded(&mut digits, total, 4);
    proof {
        assert(digits@ =~= number::padded(total as nat, 4));
        lemma_padded_ascii(total as nat, 4);
    }
    let mut out: Vec<u8> = Vec::new();
    let mut i: usize = 0;
    while i < digits.len()
        invariant
            i <= digits@.len(),
            forall|k: int| 0 <= k < digits@.len() ==> text::ascii(#[trigger] digits@[k]),
            out@ =~= ascii_bytes(digits@.take(i as int)),
        decreases digits@.len() - i,
    {
        out.push(digits[i] as u8);
        i += 1;
    }
    assert(digits@.take(i as int) =~= digits@);
    out.append(&mut body);
    out
}

/// The entries of a directory, one after the other.
pub enum Forest {
    Nil,
    File { name: Seq<char>, content: Seq<u8>, time: u64, rest: Box<Forest> },
    Dir {
        name: Seq<char>,
        time: u64,
        children: Box<Forest>,
        /// What the header that leads back states as its time.
        end_time: u64,
        rest: Box<Forest>,
    },
}

/// The header that leads back to the parent directory.
pub open spec fn back_bytes(encoding: TextEncoding, time: u64) -> Seq<u8> {
    header_bytes(encoding, seq!['.'], IPMSG_FILE_RETPARENT, 0, time)
}

/// The stream that entries are sent as.
pub open spec fn stream_of(encoding: TextEncoding, forest: Forest) -> Seq<u8>
    decreases forest,
{
    match forest {
        Forest::Nil => Seq::empty(),
        Forest::File { name, content, time, rest } => header_bytes(
            encoding,
            name,
            IPMSG_FILE_REGULAR,
            content.len() as u64,
            time,
        ) + (content + stream_of(encoding, *rest)),
        Forest::Dir { name, time, children, end_time, rest } => header_bytes(
            encoding,
            name,
            IPMSG_FILE_DIR,
            0,
            time,
        ) + (stream_of(encoding, *children) + (back_bytes(encoding, end_time) + stream_of(
            encoding,
            *rest,
        ))),
    }
}

/// What is received where entries are sent.
pub open spec fn received_of(path: Seq<Seq<char>>, forest: Forest) -> Seq<folder::Received>
    decreases forest,
{
    match forest {
        Forest::Nil => Seq::empty(),
        Forest::File { name, content, rest, .. } => seq![
            folder::Received::File(path.push(name), content),
        ] + received_of(path, *rest),
        Forest::Dir { name, children, rest, .. } => seq![folder::Received::Dir(path.push(name))]
            + (received_of(path.push(name), *children) + received_of(path, *rest)),
    }
}

/// The sizes of all files together.
pub open spec fn content_len(forest: Forest) -> nat
    decreases forest,
{
    match forest {
        Forest::Nil => 0,
        Forest::File { content, rest, .. } => content.len() + content_len(*rest),
        Forest::Dir { children, rest, .. } => content_len(*children) + content_len(*rest),
    }
}

/// The name of the last file, or `before` where there is none.
pub open spec fn last_file(forest: Forest, before: Seq<char>) -> Seq<char>
    decreases forest,
{
    match forest {
        Forest::Nil => before,
        Forest::File { name, rest, .. } => last_file(*rest, name),
        Forest::Dir { children, rest, .. } => last_file(*rest, last_file(*children, before)),
    }
}

/// The codec carries the header, and four digits can state its length. The first
/// of the three is what `encode_text` does; the second is what `decode_text` does
/// where the encoding has all characters of the name and the name does not begin
/// with a byte order mark.
pub open spec fn carried(
    encoding: TextEncoding,
    name: Seq<char>,
    kind: u32,
    size: u64,
    time: u64,
) -> bool {
    let fields = header_fields(name, kind, size, time);
    let body = text::encoded(encoding, header_text(name, kind, size, time));
    &&& body == seq![0x3au8] + text::encoded(encoding, fields)
    &&& text::decoded(encoding, text::encoded(encoding, fields)) == fields
    &&& body.len() + 4 <= 0xffff
}

/// The entries can be sent: their names are components, and the codec carries
/// their headers.
pub open spec fn sendable(encoding: TextEncoding, forest: Forest) -> bool
    decreases forest,
{
    match forest {
        Forest::Nil => true,
        Forest::File { name, content, time, rest } => {
            &&& filename::component_of(name) == Some(name)
            &&& content.len() <= u64::MAX
            &&& carried(encoding, name, IPMSG_FILE_REGULAR, content.len() as u64, time)
            &&& sendable(encoding, *rest)
        },
        Forest::Dir { name, time, children, end_time, rest } => {
            &&& filename::component_of(name) == Some(name)
            &&& carried(encoding, name, IPMSG_FILE_DIR, 0, time)
            &&& carried(encoding, seq!['.'], IPMSG_FILE_RETPARENT, 0, end_time)
            &&& sendable(encoding, *children)
            &&& sendable(encoding, *rest)
        },
    }
}

proof fn lemma_hex_field(n: nat)
    ensures
        number::number_in(number::hexadecimal(n), 16) == Some(n),
        !number::hexadecimal(n).contains(':'),
{
    number::law_number_round_trip(n, 16);
    number::lemma_digits_plain(n, 16);
    let s = number::hexadecimal(n);
    if s.contains(':') {
        let k = s.index_of(':');
        assert(s[k] == ':');
    }
}

/// A header is read back from its fields.
proof fn lemma_header_fields(name: Seq<char>, kind: u32, size: u64, time: u64)
    requires
        name.len() > 0,
        !name.contains(':'),
    ensures
        folder::header_in(header_fields(name, kind, size, time)) == Ok::<
            folder::HeaderView,
            folder::FolderError,
        >(folder::HeaderView { name, size, kind }),
{
    let size_text = number::hexadecimal(size as nat);
    let kind_text = number::hexadecimal(kind as nat);
    let tail = time_field(IPMSG_FILE_CREATETIME, time).push(':') + time_field(
        IPMSG_FILE_MTIME,
        time,
    ).push(':');
    let r2 = kind_text.push(':') + tail;
    let r1 = size_text.push(':') + r2;
    lemma_hex_field(size as nat);
    lemma_hex_field(kind as nat);
    chars::lemma_pieces_joined(kind_text, tail, ':');
    chars::lemma_pieces_joined(size_text, r2, ':');
    chars::lemma_pieces_joined(name, r1, ':');
    chars::lemma_pieces_plain(kind_text, ':');
    chars::lemma_pieces_plain(size_text, ':');
    chars::lemma_pieces_plain(name, ':');
    let parts = chars::pieces(header_fields(name, kind, size, time), ':');
    assert(parts =~= seq![name, size_text, kind_text] + chars::pieces(tail, ':'));
    assert(parts[0] == name && parts[1] == size_text && parts[2] == kind_text);
}

proof fn lemma_zeros_in_front(k: nat, s: Seq<char>)
    ensures
        number::value_of(Seq::new(k, |i: int| '0') + s, 16) == number::value_of(s, 16),
    decreases k + s.len(),
{
    let zeros = Seq::new(k, |i: int| '0');
    if s.len() > 0 {
        lemma_zeros_in_front(k, s.drop_last());
        assert((zeros + s).drop_last() =~= zeros + s.drop_last());
    } else {
        assert(zeros + s =~= zeros);
        if k > 0 {
            let fewer = Seq::new((k - 1) as nat, |i: int| '0');
            lemma_zeros_in_front((k - 1) as nat, Seq::empty());
            assert(zeros.drop_last() =~= fewer + Seq::<char>::empty());
            assert(s =~= Seq::<char>::empty());
            assert(number::value_of(s, 16) == Some(0nat));
        }
    }
}

/// Four digits state a length up to 0xffff.
proof fn lemma_four_digits(n: nat)
    requires
        n <= 0xffff,
    ensures
        number::padded(n, 4).len() == 4,
        folder::stated_length(ascii_bytes(number::padded(n, 4))) == Some(n as u32),
        forall|i: int| 0 <= i < 4 ==> #[trigger] ascii_bytes(number::padded(n, 4))[i] != 0x3a,
{
    let s = number::padded(n, 4);
    let hex = number::hexadecimal(n);
    reveal_with_fuel(number::digits, 5);
    assert(1 <= hex.len() <= 4);
    number::lemma_digits_plain(n, 16);
    number::law_number_round_trip(n, 16);
    assert(hex[0] != '+');
    lemma_zeros_in_front((4 - hex.len()) as nat, hex);
    assert(Seq::new(0, |i: int| '0') + hex =~= hex);
    assert(forall|i: int|
        0 <= i < 4 ==> '0' as u32 <= #[trigger] s[i] as u32 <= '9' as u32 || 'a' as u32
            <= s[i] as u32 <= 'f' as u32);
    let bytes = ascii_bytes(s);
    assert(Seq::new(bytes.len(), |i: int| bytes[i] as char) =~= s);
}

/// What a receiver makes of a header that was written.
pub proof fn lemma_past_written_header(
    v: folder::FolderView,
    name: Seq<char>,
    kind: u32,
    size: u64,
    time: u64,
)
    requires
        v.phase == folder::PhaseView::Length(Seq::empty()),
        name.len() > 0,
        !name.contains(':'),
        carried(v.encoding, name, kind, size, time),
    ensures
        v.past(header_bytes(v.encoding, name, kind, size, time)) == v.past_header(
            folder::HeaderView { name, size, kind },
        ),
{
    let fields = header_fields(name, kind, size, time);
    let body = text::encoded(v.encoding, header_text(name, kind, size, time));
    let coded = text::encoded(v.encoding, fields);
    let n = body.len() + 4;
    let digits = ascii_bytes(number::padded(n, 4));
    lemma_four_digits(n);
    lemma_header_fields(name, kind, size, time);
    lemma_past_digits(v, digits);
    let at_colon = folder::FolderView { phase: folder::PhaseView::Length(digits), ..v };
    let colon = seq![0x3au8];
    assert(colon.drop_last() =~= Seq::<u8>::empty());
    assert(at_colon.past(colon.drop_last()) == Ok::<folder::FolderView, folder::FolderError>(
        at_colon,
    ));
    assert(at_colon.past(colon) == at_colon.past_length(digits));
    folder::law_pieces_of_stream(v, digits, colon);
    folder::law_pieces_of_stream(v, digits + colon, coded);
    assert(header_bytes(v.encoding, name, kind, size, time) =~= digits + colon + coded);
    let h = folder::HeaderView { name, size, kind };
    assert(at_colon.past_header_bytes(coded) == at_colon.past_header(h));
    assert(at_colon.past_header(h) == v.past_header(h));
    if coded.len() == 0 {
        assert(coded =~= Seq::<u8>::empty());
    } else {
        let in_header = folder::FolderView {
            phase: folder::PhaseView::Header(coded.len(), Seq::empty()),
            ..at_colon
        };
        assert(at_colon.past(colon) == Ok::<folder::FolderView, folder::FolderError>(in_header));
        folder::lemma_past_header_whole(in_header, coded);
        assert(Seq::<u8>::empty() + coded =~= coded);
        assert(in_header.past_header(h) == v.past_header(h));
    }
}

proof fn lemma_past_digits(v: folder::FolderView, digits: Seq<u8>)
    requires
        v.phase == folder::PhaseView::Length(Seq::empty()),
        digits.len() <= folder::MAX_LENGTH_DIGITS,
        forall|i: int| 0 <= i < digits.len() ==> #[trigger] digits[i] != 0x3a,
    ensures
        v.past(digits) == Ok::<folder::FolderView, folder::FolderError>(
            folder::FolderView { phase: folder::PhaseView::Length(digits), ..v },
        ),
    decreases digits.len(),
{
    if digits.len() == 0 {
        assert(digits =~= Seq::<u8>::empty());
    } else {
        lemma_past_digits(v, digits.drop_last());
        assert(digits.drop_last().push(digits.last()) =~= digits);
    }
}

/// A receiver inside a directory, once entries below it have come through.
pub open spec fn enriched(
    v: folder::FolderView,
    path: Seq<Seq<char>>,
    forest: Forest,
) -> folder::FolderView {
    folder::FolderView {
        received: v.received + content_len(forest),
        current: last_file(forest, v.current),
        entries: v.entries + received_of(path, forest),
        ..v
    }
}

/// Entries that are sent are received as they are: each directory and each file
/// in its place, with its content, in the order in which they were sent.
pub proof fn law_entries_round_trip(v: folder::FolderView, path: Seq<Seq<char>>, forest: Forest)
    requires
        v.phase == folder::PhaseView::Length(Seq::empty()),
        v.path == Some(path),
        !v.first,
        sendable(v.encoding, forest),
    ensures
        v.past(stream_of(v.encoding, forest)) == Ok::<folder::FolderView, folder::FolderError>(
            enriched(v, path, forest),
        ),
{
    lemma_entries(v, path, forest);
    reveal(leads);
}

/// The bytes lead a receiver from one state to another.
#[verifier::opaque]
spec fn leads(v: folder::FolderView, bytes: Seq<u8>, w: folder::FolderView) -> bool {
    v.past(bytes) == Ok::<folder::FolderView, folder::FolderError>(w)
}

proof fn lemma_leads_on(
    v: folder::FolderView,
    a: Seq<u8>,
    w: folder::FolderView,
    b: Seq<u8>,
    x: folder::FolderView,
)
    requires
        leads(v, a, w),
        leads(w, b, x),
    ensures
        leads(v, a + b, x),
{
    reveal(leads);
    folder::law_pieces_of_stream(v, a, b);
}

proof fn lemma_entries(v: folder::FolderView, path: Seq<Seq<char>>, forest: Forest)
    requires
        v.phase == folder::PhaseView::Length(Seq::empty()),
        v.path == Some(path),
        !v.first,
        sendable(v.encoding, forest),
    ensures
        leads(v, stream_of(v.encoding, forest), enriched(v, path, forest)),
    decreases forest,
{
    match forest {
        Forest::Nil => {
            assert(v.entries + received_of(path, forest) =~= v.entries);
            reveal(leads);
        },
        Forest::File { name, content, time, rest } => {
            lemma_past_file(v, path, name, content, time);
            let read = folder::FolderView {
                received: v.received + content.len(),
                current: name,
                entries: v.entries.push(folder::Received::File(path.push(name), content)),
                ..v
            };
            lemma_entries(read, path, *rest);
            let header = header_bytes(
                v.encoding,
                name,
                IPMSG_FILE_REGULAR,
                content.len() as u64,
                time,
            );
            let tail = stream_of(v.encoding, *rest);
            assert(read.entries + received_of(path, *rest) =~= v.entries + received_of(
                path,
                forest,
            ));
            let end = enriched(v, path, forest);
            assert(enriched(read, path, *rest) == end);
            lemma_leads_on(v, header + content, read, tail, end);
            assert(header + content + tail =~= header + (content + tail));
            assert(header + content + tail == stream_of(v.encoding, forest));
        },
        Forest::Dir { name, time, children, end_time, rest } => {
            let inner = path.push(name);
            lemma_past_dir(v, path, name, time);
            let entered = folder::FolderView {
                path: Some(inner),
                entries: v.entries.push(folder::Received::Dir(inner)),
                ..v
            };
            lemma_entries(entered, inner, *children);
            let filled = enriched(entered, inner, *children);
            lemma_past_back(filled, path, name, end_time);
            let left = folder::FolderView { path: Some(path), ..filled };
            lemma_entries(left, path, *rest);
            let header = header_bytes(v.encoding, name, IPMSG_FILE_DIR, 0, time);
            let back = back_bytes(v.encoding, end_time);
            let inside = stream_of(v.encoding, *children);
            let tail = stream_of(v.encoding, *rest);
            assert(left.entries + received_of(path, *rest) =~= v.entries + received_of(
                path,
                forest,
            ));
            let end = enriched(v, path, forest);
            assert(enriched(left, path, *rest) == end);
            lemma_leads_on(filled, back, left, tail, end);
            lemma_leads_on(entered, inside, filled, back + tail, end);
            lemma_leads_on(v, header, entered, inside + (back + tail), end);
        },
    }
}

proof fn lemma_past_file(
    v: folder::FolderView,
    path: Seq<Seq<char>>,
    name: Seq<char>,
    content: Seq<u8>,
    time: u64,
)
    requires
        v.phase == folder::PhaseView::Length(Seq::empty()),
        v.path == Some(path),
        !v.first,
        filename::component_of(name) == Some(name),
        content.len() <= u64::MAX,
        carried(v.encoding, name, IPMSG_FILE_REGULAR, content.len() as u64, time),
    ensures
        leads(
            v,
            header_bytes(v.encoding, name, IPMSG_FILE_REGULAR, content.len() as u64, time)
                + content,
            folder::FolderView {
                received: v.received + content.len(),
                current: name,
                entries: v.entries.push(folder::Received::File(path.push(name), content)),
                ..v
            },
        ),
{
    let header = header_bytes(v.encoding, name, IPMSG_FILE_REGULAR, content.len() as u64, time);
    reveal(leads);
    lemma_component_plain(name);
    lemma_past_written_header(v, name, IPMSG_FILE_REGULAR, content.len() as u64, time);
    let opened = folder::FolderView {
        phase: folder::content_phase(content.len()),
        current: name,
        entries: v.entries.push(folder::Received::File(path.push(name), Seq::empty())),
        ..v
    };
    assert(v.past(header) == Ok::<folder::FolderView, folder::FolderError>(opened));
    folder::law_pieces_of_stream(v, header, content);
    if content.len() > 0 {
        folder::lemma_past_content(opened, content);
        assert(Seq::<u8>::empty() + content =~= content);
        assert(opened.entries.drop_last() =~= v.entries);
    } else {
        assert(content =~= Seq::<u8>::empty());
    }
}

proof fn lemma_past_dir(v: folder::FolderView, path: Seq<Seq<char>>, name: Seq<char>, time: u64)
    requires
        v.phase == folder::PhaseView::Length(Seq::empty()),
        v.path == Some(path),
        !v.first,
        filename::component_of(name) == Some(name),
        carried(v.encoding, name, IPMSG_FILE_DIR, 0, time),
    ensures
        leads(
            v,
            header_bytes(v.encoding, name, IPMSG_FILE_DIR, 0, time),
            folder::FolderView {
                path: Some(path.push(name)),
                entries: v.entries.push(folder::Received::Dir(path.push(name))),
                ..v
            },
        ),
{
    reveal(leads);
    lemma_component_plain(name);
    lemma_past_written_header(v, name, IPMSG_FILE_DIR, 0, time);
}

proof fn lemma_past_back(v: folder::FolderView, path: Seq<Seq<char>>, name: Seq<char>, time: u64)
    requires
        v.phase == folder::PhaseView::Length(Seq::empty()),
        v.path == Some(path.push(name)),
        !v.first,
        carried(v.encoding, seq!['.'], IPMSG_FILE_RETPARENT, 0, time),
    ensures
        leads(
            v,
            back_bytes(v.encoding, time),
            folder::FolderView { path: Some(path), ..v },
        ),
{
    reveal(leads);
    lemma_past_written_header(v, seq!['.'], IPMSG_FILE_RETPARENT, 0, time);
    assert(path.push(name).drop_last() =~= path);
}

proof fn lemma_component_plain(name: Seq<char>)
    requires
        filename::component_of(name) == Some(name),
    ensures
        name.len() > 0,
        !name.contains(':'),
{
    filename::law_component(name);
    filename::law_component_stays_inside(name);
}

/// The stream that a whole folder is sent as.
pub open spec fn folder_stream(
    encoding: TextEncoding,
    root: Seq<char>,
    time: u64,
    forest: Forest,
    end_time: u64,
) -> Seq<u8> {
    header_bytes(encoding, root, IPMSG_FILE_DIR, 0, time) + (stream_of(encoding, forest)
        + back_bytes(encoding, end_time))
}

/// A folder that is sent is received as it is, and its stream may end there. The
/// name of the root is not used.
pub proof fn law_folder_round_trip(
    encoding: TextEncoding,
    root: Seq<char>,
    time: u64,
    forest: Forest,
    end_time: u64,
)
    requires
        root.len() > 0,
        !root.contains(':'),
        carried(encoding, root, IPMSG_FILE_DIR, 0, time),
        carried(encoding, seq!['.'], IPMSG_FILE_RETPARENT, 0, end_time),
        sendable(encoding, forest),
    ensures
        folder::FolderView::start(encoding).past(
            folder_stream(encoding, root, time, forest, end_time),
        ) matches Ok(v) && v.entries == received_of(Seq::empty(), forest) && v.received
            == content_len(forest) && v.at_end() == Ok::<(), folder::FolderError>(()),
{
    let start = folder::FolderView::start(encoding);
    let header = header_bytes(encoding, root, IPMSG_FILE_DIR, 0, time);
    let back = back_bytes(encoding, end_time);
    lemma_past_written_header(start, root, IPMSG_FILE_DIR, 0, time);
    let entered = folder::FolderView { first: false, ..start };
    assert(start.past(header) == Ok::<folder::FolderView, folder::FolderError>(entered));
    law_entries_round_trip(entered, Seq::empty(), forest);
    let filled = enriched(entered, Seq::empty(), forest);
    lemma_past_written_header(filled, seq!['.'], IPMSG_FILE_RETPARENT, 0, end_time);
    folder::law_pieces_of_stream(entered, stream_of(encoding, forest), back);
    folder::law_pieces_of_stream(start, header, stream_of(encoding, forest) + back);
    assert(filled.entries =~= received_of(Seq::empty(), forest));
}

/// What an entry of a directory is.
#[derive(Debug, Clone, Copy, PartialEq, Eq, Structural)]
pub enum EntryKind {
    Dir,
    File,
    /// Something that is not sent.
    Other,
}

/// The name of an entry, or what stands for one that is no text.
pub fn entry_name(name: Option<String>, kind: EntryKind) -> (r: String)
    ensures
        r@ == match name {
            Some(name) => name@,
            None => if kind == EntryKind::Dir {
                "dir"@
            } else {
                "file"@
            },
        },
{
    match name {
        Some(name) => name,
        None => if kind == EntryKind::Dir {
            "dir".to_owned()
        } else {
            "file".to_owned()
        },
    }
}

/// What is to be done about an entry of the directory that is being sent.
#[derive(Debug)]
pub enum EntryPlan {
    Skip,
    /// Send these bytes, then the entries of the directory, then the way back.
    Descend(Vec<u8>),
    /// Send these bytes, then the content of the file.
    SendFile(Vec<u8>),
}

/// Plans what to do about an entry. Entries with a name that a receiver would
/// refuse are left out.
pub fn plan_entry(
    encoding: TextEncoding,
    kind: EntryKind,
    name: &str,
    size: u64,
    mtime: u64,
    now: u64,
) -> (r: EntryPlan)
    requires
        name@.len() + HEADER_OVERHEAD <= text::MAX_TEXT,
    ensures
        match (filename::component_of(name@), kind) {
            (Some(_), EntryKind::Dir) => r is Descend && r->Descend_0@ == header_bytes(
                encoding,
                name@,
                IPMSG_FILE_DIR,
                0,
                stated_time(mtime, now),
            ),
            (Some(_), EntryKind::File) => r is SendFile && r->SendFile_0@ == header_bytes(
                encoding,
                name@,
                IPMSG_FILE_REGULAR,
                size,
                stated_time(mtime, now),
            ),
            _ => r is Skip,
        },
{
    if sanitize_wire_filename(name).is_none() {
        return EntryPlan::Skip;
    }
    match kind {
        EntryKind::Dir => EntryPlan::Descend(
            write_dir_header(encoding, name, IPMSG_FILE_DIR, 0, mtime, now),
        ),
        EntryKind::File => EntryPlan::SendFile(
            write_dir_header(encoding, name, IPMSG_FILE_REGULAR, size, mtime, now),
        ),
        EntryKind::Other => EntryPlan::Skip,
    }
}

/// The header of the root of a folder.
pub fn root_header(encoding: TextEncoding, name: &str, mtime: u64, now: u64) -> (r: Vec<u8>)
    requires
        name@.len() + HEADER_OVERHEAD <= text::MAX_TEXT,
    ensures
        r@ == header_bytes(encoding, name@, IPMSG_FILE_DIR, 0, stated_time(mtime, now)),
{
    write_dir_header(encoding, name, IPMSG_FILE_DIR, 0, mtime, now)
}

/// The header that leads back to the parent directory.
pub fn back_header(encoding: TextEncoding, now: u64) -> (r: Vec<u8>)
    ensures
        r@ == back_bytes(encoding, now),
{
    proof {
        reveal_strlit(".");
        assert("."@ =~= seq!['.']);
    }
    write_dir_header(encoding, ".", IPMSG_FILE_RETPARENT, 0, 0, now)
}

} // verus!
