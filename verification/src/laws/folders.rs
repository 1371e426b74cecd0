//! Whole folders: how they are sent, and what is made of what comes.
use crate::chars;
use crate::ipmsg_core::filename;
use crate::ipmsg_core::folder;
use crate::ipmsg_core::folder::{
    FolderError, FolderReceiver, FolderStep, FolderView, HeaderView, PhaseView, Received,
};
use crate::ipmsg_core::folder_sender;
use crate::ipmsg_core::folder_sender::{EntryKind, EntryPlan};
use crate::ipmsg_core::text;
use crate::ipmsg_core::text::TextEncoding;
use crate::laws::names;
use crate::laws::texts;
use crate::number;
use vstd::prelude::*;

verus! {

/// A name that may be sent and received: trimmed, made of ordinary characters, and neither
/// a directory's own nor a device's.
pub open spec fn good_name(name: Seq<char>) -> bool {
    &&& name.len() > 0
    &&& texts::tight(name)
    &&& name != seq!['.']
    &&& name != seq!['.', '.']
    &&& forall|i: int| 0 <= i < name.len() ==> names::ordinary(#[trigger] name[i])
    &&& !names::device_before_dot(name)
}

/// The receiver waits for the next header.
pub open spec fn between(v: FolderView) -> bool {
    v.phase == PhaseView::Length(Seq::empty())
}

/// A header is written as its name, its size and its kind in hexadecimal, and its time
/// twice, as that of the creation and that of the last change, all between colons. The time
/// is the present one where none is known.
pub proof fn law_header_written(name: Seq<char>, kind: u32, size: u64, time: u64, now: u64)
    ensures
        folder_sender::header_text(name, kind, size, time) == texts::joined(
            seq![
                Seq::empty(),
                name,
                number::hexadecimal(size as nat),
                number::hexadecimal(kind as nat),
                seq!['1', '6', '='] + number::hexadecimal(time as nat),
                seq!['1', '4', '='] + number::hexadecimal(time as nat),
                Seq::empty(),
            ],
            ':',
        ),
        time != 0 ==> folder_sender::stated_time(time, now) == time,
        folder_sender::stated_time(0, now) == now,
{
    let none = Seq::<char>::empty();
    let a = number::hexadecimal(size as nat);
    let b = number::hexadecimal(kind as nat);
    let t = number::hexadecimal(time as nat);
    let c = seq!['1', '6', '='] + t;
    let d = seq!['1', '4', '='] + t;
    assert(number::hexadecimal(0x16) =~= seq!['1', '6']) by {
        reveal_with_fuel(number::digits, 3);
    }
    assert(number::hexadecimal(0x14) =~= seq!['1', '4']) by {
        reveal_with_fuel(number::digits, 3);
    }
    assert(folder_sender::time_field(0x16, time) =~= c);
    assert(folder_sender::time_field(0x14, time) =~= d);
    let all = seq![none, name, a, b, c, d, none];
    assert(all.skip(1) =~= seq![name, a, b, c, d, none]);
    assert(all.skip(1).skip(1) =~= seq![a, b, c, d, none]);
    assert(all.skip(1).skip(1).skip(1) =~= seq![b, c, d, none]);
    assert(all.skip(1).skip(1).skip(1).skip(1) =~= seq![c, d, none]);
    assert(all.skip(1).skip(1).skip(1).skip(1).skip(1) =~= seq![d, none]);
    assert(all.skip(1).skip(1).skip(1).skip(1).skip(1).skip(1) =~= seq![none]);
    reveal_with_fuel(texts::joined, 8);
    assert(texts::joined(all, ':') =~= folder_sender::header_text(name, kind, size, time));
}

/// A header is read as a name, a size and a kind between colons, the numbers hexadecimal;
/// more fields may follow, and an empty one may stand in front. A number that is none is
/// refused, and so is a header with fewer fields.
pub proof fn law_header_read(
    name: Seq<char>,
    size: Seq<char>,
    kind: Seq<char>,
    rest: Seq<Seq<char>>,
)
    requires
        name.len() > 0,
        texts::none_holds(seq![name, size, kind] + rest, ':'),
    ensures
        ({
            let none = Seq::<char>::empty();
            let plain = folder::header_in(texts::joined(seq![name, size, kind] + rest, ':'));
            let led = folder::header_in(texts::joined(seq![none, name, size, kind] + rest, ':'));
            let n = number::u64_in(size, 16);
            let k = number::u32_in(kind, 16);
            &&& led == plain
            &&& n is None ==> plain == Err::<HeaderView, FolderError>(FolderError::BadSize)
            &&& n is Some && k is None ==> plain == Err::<HeaderView, FolderError>(
                FolderError::BadKind,
            )
            &&& n is Some && k is Some ==> plain == Ok::<HeaderView, FolderError>(
                HeaderView { name, size: n->0, kind: k->0 },
            )
            &&& folder::header_in(texts::joined(seq![name, size], ':')) == Err::<
                HeaderView,
                FolderError,
            >(FolderError::BadHeader)
            &&& folder::header_in(texts::joined(seq![none, name, size], ':')) == Err::<
                HeaderView,
                FolderError,
            >(FolderError::BadHeader)
            &&& folder::header_in(name) == Err::<HeaderView, FolderError>(FolderError::BadHeader)
        }),
{
    let none = Seq::<char>::empty();
    let plain = seq![name, size, kind] + rest;
    assert(plain[0] == name && plain[1] == size && plain[2] == kind);
    texts::law_parting(plain, ':');
    let led = seq![none, name, size, kind] + rest;
    assert(led[0] == none && led[1] == name && led[2] == size && led[3] == kind);
    assert forall|i: int| 0 <= i < led.len() implies !(#[trigger] led[i]).contains(':') by {
        if i > 0 {
            assert(led[i] == plain[i - 1]);
        }
    }
    texts::law_parting(led, ':');
    let two = seq![name, size];
    texts::law_parting(two, ':');
    let three = seq![none, name, size];
    assert(three[0].len() == 0);
    texts::law_parting(three, ':');
    chars::lemma_pieces_plain(name, ':');
}

/// The first header, if it is that of a directory, is that of the folder itself, whatever
/// its name; nothing is received by it.
pub proof fn law_root_header(v: FolderView, name: Seq<char>, size: u64)
    requires
        v.first,
    ensures
        ({
            let r = v.past_header(HeaderView { name, size, kind: 2 });
            &&& r is Ok
            &&& !r->Ok_0.first
            &&& between(r->Ok_0)
            &&& r->Ok_0.path == v.path
            &&& r->Ok_0.entries == v.entries
            &&& r->Ok_0.received == v.received
            &&& r->Ok_0.current == v.current
        }),
{
}

/// Inside the folder, the header of a file opens that file in the current directory, and as
/// many bytes as it states are its content; that of a directory makes the directory and
/// enters it; that of the parent leaves it again. Names that are good are taken as they
/// are, without the white space around them; all others make the whole folder fail.
pub proof fn law_entry_headers(
    v: FolderView,
    path: Seq<Seq<char>>,
    before: Seq<char>,
    name: Seq<char>,
    after: Seq<char>,
    size: u64,
)
    requires
        v.path == Some(path),
        texts::all_white(before),
        texts::all_white(after),
        texts::tight(name),
    ensures
        ({
            let r = v.past_header(HeaderView { name: before + name + after, size, kind: 1 });
            &&& good_name(name) ==> {
                &&& r is Ok
                &&& r->Ok_0.entries == v.entries.push(
                    Received::File(path.push(name), Seq::empty()),
                )
                &&& r->Ok_0.current == name
                &&& r->Ok_0.path == v.path
                &&& r->Ok_0.received == v.received
                &&& r->Ok_0.encoding == v.encoding
                &&& !r->Ok_0.first
                &&& size == 0 ==> between(r->Ok_0)
                &&& size > 0 ==> r->Ok_0.phase == PhaseView::Content(size as nat)
            }
            &&& !good_name(name) ==> r == Err::<FolderView, FolderError>(FolderError::UnsafeFile)
        }),
        !v.first ==> {
            let r = v.past_header(HeaderView { name: before + name + after, size, kind: 2 });
            &&& good_name(name) ==> {
                &&& r is Ok
                &&& r->Ok_0.entries == v.entries.push(Received::Dir(path.push(name)))
                &&& r->Ok_0.path == Some(path.push(name))
                &&& r->Ok_0.current == v.current
                &&& r->Ok_0.received == v.received
                &&& r->Ok_0.encoding == v.encoding
                &&& !r->Ok_0.first
                &&& between(r->Ok_0)
            }
            &&& !good_name(name) ==> r == Err::<FolderView, FolderError>(
                FolderError::UnsafeDirectory,
            )
        },
        ({
            let r = v.past_header(HeaderView { name: before + name + after, size, kind: 3 });
            &&& r is Ok
            &&& path.len() > 0 ==> r->Ok_0.path == Some(path.drop_last())
            &&& path.len() == 0 ==> r->Ok_0.path is None
            &&& r->Ok_0.entries == v.entries
            &&& r->Ok_0.current == v.current
            &&& r->Ok_0.received == v.received
            &&& !r->Ok_0.first
            &&& between(r->Ok_0)
        }),
{
    names::law_names_accepted(name);
    names::law_names_trimmed(before, name, after);
}

/// A name that is refused is refused behind the end of the folder too.
pub proof fn law_bad_names_refused(v: FolderView, name: Seq<char>, size: u64)
    requires
        texts::tight(name),
        !good_name(name),
    ensures
        v.past_header(HeaderView { name, size, kind: 1 }) == Err::<FolderView, FolderError>(
            FolderError::UnsafeFile,
        ),
        !v.first ==> v.past_header(HeaderView { name, size, kind: 2 }) == Err::<
            FolderView,
            FolderError,
        >(FolderError::UnsafeDirectory),
{
    names::law_names_accepted(name);
}

/// What has another kind is passed over with its content, and so is everything behind the
/// end of the folder; nothing is received by it.
pub proof fn law_strange_headers(v: FolderView, h: HeaderView)
    requires
        h.kind != 1 && h.kind != 2 && h.kind != 3 || (v.path is None && !v.first
            && filename::component_of(h.name) is Some),
    ensures
        ({
            let r = v.past_header(h);
            &&& r is Ok
            &&& r->Ok_0.entries == v.entries
            &&& r->Ok_0.path == v.path
            &&& r->Ok_0.received == v.received
            &&& r->Ok_0.current == v.current
            &&& !r->Ok_0.first
            &&& h.kind > 3 || h.kind == 0 ==> {
                &&& h.size == 0 ==> between(r->Ok_0)
                &&& h.size > 0 ==> r->Ok_0.phase == PhaseView::Skip(h.size as nat)
            }
            &&& 1 <= h.kind <= 3 ==> between(r->Ok_0)
        }),
{
}

/// The bytes of a content are added to the file that was opened last, and counted, as many
/// as were stated and no more; those of what is passed over are not.
pub proof fn law_content_bytes(v: FolderView, b: u8)
    requires
        v.sound(),
    ensures
        v.phase matches PhaseView::Content(left) ==> {
            let r = v.past_byte(b);
            let n = v.entries.len() - 1;
            &&& v.entries.last() is File
            &&& r is Ok
            &&& r->Ok_0.entries == v.entries.update(
                n,
                Received::File(v.entries[n]->File_0, v.entries[n]->File_1.push(b)),
            )
            &&& r->Ok_0.received == v.received + 1
            &&& r->Ok_0.path == v.path
            &&& r->Ok_0.current == v.current
            &&& left > 1 ==> r->Ok_0.phase == PhaseView::Content((left - 1) as nat)
            &&& left == 1 ==> between(r->Ok_0)
        },
        v.phase matches PhaseView::Skip(left) ==> {
            let r = v.past_byte(b);
            &&& r is Ok
            &&& r->Ok_0.entries == v.entries
            &&& r->Ok_0.received == v.received
            &&& r->Ok_0.path == v.path
            &&& r->Ok_0.current == v.current
            &&& left > 1 ==> r->Ok_0.phase == PhaseView::Skip((left - 1) as nat)
            &&& left == 1 ==> between(r->Ok_0)
        },
{
    if v.phase is Content {
        let n = v.entries.len() - 1;
        let r = v.past_byte(b);
        assert(v.entries[n] == v.entries.last());
        assert(v.entries[n]->File_1 + seq![b] =~= v.entries[n]->File_1.push(b));
        assert(r->Ok_0.entries =~= v.entries.update(
            n,
            Received::File(v.entries[n]->File_0, v.entries[n]->File_1.push(b)),
        ));
    }
}

/// A header begins with its length: up to ten hexadecimal digits and a colon. The length
/// counts these digits and the colon too; one that is no number or less than that is
/// refused. Then come as many bytes of the header as are left.
pub proof fn law_header_length(v: FolderView, digits: Seq<u8>, b: u8)
    requires
        v.phase == PhaseView::Length(digits),
    ensures
        b != 58 && digits.len() < 10 ==> v.past_byte(b) == Ok::<FolderView, FolderError>(
            FolderView { phase: PhaseView::Length(digits.push(b)), ..v },
        ),
        b != 58 && digits.len() >= 10 ==> v.past_byte(b) == Err::<FolderView, FolderError>(
            FolderError::LengthTooLong,
        ),
        ({
            let n = number::u32_in(Seq::new(digits.len(), |i: int| digits[i] as char), 16);
            let left = n->0 - digits.len() - 1;
            &&& n is None || left < 0 ==> v.past_byte(58) == Err::<FolderView, FolderError>(
                FolderError::BadLength,
            )
            &&& n is Some && left > 0 ==> v.past_byte(58) == Ok::<FolderView, FolderError>(
                FolderView { phase: PhaseView::Header(left as nat, Seq::empty()), ..v },
            )
        }),
{
}

/// The bytes of a header are gathered until all are there, and then read as one text.
pub proof fn law_header_gathered(v: FolderView, left: nat, bytes: Seq<u8>, b: u8)
    requires
        v.phase == PhaseView::Header(left, bytes),
        left > 0,
    ensures
        left > 1 ==> v.past_byte(b) == Ok::<FolderView, FolderError>(
            FolderView { phase: PhaseView::Header((left - 1) as nat, bytes.push(b)), ..v },
        ),
        left == 1 ==> v.past_byte(b) == match folder::header_in(
            text::decoded(v.encoding, bytes.push(b)),
        ) {
            Ok(h) => v.past_header(h),
            Err(e) => Err(e),
        },
{
}

/// A stream may end between two headers once the first was read, and within what is passed
/// over; it may not end within a header or a content, or before anything was read.
pub proof fn law_end_of_stream(v: FolderView)
    ensures
        v.at_end() is Ok <==> (v.phase is Length && !v.first) || v.phase is Skip,
        v.phase is Length && v.first ==> v.at_end() == Err::<(), FolderError>(FolderError::NoData),
        v.phase is Header || v.phase is Content ==> v.at_end() == Err::<(), FolderError>(
            FolderError::UnexpectedEnd,
        ),
{
}

/// Whoever saves a folder is told what to do: to make the file or the directory that was
/// received last, or to write these bytes to the file.
pub proof fn law_steps_to_take(
    s: &mut FolderReceiver,
    bytes: &[u8],
    r: Result<FolderStep, FolderError>,
)
    requires
        old(s).wf(),
        call_ensures(FolderReceiver::take, (s, bytes), r),
        old(s)@.past(bytes@) is Ok,
    ensures
        r is Ok,
        final(s)@ == old(s)@.past(bytes@)->Ok_0,
        match r->Ok_0 {
            FolderStep::Nothing => final(s)@.entries == old(s)@.entries,
            FolderStep::NewFile { dirs, name } => final(s)@.entries == old(s)@.entries.push(
                Received::File(
                    Seq::new(dirs@.len(), |i: int| dirs@[i]@).push(name@),
                    Seq::empty(),
                ),
            ),
            FolderStep::NewDir { dirs, name } => final(s)@.entries == old(s)@.entries.push(
                Received::Dir(Seq::new(dirs@.len(), |i: int| dirs@[i]@).push(name@)),
            ),
            FolderStep::Data => old(s)@.phase is Content && (old(s)@.entries.len() > 0
                && old(s)@.entries.last() is File ==> {
                let n = old(s)@.entries.len() - 1;
                let f = old(s)@.entries[n];
                final(s)@.entries == old(s)@.entries.update(
                    n,
                    Received::File(f->File_0, f->File_1 + bytes@),
                )
            }),
        },
{
    if r->Ok_0 is Data && old(s)@.entries.len() > 0 && old(s)@.entries.last() is File {
        let n = old(s)@.entries.len() - 1;
        let f = old(s)@.entries[n];
        assert(final(s)@.entries =~= old(s)@.entries.update(
            n,
            Received::File(f->File_0, f->File_1 + bytes@),
        ));
    }
}

/// What is read next is never more than is missing of the header or the content, and at most
/// 8192 bytes of a content at once; a length is read byte by byte.
pub proof fn law_read_at_once(v: FolderView)
    ensures
        v.phase is Length ==> v.wanted() == 1,
        v.phase matches PhaseView::Header(left, _) ==> v.wanted() == left,
        v.phase matches PhaseView::Content(left) ==> v.wanted() <= left && v.wanted() <= 8192 && (
        v.wanted() == left || v.wanted() == 8192),
        v.phase matches PhaseView::Skip(left) ==> v.wanted() <= left && v.wanted() <= 8192 && (
        v.wanted() == left || v.wanted() == 8192),
{
}

/// A file in a folder that is sent gets a header from which the receiver opens the same file
/// with the same size, and a directory one by which the receiver enters the same directory.
/// No good name is left out; what has another name, and what is neither, is.
pub proof fn law_entry_is_sent(
    encoding: TextEncoding,
    kind: EntryKind,
    name: &str,
    size: u64,
    mtime: u64,
    now: u64,
    r: EntryPlan,
    v: FolderView,
    path: Seq<Seq<char>>,
)
    requires
        call_ensures(folder_sender::plan_entry, (encoding, kind, name, size, mtime, now), r),
        texts::tight(name@),
        v.encoding == encoding,
        v.path == Some(path),
        !v.first,
        between(v),
        folder_sender::carried(
            encoding,
            name@,
            1,
            size,
            if mtime == 0 {
                now
            } else {
                mtime
            },
        ),
        folder_sender::carried(
            encoding,
            name@,
            2,
            0,
            if mtime == 0 {
                now
            } else {
                mtime
            },
        ),
    ensures
        !good_name(name@) ==> r is Skip,
        kind != EntryKind::File && kind != EntryKind::Dir ==> r is Skip,
        good_name(name@) && kind == EntryKind::File ==> {
            &&& r is SendFile
            &&& v.past(r->SendFile_0@) is Ok
            &&& v.past(r->SendFile_0@)->Ok_0.entries == v.entries.push(
                Received::File(path.push(name@), Seq::empty()),
            )
            &&& size > 0 ==> v.past(r->SendFile_0@)->Ok_0.phase == PhaseView::Content(size as nat)
            &&& size == 0 ==> between(v.past(r->SendFile_0@)->Ok_0)
        },
        good_name(name@) && kind == EntryKind::Dir ==> {
            &&& r is Descend
            &&& v.past(r->Descend_0@) is Ok
            &&& v.past(r->Descend_0@)->Ok_0.entries == v.entries.push(
                Received::Dir(path.push(name@)),
            )
            &&& v.past(r->Descend_0@)->Ok_0.path == Some(path.push(name@))
        },
{
    names::law_names_accepted(name@);
    let time = folder_sender::stated_time(mtime, now);
    if good_name(name@) {
        if name@.contains(':') {
            let k = name@.index_of(':');
            assert(names::ordinary(name@[k]));
        }
        let none = Seq::<char>::empty();
        assert(none + name@ + none =~= name@);
        law_entry_headers(v, path, none, name@, none, size);
        law_entry_headers(v, path, none, name@, none, 0);
        folder_sender::lemma_past_written_header(v, name@, 1, size, time);
        folder_sender::lemma_past_written_header(v, name@, 2, 0, time);
    }
}

/// The header that begins a folder is taken for the folder itself, and the one that ends a
/// directory leads back out of it.
pub proof fn law_folder_begins_and_ends(
    encoding: TextEncoding,
    name: &str,
    mtime: u64,
    now: u64,
    root: Vec<u8>,
    back: Vec<u8>,
    v: FolderView,
    w: FolderView,
    path: Seq<Seq<char>>,
)
    requires
        call_ensures(folder_sender::root_header, (encoding, name, mtime, now), root),
        call_ensures(folder_sender::back_header, (encoding, now), back),
        name@.len() > 0,
        !name@.contains(':'),
        v.encoding == encoding,
        v.first,
        between(v),
        w.encoding == encoding,
        w.path == Some(path),
        !w.first,
        between(w),
        folder_sender::carried(
            encoding,
            name@,
            2,
            0,
            if mtime == 0 {
                now
            } else {
                mtime
            },
        ),
        folder_sender::carried(encoding, seq!['.'], 3, 0, now),
    ensures
        v.past(root@) is Ok,
        v.past(root@)->Ok_0.entries == v.entries,
        v.past(root@)->Ok_0.path == v.path,
        !v.past(root@)->Ok_0.first,
        between(v.past(root@)->Ok_0),
        w.past(back@) is Ok,
        w.past(back@)->Ok_0.entries == w.entries,
        path.len() > 0 ==> w.past(back@)->Ok_0.path == Some(path.drop_last()),
        path.len() == 0 ==> w.past(back@)->Ok_0.path is None,
        between(w.past(back@)->Ok_0),
{
    let time = folder_sender::stated_time(mtime, now);
    folder_sender::lemma_past_written_header(v, name@, 2, 0, time);
    let dot = seq!['.'];
    if dot.contains(':') {
        let k = dot.index_of(':');
        assert(dot[k] == ':');
    }
    folder_sender::lemma_past_written_header(w, dot, 3, 0, now);
    law_root_header(v, name@, 0);
}

/// An entry is sent under its own name, or under a common one where it has none.
pub proof fn law_names_of_entries(name: Option<String>, kind: EntryKind, r: String)
    requires
        call_ensures(folder_sender::entry_name, (name, kind), r),
    ensures
        name is Some ==> r@ == name->0@,
        name is None && kind == EntryKind::Dir ==> r@ == seq!['d', 'i', 'r'],
        name is None && kind != EntryKind::Dir ==> r@ == seq!['f', 'i', 'l', 'e'],
{
    reveal_strlit("dir");
    reveal_strlit("file");
    assert("dir"@ =~= seq!['d', 'i', 'r']);
    assert("file"@ =~= seq!['f', 'i', 'l', 'e']);
}

/// A receiver starts in front of the folder with nothing received, and tells how much came
/// and which file is the last.
pub proof fn law_receiver_asked(
    encoding: TextEncoding,
    fresh: FolderReceiver,
    s: &FolderReceiver,
    n: u64,
    name: &str,
    end: Result<(), FolderError>,
)
    requires
        call_ensures(FolderReceiver::new, (encoding,), fresh),
        call_ensures(FolderReceiver::received, (s,), n),
        call_ensures(FolderReceiver::current, (s,), name),
        call_ensures(FolderReceiver::end, (s,), end),
    ensures
        fresh@.first,
        between(fresh@),
        fresh@.path == Some(Seq::<Seq<char>>::empty()),
        fresh@.received == 0,
        fresh@.entries.len() == 0,
        fresh@.encoding == encoding,
        n == s@.received,
        name@ == s@.current,
        end == s@.at_end(),
{
}

/// Where a folder fails, the receiver says why.
pub proof fn law_failure_told(
    s: &mut FolderReceiver,
    bytes: &[u8],
    r: Result<FolderStep, FolderError>,
)
    requires
        old(s).wf(),
        call_ensures(FolderReceiver::take, (s, bytes), r),
    ensures
        r is Err <==> old(s)@.past(bytes@) is Err,
        r is Err ==> r->Err_0 == old(s)@.past(bytes@)->Err_0,
{
}

} // verus!
