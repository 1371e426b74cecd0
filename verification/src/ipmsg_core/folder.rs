//! Folders on the wire: a row of headers, each with the content of a file behind
//! it or a step into or out of a directory.
use crate::chars;
use crate::chars::{split, to_chars, to_text};
use crate::ipmsg_core::filename;
use crate::ipmsg_core::filename::sanitize_wire_filename;
use crate::ipmsg_core::protocol::{IPMSG_FILE_DIR, IPMSG_FILE_REGULAR, IPMSG_FILE_RETPARENT};
use crate::ipmsg_core::text;
use crate::ipmsg_core::text::{decode_text, TextEncoding};
use crate::number;
use crate::number::{parse_u32, parse_u64};
use vstd::prelude::*;
use vstd::slice::slice_to_vec;

verus! {

/// Why the reception of a folder fails.
#[derive(Debug, Clone, Copy, PartialEq, Eq, Structural)]
pub enum FolderError {
    /// The stream ends before the first header.
    NoData,
    /// No colon ends the length of a header after ten characters.
    LengthTooLong,
    /// The length of a header is no hexadecimal number, or less than the length of the
    /// length itself.
    BadLength,
    /// A header has too few fields.
    BadHeader,
    /// The size in a header is no hexadecimal number.
    BadSize,
    /// The kind in a header is no hexadecimal number.
    BadKind,
    /// A file has a name that is refused.
    UnsafeFile,
    /// A directory has a name that is refused.
    UnsafeDirectory,
    /// The stream ends inside a header or inside the content of a file.
    UnexpectedEnd,
}

/// How many characters the length of a header may have.
pub const MAX_LENGTH_DIGITS: usize = 10;

/// How much of a content is read at once.
pub const CHUNK: usize = 8192;

/// What has been received: directories, and files with their content so far.
pub enum Received {
    Dir(Seq<Seq<char>>),
    File(Seq<Seq<char>>, Seq<u8>),
}

/// The place in the stream.
pub enum PhaseView {
    /// In the length of a header, these characters of which were read.
    Length(Seq<u8>),
    /// In a header, of which so many bytes are missing and these were read.
    Header(nat, Seq<u8>),
    /// In the content of a file, of which so many bytes are missing.
    Content(nat),
    /// In a content that is skipped, of which so many bytes are missing.
    Skip(nat),
}

/// A reception that is under way.
#[verifier::ext_equal]
pub struct FolderView {
    pub encoding: TextEncoding,
    /// No header has been read.
    pub first: bool,
    /// The current directory below the root; `None` once the root was left.
    pub path: Option<Seq<Seq<char>>>,
    pub phase: PhaseView,
    /// How many bytes of content were received.
    pub received: nat,
    /// The name of the last file.
    pub current: Seq<char>,
    pub entries: Seq<Received>,
}

/// The fields of a header.
pub struct HeaderView {
    pub name: Seq<char>,
    pub size: u64,
    pub kind: u32,
}

/// The length that these characters state.
pub open spec fn stated_length(digits: Seq<u8>) -> Option<u32> {
    number::u32_in(Seq::new(digits.len(), |i: int| digits[i] as char), 16)
}

/// Which part of a header is the name. There may be an empty part in front.
pub open spec fn name_at(parts: Seq<Seq<char>>) -> Option<int> {
    if parts.len() < 3 {
        None
    } else if parts[0].len() > 0 {
        Some(0)
    } else if parts.len() >= 4 {
        Some(1)
    } else {
        None
    }
}

/// The fields in the text of a header, up to those that are not read.
pub open spec fn header_in(text: Seq<char>) -> Result<HeaderView, FolderError> {
    let parts = chars::pieces(text, ':');
    match name_at(parts) {
        None => Err(FolderError::BadHeader),
        Some(i) => match (number::u64_in(parts[i + 1], 16), number::u32_in(parts[i + 2], 16)) {
            (None, _) => Err(FolderError::BadSize),
            (_, None) => Err(FolderError::BadKind),
            (Some(size), Some(kind)) => Ok(HeaderView { name: parts[i], size, kind }),
        },
    }
}

/// The content received for the last file, with more behind it.
pub open spec fn extended(entries: Seq<Received>, data: Seq<u8>) -> Seq<Received> {
    if entries.len() > 0 {
        match entries.last() {
            Received::File(path, content) => entries.drop_last().push(
                Received::File(path, content + data),
            ),
            Received::Dir(_) => entries,
        }
    } else {
        entries
    }
}

/// The phase in which a content of this size is read, and the next header
/// where there is none.
pub open spec fn content_phase(left: nat) -> PhaseView {
    if left == 0 {
        PhaseView::Length(Seq::empty())
    } else {
        PhaseView::Content(left)
    }
}

/// The phase in which a content of this size is skipped, and the next header
/// where there is none.
pub open spec fn skip_phase(left: nat) -> PhaseView {
    if left == 0 {
        PhaseView::Length(Seq::empty())
    } else {
        PhaseView::Skip(left)
    }
}

impl FolderView {
    /// Nothing has been received.
    pub open spec fn start(encoding: TextEncoding) -> FolderView {
        FolderView {
            encoding,
            first: true,
            path: Some(Seq::empty()),
            phase: PhaseView::Length(Seq::empty()),
            received: 0,
            current: Seq::empty(),
            entries: Seq::empty(),
        }
    }

    /// After a header. The first one, if it is that of a directory, is the root
    /// itself; files and directories behind the end of the root are passed over.
    pub open spec fn past_header(self, h: HeaderView) -> Result<FolderView, FolderError> {
        let v = FolderView { first: false, phase: PhaseView::Length(Seq::empty()), ..self };
        let component = filename::component_of(h.name);
        if h.kind == IPMSG_FILE_REGULAR {
            match (component, self.path) {
                (None, _) => Err(FolderError::UnsafeFile),
                (Some(_), None) => Ok(v),
                (Some(name), Some(path)) => Ok(
                    FolderView {
                        phase: content_phase(h.size as nat),
                        current: name,
                        entries: self.entries.push(Received::File(path.push(name), Seq::empty())),
                        ..v
                    },
                ),
            }
        } else if h.kind == IPMSG_FILE_DIR {
            if self.first {
                Ok(v)
            } else {
                match (component, self.path) {
                    (None, _) => Err(FolderError::UnsafeDirectory),
                    (Some(_), None) => Ok(v),
                    (Some(name), Some(path)) => Ok(
                        FolderView {
                            path: Some(path.push(name)),
                            entries: self.entries.push(Received::Dir(path.push(name))),
                            ..v
                        },
                    ),
                }
            }
        } else if h.kind == IPMSG_FILE_RETPARENT {
            Ok(
                FolderView {
                    path: match self.path {
                        Some(path) => if path.len() > 0 {
                            Some(path.drop_last())
                        } else {
                            None
                        },
                        None => None,
                    },
                    ..v
                },
            )
        } else {
            Ok(FolderView { phase: skip_phase(h.size as nat), ..v })
        }
    }

    /// After the last byte of a header.
    pub open spec fn past_header_bytes(self, bytes: Seq<u8>) -> Result<FolderView, FolderError> {
        match header_in(text::decoded(self.encoding, bytes)) {
            Ok(h) => self.past_header(h),
            Err(e) => Err(e),
        }
    }

    /// After the colon that ends the length of a header. The length counts its own
    /// characters and the colon, so it cannot be less.
    pub open spec fn past_length(self, digits: Seq<u8>) -> Result<FolderView, FolderError> {
        match stated_length(digits) {
            None => Err(FolderError::BadLength),
            Some(n) => {
                let left = n - digits.len() - 1;
                if left < 0 {
                    Err(FolderError::BadLength)
                } else if left == 0 {
                    self.past_header_bytes(Seq::empty())
                } else {
                    Ok(FolderView { phase: PhaseView::Header(left as nat, Seq::empty()), ..self })
                }
            },
        }
    }

    /// After one more byte.
    pub open spec fn past_byte(self, b: u8) -> Result<FolderView, FolderError> {
        match self.phase {
            PhaseView::Length(digits) => if b == 0x3a {
                self.past_length(digits)
            } else if digits.len() >= MAX_LENGTH_DIGITS {
                Err(FolderError::LengthTooLong)
            } else {
                Ok(FolderView { phase: PhaseView::Length(digits.push(b)), ..self })
            },
            PhaseView::Header(left, bytes) => if left <= 1 {
                self.past_header_bytes(bytes.push(b))
            } else {
                Ok(
                    FolderView {
                        phase: PhaseView::Header((left - 1) as nat, bytes.push(b)),
                        ..self
                    },
                )
            },
            PhaseView::Content(left) => Ok(
                FolderView {
                    phase: content_phase((left - 1) as nat),
                    received: self.received + 1,
                    entries: extended(self.entries, seq![b]),
                    ..self
                },
            ),
            PhaseView::Skip(left) => Ok(
                FolderView { phase: skip_phase((left - 1) as nat), ..self },
            ),
        }
    }

    /// After more bytes.
    pub open spec fn past(self, bytes: Seq<u8>) -> Result<FolderView, FolderError>
        decreases bytes.len(),
    {
        if bytes.len() == 0 {
            Ok(self)
        } else {
            match self.past(bytes.drop_last()) {
                Ok(v) => v.past_byte(bytes.last()),
                Err(e) => Err(e),
            }
        }
    }

    /// What the end of the stream means.
    pub open spec fn at_end(self) -> Result<(), FolderError> {
        match self.phase {
            PhaseView::Length(_) => if self.first {
                Err(FolderError::NoData)
            } else {
                Ok(())
            },
            PhaseView::Skip(_) => Ok(()),
            PhaseView::Header(_, _) => Err(FolderError::UnexpectedEnd),
            PhaseView::Content(_) => Err(FolderError::UnexpectedEnd),
        }
    }

    /// How many bytes can be taken at once.
    pub open spec fn wanted(self) -> nat {
        match self.phase {
            PhaseView::Length(_) => 1,
            PhaseView::Header(left, _) => left,
            PhaseView::Content(left) => if left < CHUNK {
                left
            } else {
                CHUNK as nat
            },
            PhaseView::Skip(left) => if left < CHUNK {
                left
            } else {
                CHUNK as nat
            },
        }
    }

    /// The byte ends the length of a header that is too long for memory.
    pub open spec fn oversized_by(self, b: u8) -> bool {
        match self.phase {
            PhaseView::Length(digits) => b == 0x3a && (match stated_length(digits) {
                Some(n) => n - digits.len() - 1 > text::MAX_TEXT,
                None => false,
            }),
            _ => false,
        }
    }

    /// The header that these bytes complete, behind the colon that ends its length.
    pub open spec fn completed_by(self, bytes: Seq<u8>) -> Option<Seq<u8>> {
        match self.phase {
            PhaseView::Header(left, read) => if bytes.len() == left {
                Some(read + bytes)
            } else {
                None
            },
            _ => None,
        }
    }

    /// What is always so.
    pub open spec fn sound(self) -> bool {
        &&& match self.phase {
            PhaseView::Length(digits) => digits.len() <= MAX_LENGTH_DIGITS,
            PhaseView::Header(left, _) => left > 0,
            PhaseView::Content(left) => left > 0 && self.entries.len() > 0
                && self.entries.last() is File,
            PhaseView::Skip(left) => left > 0,
        }
        &&& self.all_safe()
        &&& self.first ==> self.entries.len() == 0
    }

    /// Every directory and every file lies below the root: the components of its
    /// path are safe.
    pub open spec fn all_safe(self) -> bool {
        &&& self.path matches Some(path) ==> safe_path(path)
        &&& forall|i: int|
            0 <= i < self.entries.len() ==> match #[trigger] self.entries[i] {
                Received::Dir(path) => path.len() > 0 && safe_path(path),
                Received::File(path, _) => path.len() > 0 && safe_path(path),
            }
    }
}

pub open spec fn safe_path(path: Seq<Seq<char>>) -> bool {
    forall|i: int| 0 <= i < path.len() ==> filename::safe_component(#[trigger] path[i])
}

/// Whatever bytes come, nothing is received outside the root.
pub proof fn law_nothing_outside_root(v: FolderView, bytes: Seq<u8>)
    requires
        v.sound(),
    ensures
        v.past(bytes) matches Ok(w) ==> w.sound(),
    decreases bytes.len(),
{
    if bytes.len() > 0 {
        law_nothing_outside_root(v, bytes.drop_last());
        match v.past(bytes.drop_last()) {
            Ok(w) => lemma_sound_past_byte(w, bytes.last()),
            Err(_) => {},
        }
    }
}

proof fn lemma_sound_past_header(v: FolderView, h: HeaderView)
    requires
        v.all_safe(),
        v.first ==> v.entries.len() == 0,
    ensures
        v.past_header(h) matches Ok(w) ==> w.sound(),
{
}

proof fn lemma_sound_past_byte(v: FolderView, b: u8)
    requires
        v.sound(),
    ensures
        v.past_byte(b) matches Ok(w) ==> w.sound(),
{
    match v.phase {
        PhaseView::Length(digits) => {
            if b == 0x3a {
                if let Ok(h) = header_in(text::decoded(v.encoding, Seq::empty())) {
                    lemma_sound_past_header(v, h);
                }
            }
        },
        PhaseView::Header(left, bytes) => {
            if let Ok(h) = header_in(text::decoded(v.encoding, bytes.push(b))) {
                lemma_sound_past_header(v, h);
            }
        },
        PhaseView::Content(_) => {},
        PhaseView::Skip(_) => {},
    }
}

/// How the stream is cut into pieces does not matter.
pub proof fn law_pieces_of_stream(v: FolderView, a: Seq<u8>, b: Seq<u8>)
    ensures
        v.past(a + b) == match v.past(a) {
            Ok(w) => w.past(b),
            Err(e) => Err(e),
        },
    decreases b.len(),
{
    if b.len() == 0 {
        assert(a + b =~= a);
    } else {
        law_pieces_of_stream(v, a, b.drop_last());
        assert((a + b).drop_last() =~= a + b.drop_last());
        assert((a + b).last() == b.last());
    }
}

proof fn lemma_past_header_part(v: FolderView, bytes: Seq<u8>)
    requires
        v.phase is Header,
        bytes.len() < v.phase->Header_0,
    ensures
        v.past(bytes) == Ok::<FolderView, FolderError>(
            FolderView {
                phase: PhaseView::Header(
                    (v.phase->Header_0 - bytes.len()) as nat,
                    v.phase->Header_1 + bytes,
                ),
                ..v
            },
        ),
    decreases bytes.len(),
{
    if bytes.len() == 0 {
        assert(v.phase->Header_1 + bytes =~= v.phase->Header_1);
    } else {
        lemma_past_header_part(v, bytes.drop_last());
        assert((v.phase->Header_1 + bytes.drop_last()).push(bytes.last()) =~= v.phase->Header_1
            + bytes);
    }
}

pub proof fn lemma_past_header_whole(v: FolderView, bytes: Seq<u8>)
    requires
        v.phase is Header,
        bytes.len() == v.phase->Header_0 > 0,
    ensures
        v.past(bytes) == v.past_header_bytes(v.phase->Header_1 + bytes),
{
    lemma_past_header_part(v, bytes.drop_last());
    assert((v.phase->Header_1 + bytes.drop_last()).push(bytes.last()) =~= v.phase->Header_1
        + bytes);
    let w = v.past(bytes.drop_last())->Ok_0;
    let h = v.phase->Header_1 + bytes;
    assert(w.past_header_bytes(h) == v.past_header_bytes(h));
}

pub proof fn lemma_past_content(v: FolderView, bytes: Seq<u8>)
    requires
        v.phase is Content,
        bytes.len() <= v.phase->Content_0,
        v.phase->Content_0 > 0,
        v.entries.len() > 0,
        v.entries.last() is File,
    ensures
        v.past(bytes) == Ok::<FolderView, FolderError>(
            FolderView {
                phase: content_phase((v.phase->Content_0 - bytes.len()) as nat),
                received: v.received + bytes.len(),
                entries: extended(v.entries, bytes),
                ..v
            },
        ),
    decreases bytes.len(),
{
    if bytes.len() == 0 {
        let content = v.entries.last()->File_1;
        assert(content + bytes =~= content);
        assert(extended(v.entries, bytes) =~= v.entries);
    } else {
        lemma_past_content(v, bytes.drop_last());
        let content = v.entries.last()->File_1;
        assert(content + bytes.drop_last() + seq![bytes.last()] =~= content + bytes);
        assert(extended(extended(v.entries, bytes.drop_last()), seq![bytes.last()]) =~= extended(
            v.entries,
            bytes,
        ));
    }
}

proof fn lemma_past_skip(v: FolderView, bytes: Seq<u8>)
    requires
        v.phase is Skip,
        bytes.len() <= v.phase->Skip_0,
        v.phase->Skip_0 > 0,
    ensures
        v.past(bytes) == Ok::<FolderView, FolderError>(
            FolderView { phase: skip_phase((v.phase->Skip_0 - bytes.len()) as nat), ..v },
        ),
    decreases bytes.len(),
{
    if bytes.len() > 0 {
        lemma_past_skip(v, bytes.drop_last());
    }
}

#[derive(Debug, Clone, Copy, PartialEq, Eq, Structural)]
enum Phase {
    Length,
    Header,
    Content,
    Skip,
}

/// What is to be done about the bytes that were taken. A path is given by the
/// directories below the root and the last name.
#[derive(Debug)]
pub enum FolderStep {
    Nothing,
    /// A file begins; its content follows.
    NewFile { dirs: Vec<String>, name: String },
    /// There is a directory.
    NewDir { dirs: Vec<String>, name: String },
    /// The bytes are content of the last file.
    Data,
}

/// What has been received once a step is done.
pub open spec fn noted(before: Seq<Received>, step: FolderStep, bytes: Seq<u8>) -> Seq<Received> {
    match step {
        FolderStep::Nothing => before,
        FolderStep::NewFile { dirs, name } => before.push(
            Received::File(chars::string_views(dirs@).push(name@), Seq::empty()),
        ),
        FolderStep::NewDir { dirs, name } => before.push(
            Received::Dir(chars::string_views(dirs@).push(name@)),
        ),
        FolderStep::Data => extended(before, bytes),
    }
}

/// Takes in the stream of a folder and says what to do about it.
pub struct FolderReceiver {
    encoding: TextEncoding,
    first: bool,
    path: Option<Vec<String>>,
    phase: Phase,
    buf: Vec<u8>,
    left: u64,
    received: u64,
    current: String,
    entries: Ghost<Seq<Received>>,
}

impl View for FolderReceiver {
    type V = FolderView;

    closed spec fn view(&self) -> FolderView {
        FolderView {
            encoding: self.encoding,
            first: self.first,
            path: match self.path {
                Some(path) => Some(chars::string_views(path@)),
                None => None,
            },
            phase: match self.phase {
                Phase::Length => PhaseView::Length(self.buf@),
                Phase::Header => PhaseView::Header(self.left as nat, self.buf@),
                Phase::Content => PhaseView::Content(self.left as nat),
                Phase::Skip => PhaseView::Skip(self.left as nat),
            },
            received: self.received as nat,
            current: self.current@,
            entries: self.entries@,
        }
    }
}

fn copy_strings(v: &Vec<String>) -> (r: Vec<String>)
    ensures
        r@ == v@,
{
    let mut r: Vec<String> = Vec::new();
    let mut i: usize = 0;
    while i < v.len()
        invariant
            i <= v@.len(),
            r@ =~= v@.take(i as int),
        decreases v@.len() - i,
    {
        r.push(v[i].clone());
        i += 1;
    }
    assert(v@.take(i as int) =~= v@);
    r
}

struct Header {
    name: String,
    size: u64,
    kind: u32,
}

fn parse_header(text: &str) -> (r: Result<Header, FolderError>)
    ensures
        match header_in(text@) {
            Ok(h) => r is Ok && r->Ok_0.name@ == h.name && r->Ok_0.size == h.size && r->Ok_0.kind
                == h.kind,
            Err(e) => r == Err::<Header, FolderError>(e),
        },
{
    let line = to_chars(text);
    let parts = split(line.as_slice(), ':');
    assert(forall|i: int|
        0 <= i < parts@.len() ==> chars::pieces(text@, ':')[i] == (#[trigger] parts@[i])@);
    if parts.len() < 3 {
        return Err(FolderError::BadHeader);
    }
    let at: usize = if parts[0].len() > 0 {
        0
    } else if parts.len() >= 4 {
        1
    } else {
        return Err(FolderError::BadHeader);
    };
    let size: u64 = match parse_u64(parts[at + 1].as_slice(), 16) {
        Some(size) => size,
        None => {
            return Err(FolderError::BadSize);
        },
    };
    let kind: u32 = match parse_u32(parts[at + 2].as_slice(), 16) {
        Some(kind) => kind,
        None => {
            return Err(FolderError::BadKind);
        },
    };
    Ok(Header { name: to_text(parts[at].as_slice()), size, kind })
}

fn parse_length(digits: &Vec<u8>) -> (r: Option<u32>)
    ensures
        r == stated_length(digits@),
{
    let mut s: Vec<char> = Vec::new();
    let mut i: usize = 0;
    while i < digits.len()
        invariant
            i <= digits@.len(),
            s@ =~= Seq::new(i as nat, |k: int| digits@[k] as char),
        decreases digits@.len() - i,
    {
        s.push(digits[i] as char);
        i += 1;
    }
    parse_u32(s.as_slice(), 16)
}

impl FolderReceiver {
    /// What holds of every receiver.
    pub closed spec fn wf(self) -> bool {
        &&& self@.sound()
        &&& self.phase is Header ==> self.left + self.buf@.len() <= text::MAX_TEXT
    }

    /// A receiver of a new stream.
    pub fn new(encoding: TextEncoding) -> (r: FolderReceiver)
        ensures
            r.wf(),
            r@ == FolderView::start(encoding),
    {
        let path: Vec<String> = Vec::new();
        assert(chars::string_views(path@) =~= Seq::<Seq<char>>::empty());
        FolderReceiver {
            encoding,
            first: true,
            path: Some(path),
            phase: Phase::Length,
            buf: Vec::new(),
            left: 0,
            received: 0,
            current: String::new(),
            entries: Ghost(Seq::empty()),
        }
    }

    /// How many bytes of content were received.
    pub fn received(&self) -> (r: u64)
        ensures
            r == self@.received,
    {
        self.received
    }

    /// The name of the last file.
    pub fn current(&self) -> (r: &str)
        ensures
            r@ == self@.current,
    {
        self.current.as_str()
    }

    /// How many bytes can be taken at once.
    pub fn wanted(&self) -> (r: usize)
        requires
            self.wf(),
        ensures
            r == self@.wanted(),
            r > 0,
    {
        match self.phase {
            Phase::Length => 1,
            Phase::Header => self.left as usize,
            Phase::Content | Phase::Skip => if self.left < CHUNK as u64 {
                self.left as usize
            } else {
                CHUNK
            },
        }
    }

    /// Whether the byte ends the length of a header that is too long for memory.
    pub fn is_oversized_by(&self, b: u8) -> (r: bool)
        requires
            self.wf(),
        ensures
            r == self@.oversized_by(b),
    {
        match self.phase {
            Phase::Length => if b == 0x3a {
                match parse_length(&self.buf) {
                    Some(n) => {
                        let own: u64 = self.buf.len() as u64 + 1;
                        n as u64 > own && n as u64 - own > text::MAX_TEXT as u64
                    },
                    None => false,
                }
            } else {
                false
            },
            _ => false,
        }
    }

    /// What the end of the stream means.
    pub fn end(&self) -> (r: Result<(), FolderError>)
        ensures
            r == self@.at_end(),
    {
        match self.phase {
            Phase::Length => if self.first {
                Err(FolderError::NoData)
            } else {
                Ok(())
            },
            Phase::Skip => Ok(()),
            Phase::Header | Phase::Content => Err(FolderError::UnexpectedEnd),
        }
    }

    /// Acts on the header in the buffer.
    fn finish_header(&mut self) -> (r: Result<FolderStep, FolderError>)
        requires
            old(self)@.all_safe(),
            old(self)@.first ==> old(self)@.entries.len() == 0,
            old(self).buf@.len() <= text::MAX_TEXT,
        ensures
            match old(self)@.past_header_bytes(old(self).buf@) {
                Ok(v) => r is Ok && final(self)@ == v && final(self).wf() && noted(
                    old(self)@.entries,
                    r->Ok_0,
                    Seq::empty(),
                ) == v.entries && !(r->Ok_0 is Data),
                Err(e) => r == Err::<FolderStep, FolderError>(e),
            },
            forall|t: Seq<char>|
                old(self).buf@ == #[trigger] text::encoded(old(self)@.encoding, t)
                    && text::lossless(old(self)@.encoding, t) && text::unmarked(
                    t,
                    old(self).buf@,
                ) ==> text::decoded(old(self)@.encoding, old(self).buf@) == t,
    {
        let header = decode_text(self.encoding, self.buf.as_slice());
        let h = match parse_header(header.as_str()) {
            Ok(h) => h,
            Err(e) => {
                return Err(e);
            },
        };
        let ghost hv = HeaderView { name: h.name@, size: h.size, kind: h.kind };
        proof {
            lemma_sound_past_header(old(self)@, hv);
        }
        let first = self.first;
        let mut step = FolderStep::Nothing;
        self.first = false;
        self.phase = Phase::Length;
        self.buf = Vec::new();
        assert(self.buf@ =~= Seq::<u8>::empty());
        self.left = h.size;
        if h.kind == IPMSG_FILE_REGULAR {
            let name = match sanitize_wire_filename(h.name.as_str()) {
                Some(name) => name,
                None => {
                    return Err(FolderError::UnsafeFile);
                },
            };
            if let Some(path) = &self.path {
                let dirs = copy_strings(path);
                proof {
                    self.entries@ = self.entries@.push(
                        Received::File(chars::string_views(path@).push(name@), Seq::empty()),
                    );
                }
                self.current = name.clone();
                if h.size > 0 {
                    self.phase = Phase::Content;
                }
                step = FolderStep::NewFile { dirs, name };
            }
        } else if h.kind == IPMSG_FILE_DIR {
            if !first {
                let name = match sanitize_wire_filename(h.name.as_str()) {
                    Some(name) => name,
                    None => {
                        return Err(FolderError::UnsafeDirectory);
                    },
                };
                if let Some(path) = &mut self.path {
                    let dirs = copy_strings(path);
                    path.push(name.clone());
                    assert(chars::string_views(path@) =~= chars::string_views(dirs@).push(name@));
                    proof {
                        self.entries@ = self.entries@.push(
                            Received::Dir(chars::string_views(dirs@).push(name@)),
                        );
                    }
                    step = FolderStep::NewDir { dirs, name };
                }
            }
        } else if h.kind == IPMSG_FILE_RETPARENT {
            let mut left_root = false;
            if let Some(path) = &mut self.path {
                let ghost before = path@;
                if path.pop().is_none() {
                    left_root = true;
                } else {
                    assert(chars::string_views(path@) =~= chars::string_views(before).drop_last());
                }
            }
            if left_root {
                self.path = None;
            }
        } else if h.size > 0 {
            self.phase = Phase::Skip;
        }
        Ok(step)
    }

    /// Takes in the next bytes of the stream. A header whose characters the encoding
    /// has is read as it was written.
    pub fn take(&mut self, bytes: &[u8]) -> (r: Result<FolderStep, FolderError>)
        requires
            old(self).wf(),
            0 < bytes@.len() <= old(self)@.wanted(),
            !old(self)@.oversized_by(bytes@[0]),
            old(self)@.phase is Content ==> old(self)@.received + bytes@.len() <= u64::MAX,
        ensures
            match old(self)@.past(bytes@) {
                Ok(v) => {
                    &&& r is Ok
                    &&& final(self).wf()
                    &&& final(self)@ == v
                    &&& noted(old(self)@.entries, r->Ok_0, bytes@) == v.entries
                    &&& r->Ok_0 is Data <==> old(self)@.phase is Content
                },
                Err(e) => r == Err::<FolderStep, FolderError>(e),
            },
            old(self)@.completed_by(bytes@) matches Some(header) ==> forall|t: Seq<char>|
                header == #[trigger] text::encoded(old(self)@.encoding, t) && text::lossless(
                    old(self)@.encoding,
                    t,
                ) && text::unmarked(t, header) ==> text::decoded(old(self)@.encoding, header) == t,
    {
        match self.phase {
            Phase::Length => {
                let b: u8 = bytes[0];
                proof {
                    assert(bytes@.drop_last() =~= Seq::<u8>::empty());
                    assert(bytes@.last() == b);
                    assert(self@.past(bytes@.drop_last()) == Ok::<FolderView, FolderError>(self@));
                }
                if b != 0x3a {
                    if self.buf.len() >= MAX_LENGTH_DIGITS {
                        return Err(FolderError::LengthTooLong);
                    }
                    self.buf.push(b);
                    return Ok(FolderStep::Nothing);
                }
                let n: u32 = match parse_length(&self.buf) {
                    Some(n) => n,
                    None => {
                        return Err(FolderError::BadLength);
                    },
                };
                let own: u64 = self.buf.len() as u64 + 1;
                if (n as u64) < own {
                    return Err(FolderError::BadLength);
                }
                let left: u64 = n as u64 - own;
                self.buf = Vec::new();
                assert(self.buf@ =~= Seq::<u8>::empty());
                if left == 0 {
                    return self.finish_header();
                }
                self.phase = Phase::Header;
                self.left = left;
                Ok(FolderStep::Nothing)
            },
            Phase::Header => {
                let n: u64 = bytes.len() as u64;
                let mut more = slice_to_vec(bytes);
                self.buf.append(&mut more);
                self.left = self.left - n;
                if self.left == 0 {
                    proof {
                        lemma_past_header_whole(old(self)@, bytes@);
                    }
                    return self.finish_header();
                }
                proof {
                    lemma_past_header_part(old(self)@, bytes@);
                }
                Ok(FolderStep::Nothing)
            },
            Phase::Content => {
                proof {
                    lemma_past_content(old(self)@, bytes@);
                    law_nothing_outside_root(old(self)@, bytes@);
                    self.entries@ = extended(self.entries@, bytes@);
                }
                self.received = self.received + bytes.len() as u64;
                self.left = self.left - bytes.len() as u64;
                if self.left == 0 {
                    self.phase = Phase::Length;
                    self.buf = Vec::new();
                    assert(self.buf@ =~= Seq::<u8>::empty());
                }
                Ok(FolderStep::Data)
            },
            Phase::Skip => {
                proof {
                    lemma_past_skip(old(self)@, bytes@);
                    law_nothing_outside_root(old(self)@, bytes@);
                }
                self.left = self.left - bytes.len() as u64;
                if self.left == 0 {
                    self.phase = Phase::Length;
                    self.buf = Vec::new();
                    assert(self.buf@ =~= Seq::<u8>::empty());
                }
                Ok(FolderStep::Nothing)
            },
        }
    }
}

} // verus!
