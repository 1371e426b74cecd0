//! Files and folders that the user offers to a peer.
use crate::chars::{push_text, to_text};
use crate::ipmsg_core::file_table::{FileEntry, FileTable};
use crate::ipmsg_core::folder_sender::EntryKind;
use crate::ipmsg_core::offer;
use crate::ipmsg_core::offer::{double_colons, push_item};
use crate::ipmsg_core::protocol::{IPMSG_FILEATTACHOPT, IPMSG_SENDCHECKOPT, IPMSG_SENDMSG};
use crate::ipmsg_core::service;
use crate::ipmsg_core::service::{make_packet, now_millis, Datagram, Service};
use crate::net::{IpAddr, SocketAddr};
use crate::number;
use vstd::prelude::*;

verus! {

/// What is known of a file or a folder that is to be offered.
#[derive(Debug, Clone)]
pub struct FileMeta {
    pub path: String,
    /// The last component of the path, where it is a text.
    pub name: Option<String>,
    pub kind: EntryKind,
    pub size: u64,
    /// The time of the last change in seconds, or 0.
    pub mtime: u64,
}

/// An offer that was made.
#[derive(Debug, Clone)]
pub struct SentFileMeta {
    pub packet_no: u32,
    pub file_id: u32,
    pub path: String,
    pub name: String,
    pub size: u64,
    pub is_dir: bool,
}

/// Why nothing is offered.
#[derive(Debug, Clone, Copy, PartialEq, Eq, Structural)]
pub enum OfferError {
    /// There is no file to offer.
    NoFiles,
    /// The path is not that of a directory.
    NotDirectory,
    /// The number drawn for the file is in use.
    IdCollision,
    /// All numbers for files are in use.
    NoFreeId,
}

/// The highest file number. Peers read the numbers as signed ones.
pub const MAX_FILE_ID: u32 = 0x7fff_ffff;

/// A number that a file can have.
pub open spec fn file_id_range(id: u32) -> bool {
    1 <= id <= MAX_FILE_ID
}

/// `rand::random`: any number. Nothing is claimed of which one it is.
#[verifier::external_body]
fn random_u32() -> (r: u32) {
    rand::random::<u32>()
}

/// The file number that a random number gives: its lower 31 bits, or 1 where these
/// are zero.
pub fn file_id_from(raw: u32) -> (r: u32)
    ensures
        r == if raw % 0x8000_0000 == 0 {
            1
        } else {
            raw % 0x8000_0000
        },
        file_id_range(r),
{
    let id: u32 = raw % 0x8000_0000;
    if id == 0 {
        1
    } else {
        id
    }
}

/// A file number that cannot be guessed. It is never zero, and fits a signed
/// number of 32 bits.
pub fn random_file_id() -> (r: u32)
    ensures
        file_id_range(r),
{
    file_id_from(random_u32())
}

/// The name of a file or a folder in an offer.
pub open spec fn wire_name(f: FileMeta, is_dir: bool) -> Seq<char> {
    offer::doubled_colons(shown_name(f, is_dir))
}

pub open spec fn shown_name(f: FileMeta, is_dir: bool) -> Seq<char> {
    match f.name {
        Some(name) => name@,
        None => if is_dir {
            "dir"@
        } else {
            "file"@
        },
    }
}

/// The size that is stated: folders have none.
pub open spec fn stated_size(f: FileMeta, is_dir: bool) -> u64 {
    if is_dir {
        0
    } else {
        f.size
    }
}

/// The offers of these files under these numbers, with their times.
pub open spec fn offered(files: Seq<FileMeta>, ids: Seq<u32>, is_dir: bool) -> Seq<
    (offer::OfferView, u64),
> {
    Seq::new(
        files.len(),
        |i: int|
            (
                offer::OfferView {
                    file_id: ids[i],
                    name: wire_name(files[i], is_dir),
                    size: stated_size(files[i], is_dir),
                    is_dir,
                },
                files[i].mtime,
            ),
    )
}

/// The table entry of a file that is offered.
pub open spec fn entry_for(f: FileMeta, to: IpAddr, is_dir: bool) -> FileEntry {
    FileEntry { to, path: f.path, size: stated_size(f, is_dir), is_dir }
}

/// The table once these files are on it.
pub open spec fn table_with(
    table: Map<(u32, u32), FileEntry>,
    packet_no: u32,
    to: IpAddr,
    files: Seq<FileMeta>,
    ids: Seq<u32>,
    is_dir: bool,
) -> Map<(u32, u32), FileEntry>
    decreases files.len(),
{
    if files.len() == 0 {
        table
    } else {
        table_with(table, packet_no, to, files.drop_last(), ids, is_dir).insert(
            (packet_no, ids[files.len() - 1]),
            entry_for(files.last(), to, is_dir),
        )
    }
}

/// The state after files were offered: they are on the table, and the packet
/// number is used up.
pub open spec fn after_offer(
    before: Service,
    after: Service,
    to: SocketAddr,
    files: Seq<FileMeta>,
    ids: Seq<u32>,
    is_dir: bool,
) -> bool {
    &&& after.files@ == table_with(
        before.files@,
        before.packet_no_seq,
        to.spec_ip(),
        files,
        ids,
        is_dir,
    )
    &&& after == (Service { files: after.files, ..before.advanced() })
}

/// What is said of the offers that were made.
pub open spec fn sent_of(
    sent: Seq<SentFileMeta>,
    packet_no: u32,
    files: Seq<FileMeta>,
    ids: Seq<u32>,
    is_dir: bool,
) -> bool {
    &&& sent.len() == files.len()
    &&& forall|i: int|
        0 <= i < files.len() ==> {
            let s = #[trigger] sent[i];
            &&& s.packet_no == packet_no
            &&& s.file_id == ids[i]
            &&& s.path == files[i].path
            &&& s.name@ == wire_name(files[i], is_dir)
            &&& s.size == stated_size(files[i], is_dir)
            &&& s.is_dir == is_dir
        }
}

/// The command of a message with files.
pub open spec fn offer_command() -> u32 {
    (IPMSG_SENDMSG + IPMSG_SENDCHECKOPT + IPMSG_FILEATTACHOPT) as u32
}

/// How many characters the offers need at most.
pub open spec fn room_for(files: Seq<FileMeta>, is_dir: bool) -> nat
    decreases files.len(),
{
    if files.len() == 0 {
        0
    } else {
        room_for(files.drop_last(), is_dir) + 2 * shown_name(files.last(), is_dir).len() + 80
    }
}

proof fn lemma_doubled_len(name: Seq<char>)
    ensures
        doubled_len_ok(name),
    decreases name.len(),
{
    if name.len() > 0 {
        lemma_doubled_len(name.drop_last());
    }
}

spec fn doubled_len_ok(name: Seq<char>) -> bool {
    offer::doubled_colons(name).len() <= 2 * name.len()
}

proof fn lemma_digits_len(n: nat, radix: nat)
    requires
        n <= u64::MAX,
        radix == 10 && n <= u32::MAX || radix == 16,
    ensures
        number::digits(n, radix).len() <= 16,
{
    reveal_with_fuel(number::digits, 17);
}

proof fn lemma_offers_len(files: Seq<FileMeta>, ids: Seq<u32>, is_dir: bool)
    ensures
        offer::offers_text(offered(files, ids, is_dir)).len() <= room_for(files, is_dir),
    decreases files.len(),
{
    let list = offered(files, ids, is_dir);
    if files.len() > 0 {
        let (o, mtime) = list.last();
        assert(list.drop_last() =~= offered(files.drop_last(), ids, is_dir));
        lemma_offers_len(files.drop_last(), ids, is_dir);
        lemma_doubled_len(shown_name(files.last(), is_dir));
        lemma_digits_len(o.file_id as nat, 10);
        lemma_digits_len(o.size as nat, 16);
        lemma_digits_len(mtime as nat, 16);
        lemma_digits_len(offer::attribute(o.is_dir) as nat, 16);
    }
}

/// Offers files, or folders, under the given numbers: puts them on the table and
/// makes the message that tells the peer of them.
fn make_offer(
    service: &mut Service,
    to: SocketAddr,
    text: String,
    files: &Vec<FileMeta>,
    ids: &Vec<u32>,
    is_dir: bool,
) -> (r: (Vec<SentFileMeta>, Datagram))
    requires
        old(service).wf(),
        files@.len() == ids@.len(),
        text@.len() + 1 + room_for(files@, is_dir) <= service::MAX_EXTRA,
    ensures
        final(service).wf(),
        after_offer(*old(service), *final(service), to, files@, ids@, is_dir),
        sent_of(r.0@, old(service).packet_no_seq, files@, ids@, is_dir),
        r.1.to == to,
        r.1.bytes@ == old(service).next_bytes(
            offer_command(),
            text@.push('\0') + offer::offers_text(offered(files@, ids@, is_dir)),
        ),
{
    let mut extra: Vec<char> = Vec::new();
    push_text(&mut extra, text.as_str());
    extra.push('\0');
    let ip = to.ip();
    let packet_no: u32 = service.packet_no_seq;
    let mut sent: Vec<SentFileMeta> = Vec::new();
    let mut i: usize = 0;
    assert(extra@ =~= text@.push('\0') + offer::offers_text(
        offered(files@.take(0), ids@, is_dir),
    ));
    while i < files.len()
        invariant
            i <= files@.len() == ids@.len(),
            old(service).wf(),
            packet_no == old(service).packet_no_seq,
            ip == to.spec_ip(),
            service.files@ == table_with(
                old(service).files@,
                packet_no,
                ip,
                files@.take(i as int),
                ids@,
                is_dir,
            ),
            *service == (Service { files: service.files, ..*old(service) }),
            sent_of(sent@, packet_no, files@.take(i as int), ids@, is_dir),
            extra@ == text@.push('\0') + offer::offers_text(
                offered(files@.take(i as int), ids@, is_dir),
            ),
        decreases files@.len() - i,
    {
        let f = &files[i];
        let id: u32 = ids[i];
        let name = match &f.name {
            Some(name) => double_colons(name.as_str()),
            None => if is_dir {
                double_colons("dir")
            } else {
                double_colons("file")
            },
        };
        let size: u64 = if is_dir {
            0
        } else {
            f.size
        };
        service.files.insert(packet_no, id, FileEntry { to: ip, path: f.path.clone(), size, is_dir });
        push_item(&mut extra, id, name.as_str(), size, f.mtime, is_dir);
        sent.push(
            SentFileMeta { packet_no, file_id: id, path: f.path.clone(), name, size, is_dir },
        );
        proof {
            let upto = files@.take(i + 1);
            assert(upto.drop_last() =~= files@.take(i as int));
            assert(upto.last() == *f);
            assert(offered(upto, ids@, is_dir).drop_last() =~= offered(
                upto.drop_last(),
                ids@,
                is_dir,
            ));
            assert(extra@ =~= text@.push('\0') + offer::offers_text(offered(upto, ids@, is_dir)));
            assert forall|k: int| 0 <= k < upto.len() implies {
                let s = #[trigger] sent@[k];
                &&& s.packet_no == packet_no
                &&& s.file_id == ids@[k]
                &&& s.path == upto[k].path
                &&& s.name@ == wire_name(upto[k], is_dir)
                &&& s.size == stated_size(upto[k], is_dir)
                &&& s.is_dir == is_dir
            } by {
                if k < i {
                    assert(files@.take(i as int)[k] == upto[k]);
                }
            }
        }
        i += 1;
    }
    proof {
        assert(files@.take(i as int) =~= files@);
        lemma_offers_len(files@, ids@, is_dir);
    }
    let ghost before = *service;
    let (_, bytes) = make_packet(
        service,
        IPMSG_SENDMSG + IPMSG_SENDCHECKOPT + IPMSG_FILEATTACHOPT,
        to_text(extra.as_slice()),
    );
    proof {
        assert(before.next_packet(offer_command(), extra@) == old(service).next_packet(
            offer_command(),
            extra@,
        ));
    }
    (sent, Datagram { to, bytes })
}

/// The message has room for the offer of this file or folder, and for its name
/// once more.
pub open spec fn roomy(f: FileMeta, is_dir: bool) -> bool {
    4 * shown_name(f, is_dir).len() + 200 <= service::MAX_EXTRA
}

/// The text of the message that offers a folder.
pub open spec fn folder_text(f: FileMeta) -> Seq<char> {
    "[文件夹] "@ + wire_name(f, true)
}

fn offer_one(
    service: &mut Service,
    to: SocketAddr,
    text: String,
    file: FileMeta,
    id: u32,
    is_dir: bool,
) -> (r: Result<(SentFileMeta, Datagram), OfferError>)
    requires
        old(service).wf(),
        text@.len() <= 2 * shown_name(file, is_dir).len() + 16,
        roomy(file, is_dir),
    ensures
        final(service).wf(),
        if old(service).files@.contains_key((old(service).packet_no_seq, id)) {
            r == Err::<(SentFileMeta, Datagram), OfferError>(OfferError::IdCollision)
                && *final(service) == old(service).advanced()
        } else {
            &&& r is Ok
            &&& after_offer(*old(service), *final(service), to, seq![file], seq![id], is_dir)
            &&& sent_of(
                seq![r->Ok_0.0],
                old(service).packet_no_seq,
                seq![file],
                seq![id],
                is_dir,
            )
            &&& r->Ok_0.1.to == to
            &&& r->Ok_0.1.bytes@ == old(service).next_bytes(
                offer_command(),
                text@.push('\0') + offer::offers_text(offered(seq![file], seq![id], is_dir)),
            )
        },
{
    if service.files.contains(service.packet_no_seq, id) {
        let _ = now_millis(service);
        return Err(OfferError::IdCollision);
    }
    let files: Vec<FileMeta> = vec![file];
    let ids: Vec<u32> = vec![id];
    proof {
        assert(files@ =~= seq![file]);
        assert(ids@ =~= seq![id]);
        assert(files@.drop_last() =~= Seq::<FileMeta>::empty());
        assert(room_for(files@.drop_last(), is_dir) == 0);
    }
    let (mut sent, datagram) = make_offer(service, to, text, &files, &ids, is_dir);
    let first = sent.remove(0);
    Ok((first, datagram))
}

/// Offers one file under the given number.
pub fn offer_file(service: &mut Service, to: SocketAddr, file: FileMeta, id: u32) -> (r: Result<
    (SentFileMeta, Datagram),
    OfferError,
>)
    requires
        old(service).wf(),
        roomy(file, false),
    ensures
        final(service).wf(),
        if old(service).files@.contains_key((old(service).packet_no_seq, id)) {
            r == Err::<(SentFileMeta, Datagram), OfferError>(OfferError::IdCollision)
                && *final(service) == old(service).advanced()
        } else {
            &&& r is Ok
            &&& after_offer(*old(service), *final(service), to, seq![file], seq![id], false)
            &&& sent_of(seq![r->Ok_0.0], old(service).packet_no_seq, seq![file], seq![id], false)
            &&& r->Ok_0.1.to == to
            &&& r->Ok_0.1.bytes@ == old(service).next_bytes(
                offer_command(),
                seq!['\0'] + offer::offers_text(offered(seq![file], seq![id], false)),
            )
        },
{
    let text = String::new();
    assert(text@.push('\0') =~= seq!['\0']);
    offer_one(service, to, text, file, id, false)
}

/// Offers one file under a number that cannot be guessed. Where that number is in
/// use, nothing is offered.
pub fn send_file(service: &mut Service, to: SocketAddr, file: FileMeta) -> (r: Result<
    (SentFileMeta, Datagram),
    OfferError,
>)
    requires
        old(service).wf(),
        roomy(file, false),
    ensures
        final(service).wf(),
        match r {
            Err(e) => e == OfferError::IdCollision && *final(service) == old(service).advanced()
                && exists|id: u32|
                old(service).files@.contains_key((old(service).packet_no_seq, id)),
            Ok((sent, datagram)) => {
                let id = sent.file_id;
                &&& file_id_range(id)
                &&& !old(service).files@.contains_key((old(service).packet_no_seq, id))
                &&& after_offer(*old(service), *final(service), to, seq![file], seq![id], false)
                &&& sent_of(seq![sent], old(service).packet_no_seq, seq![file], seq![id], false)
                &&& datagram.to == to
                &&& datagram.bytes@ == old(service).next_bytes(
                    offer_command(),
                    seq!['\0'] + offer::offers_text(offered(seq![file], seq![id], false)),
                )
            },
        },
{
    let id = random_file_id();
    let r = offer_file(service, to, file, id);
    proof {
        if r is Ok {
            assert(seq![r->Ok_0.0][0].file_id == seq![id][0]);
        }
    }
    r
}

/// Offers a folder under the given number.
pub fn offer_folder(service: &mut Service, to: SocketAddr, dir: FileMeta, id: u32) -> (r: Result<
    (SentFileMeta, Datagram),
    OfferError,
>)
    requires
        old(service).wf(),
        roomy(dir, true),
    ensures
        final(service).wf(),
        if dir.kind != EntryKind::Dir {
            r == Err::<(SentFileMeta, Datagram), OfferError>(OfferError::NotDirectory)
                && *final(service) == *old(service)
        } else if old(service).files@.contains_key((old(service).packet_no_seq, id)) {
            r == Err::<(SentFileMeta, Datagram), OfferError>(OfferError::IdCollision)
                && *final(service) == old(service).advanced()
        } else {
            &&& r is Ok
            &&& after_offer(*old(service), *final(service), to, seq![dir], seq![id], true)
            &&& sent_of(seq![r->Ok_0.0], old(service).packet_no_seq, seq![dir], seq![id], true)
            &&& r->Ok_0.1.to == to
            &&& r->Ok_0.1.bytes@ == old(service).next_bytes(
                offer_command(),
                folder_text(dir).push('\0') + offer::offers_text(
                    offered(seq![dir], seq![id], true),
                ),
            )
        },
{
    if dir.kind != EntryKind::Dir {
        return Err(OfferError::NotDirectory);
    }
    let mut text: Vec<char> = Vec::new();
    push_text(&mut text, "[文件夹] ");
    let name = match &dir.name {
        Some(name) => double_colons(name.as_str()),
        None => double_colons("dir"),
    };
    push_text(&mut text, name.as_str());
    proof {
        assert(text@ =~= folder_text(dir));
        reveal_strlit("[文件夹] ");
        lemma_doubled_len(shown_name(dir, true));
    }
    offer_one(service, to, to_text(text.as_slice()), dir, id, true)
}

/// Offers a folder under a number that cannot be guessed. Where that number is in
/// use, nothing is offered.
pub fn send_folder(service: &mut Service, to: SocketAddr, dir: FileMeta) -> (r: Result<
    (SentFileMeta, Datagram),
    OfferError,
>)
    requires
        old(service).wf(),
        roomy(dir, true),
    ensures
        final(service).wf(),
        dir.kind != EntryKind::Dir <==> r == Err::<(SentFileMeta, Datagram), OfferError>(
            OfferError::NotDirectory,
        ),
        match r {
            Err(OfferError::NotDirectory) => *final(service) == *old(service),
            Err(e) => e == OfferError::IdCollision && *final(service) == old(service).advanced()
                && exists|id: u32|
                old(service).files@.contains_key((old(service).packet_no_seq, id)),
            Ok((sent, datagram)) => {
                let id = sent.file_id;
                &&& file_id_range(id)
                &&& !old(service).files@.contains_key((old(service).packet_no_seq, id))
                &&& after_offer(*old(service), *final(service), to, seq![dir], seq![id], true)
                &&& sent_of(seq![sent], old(service).packet_no_seq, seq![dir], seq![id], true)
                &&& datagram.to == to
                &&& datagram.bytes@ == old(service).next_bytes(
                    offer_command(),
                    folder_text(dir).push('\0') + offer::offers_text(
                        offered(seq![dir], seq![id], true),
                    ),
                )
            },
        },
{
    let id = random_file_id();
    let r = offer_folder(service, to, dir, id);
    proof {
        if r is Ok {
            assert(seq![r->Ok_0.0][0].file_id == seq![id][0]);
        }
    }
    r
}

/// The files among these, in their order.
pub open spec fn only_files(metas: Seq<FileMeta>) -> Seq<FileMeta> {
    metas.filter(|m: FileMeta| m.kind == EntryKind::File)
}

fn valid_files(metas: Vec<FileMeta>) -> (r: Vec<FileMeta>)
    ensures
        r@ == only_files(metas@),
{
    let mut r: Vec<FileMeta> = Vec::new();
    let mut i: usize = 0;
    let ghost keep = |m: FileMeta| m.kind == EntryKind::File;
    assert(metas@.take(0).filter(keep) =~= r@) by {
        reveal(Seq::filter);
    }
    while i < metas.len()
        invariant
            i <= metas@.len(),
            keep == (|m: FileMeta| m.kind == EntryKind::File),
            r@ == metas@.take(i as int).filter(keep),
        decreases metas@.len() - i,
    {
        assert(metas@.take(i + 1).drop_last() =~= metas@.take(i as int));
        proof {
            reveal(Seq::filter);
        }
        let m = &metas[i];
        if m.kind == EntryKind::File {
            let name = match &m.name {
                Some(name) => Some(name.clone()),
                None => None,
            };
            let copy = FileMeta {
                path: m.path.clone(),
                name,
                kind: m.kind,
                size: m.size,
                mtime: m.mtime,
            };
            assert(copy == *m);
            r.push(copy);
        }
        i += 1;
    }
    assert(metas@.take(i as int) =~= metas@);
    r
}

/// The number is free: nothing is offered under it, and it is not set aside.
pub open spec fn free_id(
    table: Map<(u32, u32), FileEntry>,
    packet_no: u32,
    taken: Seq<u32>,
    id: u32,
) -> bool {
    file_id_range(id) && !table.contains_key((packet_no, id)) && !taken.contains(id)
}

/// Numbers that can be given to files of one message.
pub open spec fn fresh_ids(
    table: Map<(u32, u32), FileEntry>,
    packet_no: u32,
    ids: Seq<u32>,
) -> bool {
    &&& forall|i: int|
        0 <= i < ids.len() ==> file_id_range(#[trigger] ids[i]) && !table.contains_key(
            (packet_no, ids[i]),
        )
    &&& ids.no_duplicates()
}

/// There are fewer than `n` free numbers left: so few that some of them, set aside,
/// leave none.
pub open spec fn exhausted(table: Map<(u32, u32), FileEntry>, packet_no: u32, n: nat) -> bool {
    exists|taken: Seq<u32>|
        taken.len() < n && forall|id: u32| !#[trigger] free_id(table, packet_no, taken, id)
}

fn is_taken(taken: &Vec<u32>, id: u32) -> (r: bool)
    ensures
        r == taken@.contains(id),
{
    let mut i: usize = 0;
    while i < taken.len()
        invariant
            i <= taken@.len(),
            forall|k: int| 0 <= k < i ==> taken@[k] != id,
        decreases taken@.len() - i,
    {
        if taken[i] == id {
            return true;
        }
        i += 1;
    }
    false
}

/// How often a number is drawn before the numbers are tried in turn.
pub const MAX_DRAWS: u32 = 64;

/// A free number: a random one, or the lowest where none was hit.
pub fn draw_file_id(table: &FileTable, packet_no: u32, taken: &Vec<u32>) -> (r: Option<u32>)
    ensures
        match r {
            Some(id) => free_id(table@, packet_no, taken@, id),
            None => forall|id: u32| !#[trigger] free_id(table@, packet_no, taken@, id),
        },
{
    let mut draws: u32 = 0;
    while draws < MAX_DRAWS
        decreases MAX_DRAWS - draws,
    {
        let id: u32 = random_file_id();
        if !table.contains(packet_no, id) && !is_taken(taken, id) {
            return Some(id);
        }
        draws += 1;
    }
    let mut id: u32 = 1;
    while id <= MAX_FILE_ID
        invariant
            1 <= id <= MAX_FILE_ID + 1,
            forall|k: u32| k < id ==> !#[trigger] free_id(table@, packet_no, taken@, k),
        decreases MAX_FILE_ID + 1 - id,
    {
        if !table.contains(packet_no, id) && !is_taken(taken, id) {
            return Some(id);
        }
        id += 1;
    }
    None
}

fn draw_file_ids(table: &FileTable, packet_no: u32, n: usize) -> (r: Option<Vec<u32>>)
    ensures
        match r {
            Some(ids) => ids@.len() == n && fresh_ids(table@, packet_no, ids@),
            None => exhausted(table@, packet_no, n as nat),
        },
{
    let mut ids: Vec<u32> = Vec::new();
    while ids.len() < n
        invariant
            ids@.len() <= n,
            fresh_ids(table@, packet_no, ids@),
        decreases n - ids@.len(),
    {
        match draw_file_id(table, packet_no, &ids) {
            Some(id) => {
                let ghost before = ids@;
                ids.push(id);
                assert(forall|k: int| 0 <= k < before.len() ==> ids@[k] == before[k]);
                assert(ids@.no_duplicates());
            },
            None => {
                assert(exhausted(table@, packet_no, n as nat));
                return None;
            },
        }
    }
    Some(ids)
}

/// Offers files, in one message, under the given numbers.
pub fn offer_files(service: &mut Service, to: SocketAddr, files: Vec<FileMeta>, ids: Vec<u32>)
    -> (r: (Vec<SentFileMeta>, Datagram))
    requires
        old(service).wf(),
        files@.len() == ids@.len(),
        room_for(files@, false) < service::MAX_EXTRA,
    ensures
        final(service).wf(),
        after_offer(*old(service), *final(service), to, files@, ids@, false),
        sent_of(r.0@, old(service).packet_no_seq, files@, ids@, false),
        r.1.to == to,
        r.1.bytes@ == old(service).next_bytes(
            offer_command(),
            seq!['\0'] + offer::offers_text(offered(files@, ids@, false)),
        ),
{
    let text = String::new();
    assert(text@.push('\0') =~= seq!['\0']);
    make_offer(service, to, text, &files, &ids, false)
}

/// Offers those of the entries that are files, in one message, each under a number
/// that cannot be guessed and is not in use.
pub fn send_files(service: &mut Service, to: SocketAddr, metas: Vec<FileMeta>) -> (r: Result<
    (Vec<SentFileMeta>, Datagram),
    OfferError,
>)
    requires
        old(service).wf(),
        room_for(only_files(metas@), false) < service::MAX_EXTRA,
    ensures
        final(service).wf(),
        only_files(metas@).len() == 0 <==> r == Err::<(Vec<SentFileMeta>, Datagram), OfferError>(
            OfferError::NoFiles,
        ),
        match r {
            Err(e) => {
                &&& *final(service) == *old(service)
                &&& e == OfferError::NoFiles || {
                    &&& e == OfferError::NoFreeId
                    &&& exhausted(
                        old(service).files@,
                        old(service).packet_no_seq,
                        only_files(metas@).len(),
                    )
                }
            },
            Ok((sent, datagram)) => exists|ids: Seq<u32>|
                {
                    &&& ids.len() == only_files(metas@).len()
                    &&& #[trigger] fresh_ids(
                        old(service).files@,
                        old(service).packet_no_seq,
                        ids,
                    )
                    &&& after_offer(
                        *old(service),
                        *final(service),
                        to,
                        only_files(metas@),
                        ids,
                        false,
                    )
                    &&& sent_of(
                        sent@,
                        old(service).packet_no_seq,
                        only_files(metas@),
                        ids,
                        false,
                    )
                    &&& datagram.to == to
                    &&& datagram.bytes@ == old(service).next_bytes(
                        offer_command(),
                        seq!['\0'] + offer::offers_text(
                            offered(only_files(metas@), ids, false),
                        ),
                    )
                },
        },
{
    let files = valid_files(metas);
    if files.len() == 0 {
        return Err(OfferError::NoFiles);
    }
    match draw_file_ids(&service.files, service.packet_no_seq, files.len()) {
        None => Err(OfferError::NoFreeId),
        Some(ids) => Ok(offer_files(service, to, files, ids)),
    }
}

/// Each file that is offered is on the table under its own number, for the host it was
/// offered to; and what was on offer before still is.
pub proof fn law_offers_are_on_the_table(
    table: Map<(u32, u32), FileEntry>,
    packet_no: u32,
    to: IpAddr,
    files: Seq<FileMeta>,
    ids: Seq<u32>,
    is_dir: bool,
)
    requires
        ids.len() == files.len(),
        fresh_ids(table, packet_no, ids),
    ensures
        ({
            let after = table_with(table, packet_no, to, files, ids, is_dir);
            &&& forall|i: int|
                0 <= i < files.len() ==> after.contains_key((packet_no, #[trigger] ids[i]))
                    && after[(packet_no, ids[i])] == entry_for(files[i], to, is_dir)
            &&& forall|k: (u32, u32)| #[trigger]
                table.contains_key(k) ==> after.contains_key(k) && after[k] == table[k]
        }),
{
    lemma_table_with(table, packet_no, to, files, ids, is_dir);
}

proof fn lemma_table_with(
    table: Map<(u32, u32), FileEntry>,
    packet_no: u32,
    to: IpAddr,
    files: Seq<FileMeta>,
    ids: Seq<u32>,
    is_dir: bool,
)
    requires
        files.len() <= ids.len(),
        fresh_ids(table, packet_no, ids),
    ensures
        ({
            let after = table_with(table, packet_no, to, files, ids, is_dir);
            &&& forall|i: int|
                0 <= i < files.len() ==> after.contains_key((packet_no, #[trigger] ids[i]))
                    && after[(packet_no, ids[i])] == entry_for(files[i], to, is_dir)
            &&& forall|k: (u32, u32)| #[trigger]
                table.contains_key(k) ==> after.contains_key(k) && after[k] == table[k]
        }),
    decreases files.len(),
{
    if files.len() > 0 {
        let init = files.drop_last();
        lemma_table_with(table, packet_no, to, init, ids, is_dir);
        let before = table_with(table, packet_no, to, init, ids, is_dir);
        let after = table_with(table, packet_no, to, files, ids, is_dir);
        let last = files.len() - 1;
        assert forall|i: int| 0 <= i < files.len() implies after.contains_key(
            (packet_no, #[trigger] ids[i]),
        ) && after[(packet_no, ids[i])] == entry_for(files[i], to, is_dir) by {
            if i < last {
                assert(init[i] == files[i]);
                assert(ids[i] != ids[last]);
            }
        }
        assert forall|k: (u32, u32)| #[trigger] table.contains_key(k) implies after.contains_key(k)
            && after[k] == table[k] by {
            assert(before.contains_key(k));
            assert(!table.contains_key((packet_no, ids[last])));
        }
    }
}

} // verus!
