//! The server side of the Redis protocol: cutting frames out of the bytes
//! received, and answering `GET` and `SET` from a key-value store.

use vstd::prelude::*;

use crate::frame_scan::{
    begins_with, bulk_array_bytes, bulk_frames, frame_input_acceptable, frame_input_ok,
    lemma_scan_bulk_array, max_nesting,
};
use crate::redis::{frame_nests_within, nests_within, RespFrame, RespFrameView};
use crate::text::string_of;
use vstd::hash_map::StringHashMap;

verus! {

#[verifier::external_type_specification]
#[verifier::external_body]
pub struct ExRedisFrame(mini_redis::Frame);

#[verifier::external_type_specification]
#[verifier::external_body]
pub struct ExBytesMut(bytes::BytesMut);

/// The bytes that a `bytes::BytesMut` holds.
pub uninterp spec fn buffer_bytes(buf: bytes::BytesMut) -> Seq<u8>;

/// The bytes that the buffer holds (`<BytesMut as AsRef<[u8]>>::as_ref`).
/// Trusted: they are [`buffer_bytes`] of the buffer.
#[verifier::external_body]
fn held_bytes(buf: &bytes::BytesMut) -> (r: &[u8])
    ensures
        r@ == buffer_bytes(*buf),
{
    buf.as_ref()
}

/// Drops the first `n` bytes of the buffer (`<BytesMut as Buf>::advance`).
/// Trusted: what stays is what followed those bytes. The call panics when
/// `n` exceeds the length, which the `requires` leaves out.
#[verifier::external_body]
fn advance_buffer(buf: &mut bytes::BytesMut, n: usize)
    requires
        n <= buffer_bytes(*old(buf)).len(),
    ensures
        buffer_bytes(*final(buf)) == buffer_bytes(*old(buf)).skip(n as int),
{
    bytes::Buf::advance(buf, n)
}

/// What `mini_redis::Frame::check` concludes of a buffer that starts at a
/// frame: `None` when more bytes are needed, `Some(Ok(n))` when a complete
/// frame occupies the first `n` bytes, `Some(Err(m))` when the bytes are no
/// valid frame, with message `m`.
pub uninterp spec fn frame_check_outcome(bytes: Seq<u8>) -> Option<Result<usize, Seq<char>>>;

/// What `mini_redis::Frame::parse` gives for a buffer that holds a checked
/// frame: the frame, or the message of its error.
pub uninterp spec fn frame_parse_outcome(bytes: Seq<u8>) -> Result<RespFrameView, Seq<char>>;

/// What `mini_redis::Command::from_frame` reads from a frame: the command,
/// or the message of its error.
pub uninterp spec fn frame_command(frame: RespFrameView) -> Result<CmdView, Seq<char>>;

/// The outcome of checking a buffer for a complete frame.
pub enum CheckOutcome {
    Complete(usize),
    Incomplete,
    Invalid(String),
}

/// Checks whether `buf` begins with a complete frame (`mini_redis::Frame::check`
/// on a cursor at its start), and where that frame ends.
/// Trusted: the outcome is [`frame_check_outcome`] of the bytes, and a complete
/// frame takes at least one byte and no more than the buffer holds, as the
/// crate's source shows (it reads the type byte first and never moves past
/// the end). A buffer that begins with a command sent as an array of bulk
/// strings is complete where the command's bytes end. The `requires` leaves out the buffers on which its walk would
/// overflow a length or nest too deep.
#[verifier::external_body]
fn check_frame(buf: &[u8]) -> (r: CheckOutcome)
    requires
        frame_input_ok(buf@),
    ensures
        match r {
            CheckOutcome::Complete(n) => frame_check_outcome(buf@) == Some(
                Ok::<usize, Seq<char>>(n),
            ) && 1 <= n <= buf@.len(),
            CheckOutcome::Incomplete => frame_check_outcome(buf@) is None,
            CheckOutcome::Invalid(m) => frame_check_outcome(buf@) == Some(
                Err::<usize, Seq<char>>(m@),
            ),
        },
        forall|parts: Seq<Seq<u8>>| #[trigger]
            begins_with(buf@, bulk_array_bytes(parts)) ==> r is Complete && r->Complete_0
                == bulk_array_bytes(parts).len(),
{
    let mut cursor = std::io::Cursor::new(buf);
    match mini_redis::Frame::check(&mut cursor) {
        Ok(()) => CheckOutcome::Complete(cursor.position() as usize),
        Err(mini_redis::frame::Error::Incomplete) => CheckOutcome::Incomplete,
        Err(e) => CheckOutcome::Invalid(e.to_string()),
    }
}

/// Turns a frame of mini-redis into the library's frame, variant for
/// variant (the bytes of a bulk string into a `Vec`). Used only inside the
/// two wrappers below, which state what the frames are.
#[verifier::external_body]
fn frame_from_outside(f: mini_redis::Frame) -> RespFrame {
    match f {
        mini_redis::Frame::Simple(s) => RespFrame::Simple(s),
        mini_redis::Frame::Error(s) => RespFrame::Error(s),
        mini_redis::Frame::Integer(n) => RespFrame::Integer(n),
        mini_redis::Frame::Bulk(b) => RespFrame::Bulk(b.to_vec()),
        mini_redis::Frame::Null => RespFrame::Null,
        mini_redis::Frame::Array(v) => RespFrame::Array(v.into_iter().map(frame_from_outside).collect()),
    }
}

/// Turns the library's frame into a frame of mini-redis, variant for
/// variant. Used only inside the wrapper of `Command::from_frame`.
#[verifier::external_body]
fn frame_to_outside(f: RespFrame) -> mini_redis::Frame {
    match f {
        RespFrame::Simple(s) => mini_redis::Frame::Simple(s),
        RespFrame::Error(s) => mini_redis::Frame::Error(s),
        RespFrame::Integer(n) => mini_redis::Frame::Integer(n),
        RespFrame::Bulk(b) => mini_redis::Frame::Bulk(bytes::Bytes::from(b)),
        RespFrame::Null => mini_redis::Frame::Null,
        RespFrame::Array(v) => mini_redis::Frame::Array(v.into_iter().map(frame_to_outside).collect()),
    }
}

/// Parses the frame at the start of `buf` (`mini_redis::Frame::parse`).
/// Trusted: the frame, or the message of the error, is
/// [`frame_parse_outcome`] of the bytes; a buffer that begins with a command
/// sent as an array of bulk strings gives that array, each part a bulk
/// string, as the crate's source shows (a count line, then for each part a
/// length line and that many bytes). The frame's arrays nest as the arrays
/// of the bytes do, which [`frame_input_ok`] keeps within
/// [`max_nesting`] levels below the first.
#[verifier::external_body]
fn parse_checked_frame(buf: &[u8]) -> (r: Result<RespFrame, String>)
    requires
        frame_input_ok(buf@),
        frame_check_outcome(buf@) matches Some(Ok(_)),
    ensures
        match r {
            Ok(f) => frame_parse_outcome(buf@) == Ok::<RespFrameView, Seq<char>>(f@),
            Err(m) => frame_parse_outcome(buf@) == Err::<RespFrameView, Seq<char>>(m@),
        },
        forall|parts: Seq<Seq<u8>>| #[trigger]
            begins_with(buf@, bulk_array_bytes(parts)) ==> r is Ok && r->Ok_0@ == RespFrameView::Array(
                bulk_frames(parts),
            ),
        r is Ok ==> nests_within(r->Ok_0@, max_nesting() + 1),
{
    let mut cursor = std::io::Cursor::new(buf);
    match mini_redis::Frame::parse(&mut cursor) {
        Ok(f) => Ok(frame_from_outside(f)),
        Err(e) => Err(e.to_string()),
    }
}

/// What follows the parse of a complete frame that takes `len` bytes: the
/// frame, with exactly those bytes taken from the buffer, or the parse's
/// error with the buffer as it was.
pub fn take_parsed_frame(buffer: &mut bytes::BytesMut, len: usize, parsed: Result<RespFrame, String>) -> (r:
    Result<Option<RespFrame>, String>)
    requires
        len <= buffer_bytes(*old(buffer)).len(),
    ensures
        match parsed {
            Ok(f) => r == Ok::<Option<RespFrame>, String>(Some(f)) && buffer_bytes(*final(buffer))
                == buffer_bytes(*old(buffer)).skip(len as int),
            Err(e) => r == Err::<Option<RespFrame>, String>(e) && buffer_bytes(*final(buffer))
                == buffer_bytes(*old(buffer)),
        },
{
    match parsed {
        Ok(frame) => {
            advance_buffer(buffer, len);
            Ok(Some(frame))
        },
        Err(e) => Err(e),
    }
}

/// The message for a frame that is not taken.
pub open spec fn unsupported_text() -> Seq<char> {
    seq!['u', 'n', 's', 'u', 'p', 'p', 'o', 'r', 't', 'e', 'd', ' ', 'f', 'r', 'a', 'm', 'e']
}

fn unsupported_frame() -> (r: String)
    ensures
        r@ == unsupported_text(),
{
    let msg = ['u', 'n', 's', 'u', 'p', 'p', 'o', 'r', 't', 'e', 'd', ' ', 'f', 'r', 'a', 'm', 'e'];
    assert(msg@ =~= unsupported_text());
    string_of(&msg)
}

/// Cuts the first frame out of the received bytes, as the connection does
/// before it reads more: `Ok(None)` when the bytes hold no complete frame
/// yet, the frame when they do (the bytes it took are removed), an error
/// message when they are invalid.
pub fn parse_frame(buffer: &mut bytes::BytesMut) -> (r: Result<Option<RespFrame>, String>)
    requires
        frame_input_ok(buffer_bytes(*old(buffer))),
    ensures
        match frame_check_outcome(buffer_bytes(*old(buffer))) {
            None => r matches Ok(None) && buffer_bytes(*final(buffer)) == buffer_bytes(*old(buffer)),
            Some(Err(m)) => r matches Err(e) && e@ == m && buffer_bytes(*final(buffer)) == buffer_bytes(*old(buffer)),
            Some(Ok(n)) => match frame_parse_outcome(buffer_bytes(*old(buffer))) {
                Ok(f) => r matches Ok(Some(g)) && g@ == f && buffer_bytes(*final(buffer)) == buffer_bytes(*old(buffer)).skip(
                    n as int,
                ),
                Err(m) => r matches Err(e) && e@ == m && buffer_bytes(*final(buffer)) == buffer_bytes(*old(buffer)),
            },
        },
        forall|parts: Seq<Seq<u8>>| #[trigger]
            begins_with(buffer_bytes(*old(buffer)), bulk_array_bytes(parts)) ==> r is Ok && r->Ok_0 is Some
                && r->Ok_0->Some_0@ == RespFrameView::Array(bulk_frames(parts)) && buffer_bytes(*final(buffer))
                == buffer_bytes(*old(buffer)).skip(bulk_array_bytes(parts).len() as int),
        r is Ok && r->Ok_0 is Some ==> nests_within(r->Ok_0->Some_0@, max_nesting() + 1),
{
    match check_frame(held_bytes(buffer)) {
        CheckOutcome::Complete(len) => {
            let parsed = parse_checked_frame(held_bytes(buffer));
            take_parsed_frame(buffer, len, parsed)
        },
        CheckOutcome::Incomplete => Ok(None),
        CheckOutcome::Invalid(e) => Err(e),
    }
}

/// Like [`parse_frame`], but first tests [`frame_input_ok`]; a buffer whose
/// first frame carries a length or a nesting that the machine cannot take
/// is answered with an error and left as it is.
pub fn parse_frame_guarded(buffer: &mut bytes::BytesMut) -> (r: Result<Option<RespFrame>, String>)
    ensures
        !frame_input_ok(buffer_bytes(*old(buffer))) ==> r is Err && buffer_bytes(*final(buffer)) == buffer_bytes(*old(buffer)),
        frame_input_ok(buffer_bytes(*old(buffer))) ==> match frame_check_outcome(buffer_bytes(*old(buffer))) {
            None => r matches Ok(None) && buffer_bytes(*final(buffer)) == buffer_bytes(*old(buffer)),
            Some(Err(m)) => r matches Err(e) && e@ == m && buffer_bytes(*final(buffer)) == buffer_bytes(*old(buffer)),
            Some(Ok(n)) => match frame_parse_outcome(buffer_bytes(*old(buffer))) {
                Ok(f) => r matches Ok(Some(g)) && g@ == f && buffer_bytes(*final(buffer)) == buffer_bytes(*old(buffer)).skip(
                    n as int,
                ),
                Err(m) => r matches Err(e) && e@ == m && buffer_bytes(*final(buffer)) == buffer_bytes(*old(buffer)),
            },
        },
        forall|parts: Seq<Seq<u8>>| #[trigger]
            begins_with(buffer_bytes(*old(buffer)), bulk_array_bytes(parts)) && parts.len() <= usize::MAX / 128
                ==> r is Ok && r->Ok_0 is Some && r->Ok_0->Some_0@ == RespFrameView::Array(
                bulk_frames(parts),
            ) && buffer_bytes(*final(buffer)) == buffer_bytes(*old(buffer)).skip(bulk_array_bytes(parts).len() as int),
        r is Ok && r->Ok_0 is Some ==> nests_within(r->Ok_0->Some_0@, max_nesting() + 1),
{
    let held = held_bytes(buffer);
    let _len = held.len();
    proof {
        assert forall|parts: Seq<Seq<u8>>| #[trigger]
            begins_with(held@, bulk_array_bytes(parts)) && parts.len() <= usize::MAX / 128 implies frame_input_ok(
            held@,
        ) by {
            lemma_scan_bulk_array(held@, parts);
        }
    }
    if frame_input_acceptable(held) {
        parse_frame(buffer)
    } else {
        Err(unsupported_frame())
    }
}

/// A command received from a client.
#[derive(Debug)]
pub enum Cmd {
    /// Read the value of a key.
    GetKey(String),
    /// Store a value under a key.
    SetKey(String, Vec<u8>),
    /// Any other command.
    Unsupported,
}

/// What a command denotes.
pub ghost enum CmdView {
    GetKey(Seq<char>),
    SetKey(Seq<char>, Seq<u8>),
    Unsupported,
}

impl View for Cmd {
    type V = CmdView;

    open spec fn view(&self) -> CmdView {
        match self {
            Cmd::GetKey(k) => CmdView::GetKey(k@),
            Cmd::SetKey(k, v) => CmdView::SetKey(k@, v@),
            Cmd::Unsupported => CmdView::Unsupported,
        }
    }
}

/// Whether `b` spells the lower-case ASCII word `w`, each letter in either
/// case.
pub open spec fn spells_word(b: Seq<u8>, w: Seq<u8>) -> bool {
    &&& b.len() == w.len()
    &&& forall|i: int| 0 <= i < b.len() ==> b[i] == w[i] || b[i] + 32 == w[i]
}

/// Whether every byte of `b` is ASCII.
pub open spec fn is_ascii_bytes(b: Seq<u8>) -> bool {
    forall|i: int| 0 <= i < b.len() ==> b[i] < 128
}

/// The characters that ASCII bytes write.
pub open spec fn ascii_text(b: Seq<u8>) -> Seq<char> {
    b.map(|i: int, x: u8| x as char)
}

/// The plain form of a command frame: an array of bulk strings that spells
/// `GET key` or `SET key value`, the command name in either case and the key
/// in ASCII. `None` for any other frame.
pub open spec fn plain_command(f: RespFrameView) -> Option<CmdView> {
    match f {
        RespFrameView::Array(items) => {
            if items.len() == 2 && items[0] is Bulk && items[1] is Bulk && spells_word(
                items[0]->Bulk_0,
                seq![103u8, 101u8, 116u8],
            ) && is_ascii_bytes(items[1]->Bulk_0) {
                Some(CmdView::GetKey(ascii_text(items[1]->Bulk_0)))
            } else if items.len() == 3 && items[0] is Bulk && items[1] is Bulk && items[2] is Bulk
                && spells_word(items[0]->Bulk_0, seq![115u8, 101u8, 116u8]) && is_ascii_bytes(
                items[1]->Bulk_0,
            ) {
                Some(CmdView::SetKey(ascii_text(items[1]->Bulk_0), items[2]->Bulk_0))
            } else {
                None
            }
        },
        _ => None,
    }
}

/// Reads the command that a frame carries (`mini_redis::Command::from_frame`),
/// keeping of a `GET` its key, of a `SET` its key and value, and of any other
/// command only that it is another one.
/// Trusted: the command, or the message of the error, is [`frame_command`] of
/// the frame; and a frame in [`plain_command`] form gives that command, as
/// the crate's source shows (an array whose first string, lower-cased, names
/// the command; `GET` then reads one string, `SET` a string and bytes, and
/// with nothing after them neither finds an option or a leftover part).
/// Converting the frame, and the message of an error on a nested frame,
/// recurse once per level of arrays: the `requires` keeps the frame within
/// the nesting that the reader takes.
#[verifier::external_body]
fn command_of_frame(frame: RespFrame) -> (r: Result<Cmd, String>)
    requires
        nests_within(frame@, max_nesting() + 1),
    ensures
        match r {
            Ok(c) => frame_command(frame@) == Ok::<CmdView, Seq<char>>(c@),
            Err(m) => frame_command(frame@) == Err::<CmdView, Seq<char>>(m@),
        },
        plain_command(frame@) is Some ==> r is Ok && r->Ok_0@ == plain_command(frame@)->Some_0,
{
    match mini_redis::Command::from_frame(frame_to_outside(frame)) {
        Ok(mini_redis::Command::Get(c)) => Ok(Cmd::GetKey(c.key().to_string())),
        Ok(mini_redis::Command::Set(c)) => Ok(Cmd::SetKey(c.key().to_string(), c.value().to_vec())),
        Ok(_) => Ok(Cmd::Unsupported),
        Err(e) => Err(e.to_string()),
    }
}

/// The key-value store of the server: values by key.
pub type Store = StringHashMap<Vec<u8>>;

/// What the store holds: the bytes of each value, by key.
pub open spec fn store_view(m: Map<Seq<char>, Vec<u8>>) -> Map<Seq<char>, Seq<u8>> {
    m.map_values(|v: Vec<u8>| v@)
}

/// An empty store.
pub fn new_store() -> (r: Store)
    ensures
        store_view(r@) == Map::<Seq<char>, Seq<u8>>::empty(),
{
    let r = StringHashMap::new();
    assert(store_view(r@) =~= Map::<Seq<char>, Seq<u8>>::empty());
    r
}

/// The text of the error reply to commands that are not served.
pub open spec fn unimplemented_text() -> Seq<char> {
    seq!['u', 'n', 'i', 'm', 'p', 'l', 'e', 'm', 'e', 'n', 't', 'e', 'd']
}

/// The store after a command and the reply to it: `SET` stores the value
/// and replies `OK`; `GET` replies with the stored value, or with the error
/// `unimplemented` when the key is absent; any other command gets that
/// error too.
pub open spec fn reply(m: Map<Seq<char>, Seq<u8>>, c: CmdView) -> (Map<Seq<char>, Seq<u8>>, RespFrameView) {
    match c {
        CmdView::SetKey(k, v) => (m.insert(k, v), RespFrameView::Simple(seq!['O', 'K'])),
        CmdView::GetKey(k) => if m.dom().contains(k) {
            (m, RespFrameView::Bulk(m[k]))
        } else {
            (m, RespFrameView::Error(unimplemented_text()))
        },
        CmdView::Unsupported => (m, RespFrameView::Error(unimplemented_text())),
    }
}

fn unimplemented_reply() -> (r: RespFrame)
    ensures
        r@ == RespFrameView::Error(unimplemented_text()),
{
    let t = ['u', 'n', 'i', 'm', 'p', 'l', 'e', 'm', 'e', 'n', 't', 'e', 'd'];
    assert(t@ =~= unimplemented_text());
    RespFrame::Error(string_of(&t))
}

/// Carries out a command on the store and gives the reply.
pub fn respond(db: &mut Store, cmd: Cmd) -> (r: RespFrame)
    ensures
        (store_view(final(db)@), r@) == reply(store_view(old(db)@), cmd@),
{
    match cmd {
        Cmd::SetKey(key, value) => {
            db.insert(key, value);
            let ok = ['O', 'K'];
            assert(ok@ =~= seq!['O', 'K']);
            RespFrame::Simple(string_of(&ok))
        },
        Cmd::GetKey(key) => {
            match db.get(key.as_str()) {
                Some(v) => RespFrame::Bulk(v.clone()),
                None => unimplemented_reply(),
            }
        },
        Cmd::Unsupported => unimplemented_reply(),
    }
}

proof fn lemma_plain_command_nests(f: RespFrameView)
    ensures
        plain_command(f) is Some ==> nests_within(f, max_nesting() + 1),
{
    if plain_command(f) is Some {
        let items = f->Array_0;
        assert forall|i: int| 0 <= i < items.len() implies nests_within(
            #[trigger] items[i],
            max_nesting(),
        ) by {
            assert(i == 0 || i == 1 || i == 2);
            assert(items[i] is Bulk);
        }
    }
}

/// Answers one received frame: reads its command ([`frame_command`]) and
/// carries it out; the error of the reading, with the store as it was, when
/// the frame carries no command that can be read. A frame whose arrays nest
/// deeper than the reader takes is answered with an error too.
pub fn process_frame(db: &mut Store, frame: RespFrame) -> (r: Result<RespFrame, String>)
    ensures
        !nests_within(frame@, max_nesting() + 1) ==> r is Err && r->Err_0@ == unsupported_text()
            && final(db)@ == old(db)@,
        nests_within(frame@, max_nesting() + 1) ==> match frame_command(frame@) {
            Ok(c) => r is Ok && (store_view(final(db)@), r->Ok_0@) == reply(store_view(old(db)@), c),
            Err(m) => r matches Err(e) && e@ == m && final(db)@ == old(db)@,
        },
        plain_command(frame@) matches Some(c) ==> r is Ok && (store_view(final(db)@), r->Ok_0@) == reply(
            store_view(old(db)@),
            c,
        ),
{
    if !frame_nests_within(&frame, 1025) {
        proof {
            lemma_plain_command_nests(frame@);
        }
        return Err(unsupported_frame());
    }
    match command_of_frame(frame) {
        Ok(cmd) => Ok(respond(db, cmd)),
        Err(e) => Err(e),
    }
}

/// A value that was set is what a later get of the same key returns, and a
/// get leaves the store as it was.
pub proof fn lemma_get_after_set(m: Map<Seq<char>, Seq<u8>>, k: Seq<char>, v: Seq<u8>)
    ensures
        reply(reply(m, CmdView::SetKey(k, v)).0, CmdView::GetKey(k)).1 == RespFrameView::Bulk(v),
        reply(reply(m, CmdView::SetKey(k, v)).0, CmdView::GetKey(k)).0 == m.insert(k, v),
{
}

/// A `GET` frame received after a `SET` frame of the same key is answered
/// with the value that the `SET` carried.
pub proof fn lemma_frames_get_after_set(
    m: Map<Seq<char>, Seq<u8>>,
    set_frame: RespFrameView,
    get_frame: RespFrameView,
    k: Seq<char>,
    v: Seq<u8>,
)
    requires
        plain_command(set_frame) == Some(CmdView::SetKey(k, v)),
        plain_command(get_frame) == Some(CmdView::GetKey(k)),
    ensures
        reply(reply(m, plain_command(set_frame)->Some_0).0, plain_command(get_frame)->Some_0).1
            == RespFrameView::Bulk(v),
{
}

/// `SET` in capitals, as clients send it.
pub open spec fn set_word() -> Seq<u8> {
    seq![83u8, 69u8, 84u8]
}

/// `GET` in capitals, as clients send it.
pub open spec fn get_word() -> Seq<u8> {
    seq![71u8, 69u8, 84u8]
}

/// What a client sends as `SET key value` and then `GET key`, each as an
/// array of bulk strings with an ASCII key, is read as those two commands,
/// and the reply to the `GET` is the value that the `SET` carried. (The
/// connection reads such bytes into these frames: see
/// [`parse_frame_guarded`].)
pub proof fn lemma_wire_get_after_set(m: Map<Seq<char>, Seq<u8>>, key: Seq<u8>, value: Seq<u8>)
    requires
        is_ascii_bytes(key),
    ensures
        plain_command(RespFrameView::Array(bulk_frames(seq![set_word(), key, value]))) == Some(
            CmdView::SetKey(ascii_text(key), value),
        ),
        plain_command(RespFrameView::Array(bulk_frames(seq![get_word(), key]))) == Some(
            CmdView::GetKey(ascii_text(key)),
        ),
        reply(reply(m, CmdView::SetKey(ascii_text(key), value)).0, CmdView::GetKey(ascii_text(key))).1
            == RespFrameView::Bulk(value),
{
    let s = bulk_frames(seq![set_word(), key, value]);
    let g = bulk_frames(seq![get_word(), key]);
    assert(s[0] == RespFrameView::Bulk(set_word()));
    assert(s[1] == RespFrameView::Bulk(key));
    assert(s[2] == RespFrameView::Bulk(value));
    assert(g[0] == RespFrameView::Bulk(get_word()));
    assert(g[1] == RespFrameView::Bulk(key));
    assert(spells_word(set_word(), seq![115u8, 101u8, 116u8]));
    assert(spells_word(get_word(), seq![103u8, 101u8, 116u8]));
}

/// Setting a key leaves every other key as it was.
pub proof fn lemma_set_keeps_other_keys(
    m: Map<Seq<char>, Seq<u8>>,
    k: Seq<char>,
    v: Seq<u8>,
    other: Seq<char>,
)
    requires
        other != k,
    ensures
        reply(reply(m, CmdView::SetKey(k, v)).0, CmdView::GetKey(other)).1 == reply(
            m,
            CmdView::GetKey(other),
        ).1,
{
}

} // verus!
