//! The conversation with a bus: authentication, `Hello`, and one method call
//! at a time.
//!
//! A [`Session`] holds no socket. Bytes that arrive are handed to
//! [`Session::received`], and [`Session::advance`] says what to do next: send
//! some bytes, wait for more, or take the reply.

use vstd::prelude::*;

use crate::dbus_wire::decode::{decode, unmarshal};
use crate::dbus_wire::encode::{encode, marshal};
use crate::dbus_wire::message::{
    decode_message, encode_message, field_views, frame, hex_text, marshal_message, message_frame,
    read_message, uid_hex, Message, MessageView, FIELD_DESTINATION, FIELD_INTERFACE, FIELD_MEMBER,
    FIELD_PATH, FIELD_SIGNATURE, FIELD_UNIX_FDS, FIXED_HEADER, MSG_ERROR, MSG_METHOD_CALL,
    MSG_METHOD_RETURN,
};
use crate::dbus_wire::value::{
    entry_views, lemma_value_view_containers, value_views, Value, ValueView, WireError,
    WireErrorView,
};
use crate::text::{
    begins, bytes_of, copy_bytes, decimal_digits, joined, lossy, lossy_text, maybe, outcome,
    push_bytes, same_text, skip_chars, starts_with, trim, trimmed, utf8,
};

verus! {

/// Descriptors one message may carry: Linux caps `SCM_RIGHTS` at 253 per
/// message, so a longer list could never leave in one piece.
pub const MAX_CALL_FDS: usize = 253;

/// Longest authentication line accepted, so a peer that never sends `\r\n`
/// cannot grow the buffer without bound. The lines in use are a few dozen
/// bytes.
pub const MAX_AUTH_LINE: usize = 4096;

/// The bus's own name: where `Hello` and `GetId` live.
pub const BUS_NAME: &'static str = "org.freedesktop.DBus";

/// The bus's own object.
pub const BUS_PATH: &'static str = "/org/freedesktop/DBus";

/// The bus's own interface.
pub const BUS_INTERFACE: &'static str = "org.freedesktop.DBus";

/// One method call: a destination, an object, an interface, a member, a
/// signature, a body and how many descriptors travel beside it.
#[derive(Debug)]
pub struct Call {
    pub dest: String,
    pub path: String,
    pub iface: String,
    pub member: String,
    pub sig: String,
    pub body: Vec<Value>,
    pub fds: usize,
}

/// Model of a [`Call`].
pub struct CallView {
    pub dest: Seq<char>,
    pub path: Seq<char>,
    pub iface: Seq<char>,
    pub member: Seq<char>,
    pub sig: Seq<char>,
    pub body: Seq<ValueView>,
    pub fds: nat,
}

impl View for Call {
    type V = CallView;

    open spec fn view(&self) -> CallView {
        CallView {
            dest: self.dest@,
            path: self.path@,
            iface: self.iface@,
            member: self.member@,
            sig: self.sig@,
            body: value_views(self.body@),
            fds: self.fds as nat,
        }
    }
}

/// What a session is waiting for.
#[derive(Debug, Clone, Copy, PartialEq, Eq, Structural)]
pub enum Stage {
    /// The answer to `AUTH EXTERNAL`.
    Auth,
    /// The answer to `NEGOTIATE_UNIX_FD`.
    Negotiate,
    /// The reply to `Hello`.
    Hello,
    /// Nothing: a call may be made.
    Idle,
    /// The reply to `GetNameOwner`, for the call that is pending.
    Lookup,
    /// The reply to the call that was made.
    Await,
}

/// What to do next.
#[derive(Debug)]
pub enum Step {
    /// Write every byte, with the descriptors of the call attached to the
    /// first write where `with_fds` says so.
    Send {
        bytes: Vec<u8>,
        with_fds: bool,
    },
    /// Read more from the bus.
    Wait,
    /// A message that answers nothing was dropped: look again.
    Skipped,
    /// The opening is over.
    Ready,
    /// The values the call was answered with.
    Reply(Vec<Value>),
}

/// Model of a [`Step`].
pub enum StepView {
    Send { bytes: Seq<u8>, with_fds: bool },
    Wait,
    Skipped,
    Ready,
    Reply(Seq<ValueView>),
}

impl View for Step {
    type V = StepView;

    open spec fn view(&self) -> StepView {
        match self {
            Step::Send { bytes, with_fds } => StepView::Send { bytes: bytes@, with_fds: *with_fds },
            Step::Wait => StepView::Wait,
            Step::Skipped => StepView::Skipped,
            Step::Ready => StepView::Ready,
            Step::Reply(values) => StepView::Reply(value_views(values@)),
        }
    }
}

/// A session-bus client: what it knows of the bus and what it waits for.
///
/// One call at a time. Anything but a [`WireError::Remote`] leaves the
/// connection half-read, so the caller drops the session rather than calling
/// again.
#[derive(Debug)]
pub struct Session {
    /// Unique names already looked up for well-known destinations, so a
    /// second call to the same name costs no round trip. An owner that
    /// changes mid-session makes the next call fail rather than accept a
    /// reply from the wrong sender.
    pub owners: Vec<(String, String)>,
    /// Descriptors received and closed since the last whole message, to be
    /// checked against what that message declares.
    pub fds_seen: usize,
    /// Serial of the last message sent; "must not be zero", so the first
    /// call sends 1.
    pub serial: u32,
    pub unique_name: String,
    pub fd_passing: bool,
    /// Bytes read from the socket that no message has claimed yet.
    pub buf: Vec<u8>,
    pub stage: Stage,
    /// Unique name that may answer the message sent last.
    pub owner: String,
    /// The call to make once its destination's owner is known.
    pub pending: Option<Call>,
}

/// Model of a [`Session`].
pub struct SessionView {
    pub owners: Seq<(Seq<char>, Seq<char>)>,
    pub fds_seen: nat,
    pub serial: u32,
    pub unique_name: Seq<char>,
    pub fd_passing: bool,
    pub buf: Seq<u8>,
    pub stage: Stage,
    pub owner: Seq<char>,
    pub pending: Option<CallView>,
}

/// The models of a list of known owners.
pub open spec fn owner_views(owners: Seq<(String, String)>) -> Seq<(Seq<char>, Seq<char>)> {
    Seq::new(owners.len(), |i: int| (owners[i].0@, owners[i].1@))
}

impl View for Session {
    type V = SessionView;

    open spec fn view(&self) -> SessionView {
        SessionView {
            owners: owner_views(self.owners@),
            fds_seen: self.fds_seen as nat,
            serial: self.serial,
            unique_name: self.unique_name@,
            fd_passing: self.fd_passing,
            buf: self.buf@,
            stage: self.stage,
            owner: self.owner@,
            pending: maybe(self.pending),
        }
    }
}

/// The first index of a descriptor in a value that `count` descriptors do not
/// cover.
pub open spec fn bad_fd(v: ValueView, count: u32) -> Option<u32>
    decreases v, 0nat,
{
    match v {
        ValueView::Fd(index) => if index >= count {
            Some(index)
        } else {
            None
        },
        ValueView::Array(items) => bad_fd_in(items, 0, count),
        ValueView::Struct(items) => bad_fd_in(items, 0, count),
        ValueView::Dict(entries) => bad_fd_among(entries, 0, count),
        ValueView::Variant(inner) => bad_fd(*inner, count),
        _ => None,
    }
}

/// The first such index in the values from `i` on.
pub open spec fn bad_fd_in(items: Seq<ValueView>, i: int, count: u32) -> Option<u32>
    decreases items, items.len() - i,
{
    if i < 0 || i >= items.len() {
        None
    } else {
        match bad_fd(items[i], count) {
            Some(index) => Some(index),
            None => bad_fd_in(items, i + 1, count),
        }
    }
}

/// The first such index in the dict entries from `i` on.
pub open spec fn bad_fd_among(
    entries: Seq<(Seq<char>, ValueView)>,
    i: int,
    count: u32,
) -> Option<u32>
    decreases entries, entries.len() - i,
{
    if i < 0 || i >= entries.len() {
        None
    } else {
        match bad_fd(entries[i].1, count) {
            Some(index) => Some(index),
            None => bad_fd_among(entries, i + 1, count),
        }
    }
}

/// What is wrong with a call before anything is sent for it.
pub open spec fn call_fault(fd_passing: bool, call: CallView) -> Option<WireErrorView> {
    if call.dest.len() == 0 {
        Some(WireErrorView::NoDestination)
    } else if call.fds > 0 && !fd_passing {
        Some(WireErrorView::NoFdPassing)
    } else if call.fds > MAX_CALL_FDS {
        Some(WireErrorView::TooManyFds(call.fds))
    } else {
        match bad_fd_in(call.body, 0, call.fds as u32) {
            Some(index) => Some(WireErrorView::FdIndex(index)),
            None => None,
        }
    }
}

/// The header fields of a call. An empty interface is no interface: the
/// member is left to be resolved by the callee.
pub open spec fn call_fields(call: CallView) -> Seq<(u8, ValueView)> {
    seq![
        (FIELD_PATH, ValueView::ObjectPath(call.path)),
        (FIELD_DESTINATION, ValueView::Str(call.dest)),
    ] + (if call.iface.len() > 0 {
        seq![(FIELD_INTERFACE, ValueView::Str(call.iface))]
    } else {
        Seq::empty()
    }) + seq![(FIELD_MEMBER, ValueView::Str(call.member))] + (if call.sig.len() > 0 {
        seq![(FIELD_SIGNATURE, ValueView::Signature(call.sig))]
    } else {
        Seq::empty()
    }) + (if call.fds > 0 {
        seq![(FIELD_UNIX_FDS, ValueView::Uint32(call.fds as u32))]
    } else {
        Seq::empty()
    })
}

/// The serial after `serial`, which is never zero.
pub open spec fn serial_after(serial: u32) -> u32 {
    if serial == u32::MAX {
        1
    } else {
        (serial + 1) as u32
    }
}

/// The call that asks who owns a name.
pub open spec fn owner_call(dest: Seq<char>) -> CallView {
    CallView {
        dest: BUS_NAME@,
        path: BUS_PATH@,
        iface: BUS_INTERFACE@,
        member: "GetNameOwner"@,
        sig: "s"@,
        body: seq![ValueView::Str(dest)],
        fds: 0,
    }
}

/// The `Hello` every connection owes the bus before it may send anything
/// else.
pub open spec fn hello_call() -> CallView {
    CallView {
        dest: BUS_NAME@,
        path: BUS_PATH@,
        iface: BUS_INTERFACE@,
        member: "Hello"@,
        sig: ""@,
        body: Seq::empty(),
        fds: 0,
    }
}

/// The owner a destination is known to have: a unique name owns itself and
/// the bus answers for its own name, so neither needs asking.
pub open spec fn known_owner(owners: Seq<(Seq<char>, Seq<char>)>, dest: Seq<char>) -> Option<
    Seq<char>,
> {
    if dest == BUS_NAME@ || begins(dest, ":"@) {
        Some(dest)
    } else {
        looked_up(owners, dest, 0)
    }
}

/// The owner that was looked up for a destination, from `i` on.
pub open spec fn looked_up(
    owners: Seq<(Seq<char>, Seq<char>)>,
    dest: Seq<char>,
    i: int,
) -> Option<Seq<char>>
    decreases owners.len() - i,
{
    if i < 0 || i >= owners.len() {
        None
    } else if owners[i].0 == dest {
        Some(owners[i].1)
    } else {
        looked_up(owners, dest, i + 1)
    }
}

/// Send a call whose answer `owner` owes, and wait for it in `stage`.
pub open spec fn session_send(
    s: SessionView,
    call: CallView,
    owner: Seq<char>,
    stage: Stage,
    head: Seq<u8>,
) -> (SessionView, Result<StepView, WireErrorView>) {
    match marshal(call.sig, call.body) {
        Err(e) => (s, Err(e)),
        Ok(body) => {
            let serial = serial_after(s.serial);
            match marshal_message(MSG_METHOD_CALL, 0, serial, call_fields(call), body) {
                Err(e) => (SessionView { serial, ..s }, Err(e)),
                Ok(bytes) => (
                    SessionView { serial, owner, stage, ..s },
                    Ok(StepView::Send { bytes: head + bytes, with_fds: call.fds > 0 }),
                ),
            }
        },
    }
}

/// Begin a call: ask for the owner of its destination first where that is
/// not known, so the reply has a sender to be held to.
pub open spec fn session_call(s: SessionView, call: CallView) -> (
    SessionView,
    Result<StepView, WireErrorView>,
) {
    match call_fault(s.fd_passing, call) {
        Some(e) => (s, Err(e)),
        None => match known_owner(s.owners, call.dest) {
            Some(owner) => session_send(s, call, owner, Stage::Await, Seq::empty()),
            None => session_send(
                SessionView { pending: Some(call), ..s },
                owner_call(call.dest),
                BUS_NAME@,
                Stage::Lookup,
                Seq::empty(),
            ),
        },
    }
}

/// Where the first `\r\n` from `i` on begins.
pub open spec fn line_end(buf: Seq<u8>, i: int) -> Option<int>
    decreases buf.len() - i,
{
    if i < 0 || i + 1 >= buf.len() {
        None
    } else if buf[i] == 13 && buf[i + 1] == 10 {
        Some(i)
    } else {
        line_end(buf, i + 1)
    }
}

/// Whether every byte is ASCII.
pub open spec fn ascii_bytes(bytes: Seq<u8>) -> bool {
    forall|i: int| 0 <= i < bytes.len() ==> #[trigger] bytes[i] < 128
}

/// The text of ASCII bytes.
pub open spec fn ascii_text(bytes: Seq<u8>) -> Seq<char> {
    Seq::new(bytes.len(), |i: int| bytes[i] as char)
}

/// The next authentication line, without its ending, and what is left of the
/// buffer. "All bytes must be in the ASCII character set."
pub open spec fn buffered_line(buf: Seq<u8>) -> (Seq<u8>, Result<Option<Seq<char>>, WireErrorView>) {
    match line_end(buf, 0) {
        Some(end) => {
            let line = buf.take(end);
            let rest = buf.skip(end + 2);
            if ascii_bytes(line) {
                (rest, Ok(Some(ascii_text(line))))
            } else {
                (rest, Err(WireErrorView::Auth(lossy(line))))
            }
        },
        None => if buf.len() > MAX_AUTH_LINE {
            (buf, Err(WireErrorView::Auth("a line with no end"@)))
        } else {
            (buf, Ok(None))
        },
    }
}

/// The next whole message, taken off the buffer. The descriptors that
/// arrived while it was being read are its own, and a message that declares
/// a different number than arrived is refused rather than read.
pub open spec fn buffered_message(s: SessionView) -> (
    SessionView,
    Result<Option<MessageView>, WireErrorView>,
) {
    if s.buf.len() < FIXED_HEADER {
        (s, Ok(None))
    } else {
        match message_frame(s.buf) {
            Err(e) => (s, Err(e)),
            Ok((body_at, body_len)) => {
                let total = (body_at + body_len) as int;
                if s.buf.len() < total {
                    (s, Ok(None))
                } else {
                    let rest = SessionView { buf: s.buf.skip(total), ..s };
                    match read_message(s.buf.take(total)) {
                        Err(e) => (rest, Err(e)),
                        Ok(m) => {
                            let counted = SessionView { fds_seen: 0, ..rest };
                            if s.fds_seen != m.unix_fds {
                                (
                                    counted,
                                    Err(
                                        WireErrorView::BadMessage(
                                            "a message with fewer or more descriptors than it declares"@,
                                        ),
                                    ),
                                )
                            } else {
                                (counted, Ok(Some(m)))
                            }
                        },
                    }
                }
            },
        }
    }
}

/// What a message says to the call with this serial, whose answer `owner`
/// owes: nothing, the values of a reply, or an error. Serials are guessable,
/// so a reply is only a reply if it came from the name's owner.
pub open spec fn answer_of(m: MessageView, serial: u32, owner: Seq<char>) -> Option<
    Result<Seq<ValueView>, WireErrorView>,
> {
    if m.reply_serial != Some(serial) {
        None
    } else if m.kind != MSG_METHOD_RETURN && m.kind != MSG_ERROR {
        None
    } else {
        match m.sender {
            None => Some(Err(WireErrorView::BadMessage("a reply with no sender"@))),
            Some(sender) => if sender != owner {
                None
            } else if m.kind == MSG_METHOD_RETURN {
                Some(unmarshal(m.signature, m.body))
            } else {
                match m.error_name {
                    None => Some(
                        Err(WireErrorView::BadMessage("an error reply with no error name"@)),
                    ),
                    Some(name) => Some(
                        Err(
                            WireErrorView::Remote {
                                name,
                                message: error_text(unmarshal(m.signature, m.body)),
                            },
                        ),
                    ),
                }
            },
        }
    }
}

/// "If the first argument exists and is a string, it is an error message."
pub open spec fn error_text(body: Result<Seq<ValueView>, WireErrorView>) -> Seq<char> {
    match body {
        Ok(values) => if values.len() > 0 && values[0] is Str {
            values[0]->Str_0
        } else {
            Seq::empty()
        },
        Err(_) => Seq::empty(),
    }
}

/// The one unique name a reply holds: "unique connection names must begin
/// with the character ':'".
pub open spec fn unique_name_in(
    values: Seq<ValueView>,
    not_one: Seq<char>,
    not_unique: Seq<char>,
) -> Result<Seq<char>, WireErrorView> {
    if values.len() != 1 || !(values[0] is Str) {
        Err(WireErrorView::BadMessage(not_one))
    } else if !begins(values[0]->Str_0, ":"@) {
        Err(WireErrorView::BadMessage(not_unique))
    } else {
        Ok(values[0]->Str_0)
    }
}

/// The answer to `AUTH EXTERNAL`.
pub open spec fn auth_fault(line: Seq<char>) -> Option<WireErrorView> {
    if begins(line, "REJECTED"@) {
        Some(WireErrorView::AuthRejected(trimmed(line.skip("REJECTED"@.len() as int))))
    } else if !begins(line, "OK "@) {
        Some(WireErrorView::Auth(line))
    } else {
        None
    }
}

/// The step after an answer to `AUTH EXTERNAL`.
pub open spec fn after_auth(s: SessionView) -> (SessionView, Result<StepView, WireErrorView>) {
    let (buf, line) = buffered_line(s.buf);
    let read = SessionView { buf, ..s };
    match line {
        Err(e) => (read, Err(e)),
        Ok(None) => (read, Ok(StepView::Wait)),
        Ok(Some(line)) => match auth_fault(line) {
            Some(e) => (read, Err(e)),
            None => (
                SessionView { stage: Stage::Negotiate, ..read },
                Ok(StepView::Send { bytes: utf8("NEGOTIATE_UNIX_FD\r\n"@), with_fds: false }),
            ),
        },
    }
}

/// The step after an answer to `NEGOTIATE_UNIX_FD`.
pub open spec fn after_negotiate(s: SessionView) -> (SessionView, Result<StepView, WireErrorView>) {
    let (buf, line) = buffered_line(s.buf);
    let read = SessionView { buf, ..s };
    match line {
        Err(e) => (read, Err(e)),
        Ok(None) => (read, Ok(StepView::Wait)),
        Ok(Some(line)) => if line != "AGREE_UNIX_FD"@ && !begins(line, "ERROR"@) {
            (read, Err(WireErrorView::Auth(line)))
        } else {
            session_send(
                SessionView { fd_passing: s.fd_passing || line == "AGREE_UNIX_FD"@, ..read },
                hello_call(),
                BUS_NAME@,
                Stage::Hello,
                utf8("BEGIN\r\n"@),
            )
        },
    }
}

/// The step after a message, while one is waited for.
pub open spec fn after_message(s: SessionView) -> (SessionView, Result<StepView, WireErrorView>) {
    let (read, message) = buffered_message(s);
    match message {
        Err(e) => (read, Err(e)),
        Ok(None) => (read, Ok(StepView::Wait)),
        Ok(Some(m)) => match answer_of(m, s.serial, s.owner) {
            None => (read, Ok(StepView::Skipped)),
            Some(Err(e)) => (SessionView { stage: Stage::Idle, pending: None, ..read }, Err(e)),
            Some(Ok(values)) => answered(
                SessionView { stage: Stage::Idle, pending: None, ..read },
                s.stage,
                s.pending,
                values,
            ),
        },
    }
}

/// What becomes of the values the message sent last was answered with.
pub open spec fn answered(
    s: SessionView,
    stage: Stage,
    pending: Option<CallView>,
    values: Seq<ValueView>,
) -> (SessionView, Result<StepView, WireErrorView>) {
    match stage {
        Stage::Hello => match unique_name_in(
            values,
            "a Hello reply that is not one name"@,
            "a Hello reply that is not a unique name"@,
        ) {
            Err(e) => (s, Err(e)),
            Ok(name) => (SessionView { unique_name: name, ..s }, Ok(StepView::Ready)),
        },
        Stage::Lookup => match unique_name_in(
            values,
            "a GetNameOwner reply that is not one name"@,
            "a name owner that is not unique"@,
        ) {
            Err(e) => (s, Err(e)),
            Ok(owner) => match pending {
                None => (s, Ok(StepView::Wait)),
                Some(call) => session_send(
                    SessionView { owners: s.owners.push((call.dest, owner)), ..s },
                    call,
                    owner,
                    Stage::Await,
                    Seq::empty(),
                ),
            },
        },
        _ => (s, Ok(StepView::Reply(values))),
    }
}

/// The next step of a session, and the session after it.
pub open spec fn session_step(s: SessionView) -> (SessionView, Result<StepView, WireErrorView>) {
    match s.stage {
        Stage::Idle => (s, Ok(StepView::Wait)),
        Stage::Auth => after_auth(s),
        Stage::Negotiate => after_negotiate(s),
        _ => after_message(s),
    }
}

/// A call that waits for the owner of its destination was found sound.
pub open spec fn sound_session(s: SessionView) -> bool {
    s.pending matches Some(call) ==> call.fds <= MAX_CALL_FDS
}

/// What is sent first: the credentials nul byte and `AUTH EXTERNAL` with the
/// uid in hex.
pub open spec fn auth_request(uid: u32) -> Seq<u8> {
    utf8("\0AUTH EXTERNAL "@ + hex_text(decimal_digits(uid as nat)) + "\r\n"@)
}

/// Refuse a body naming a descriptor the call was not given: an index past
/// the end would have the far side use whatever happened to be at that
/// position instead.
pub fn check_fd_indices(value: &Value, count: u32) -> (r: Result<(), WireError>)
    ensures
        match r {
            Ok(()) => bad_fd(value@, count) is None,
            Err(e) => bad_fd(value@, count) matches Some(index) && e@ == WireErrorView::FdIndex(
                index,
            ),
        },
    decreases value, 1nat,
{
    broadcast use lemma_value_view_containers;

    match value {
        Value::Fd(index) => {
            if *index >= count {
                return Err(WireError::FdIndex(*index));
            }
            Ok(())
        },
        Value::Array(items) => {
            proof {
                assert(decreases_to!(*value => (*value)->Array_0));
            }
            check_fds_in(items, count)
        },
        Value::Struct(items) => {
            proof {
                assert(decreases_to!(*value => (*value)->Struct_0));
            }
            check_fds_in(items, count)
        },
        Value::Dict(entries) => {
            proof {
                assert(decreases_to!(*value => (*value)->Dict_0));
            }
            let mut i: usize = 0;
            let ghost all = entry_views(entries@);
            while i < entries.len()
                invariant
                    *value == Value::Dict(*entries),
                    all == entry_views(entries@),
                    i <= entries@.len(),
                    bad_fd(value@, count) == bad_fd_among(all, i as int, count),
                decreases entries@.len() - i,
            {
                proof {
                    assert(decreases_to!(*value => (*value)->Dict_0));
                    assert(decreases_to!(*entries => entries[i as int]));
                    assert(all[i as int].1 == entries@[i as int].1@);
                }
                match check_fd_indices(&entries[i].1, count) {
                    Ok(()) => {},
                    Err(e) => {
                        return Err(e);
                    },
                }
                i = i + 1;
            }
            Ok(())
        },
        Value::Variant(inner) => {
            proof {
                assert(decreases_to!(*value => (*value)->Variant_0));
            }
            check_fd_indices(inner, count)
        },
        _ => Ok(()),
    }
}

fn check_fds_in(items: &Vec<Value>, count: u32) -> (r: Result<(), WireError>)
    ensures
        match r {
            Ok(()) => bad_fd_in(value_views(items@), 0, count) is None,
            Err(e) => bad_fd_in(value_views(items@), 0, count) matches Some(index) && e@
                == WireErrorView::FdIndex(index),
        },
    decreases items, 0nat,
{
    let ghost all = value_views(items@);
    let mut i: usize = 0;
    while i < items.len()
        invariant
            all == value_views(items@),
            i <= items@.len(),
            bad_fd_in(all, 0, count) == bad_fd_in(all, i as int, count),
        decreases items@.len() - i,
    {
        proof {
            assert(decreases_to!(*items => items[i as int]));
            assert(all[i as int] == items@[i as int]@);
        }
        match check_fd_indices(&items[i], count) {
            Ok(()) => {},
            Err(e) => {
                return Err(e);
            },
        }
        i = i + 1;
    }
    Ok(())
}

/// What a message says to the call with this serial, whose answer `owner`
/// owes.
pub fn answer(m: &Message, serial: u32, owner: &str) -> (r: Option<Result<Vec<Value>, WireError>>)
    ensures
        match r {
            None => answer_of(m@, serial, owner@) is None,
            Some(Ok(values)) => answer_of(m@, serial, owner@) == Some(
                Ok::<Seq<ValueView>, WireErrorView>(value_views(values@)),
            ),
            Some(Err(e)) => answer_of(m@, serial, owner@) == Some(
                Err::<Seq<ValueView>, WireErrorView>(e@),
            ),
        },
{
    match m.reply_serial {
        Some(n) => if n != serial {
            return None;
        },
        None => {
            return None;
        },
    }
    // "if a signal has a reply serial it must be ignored even though it has
    // no meaning as of this version of the spec", and an unknown message
    // type "must be ignored" as well: only the two reply types may answer a
    // call.
    if m.kind != MSG_METHOD_RETURN && m.kind != MSG_ERROR {
        return None;
    }
    match &m.sender {
        Some(sender) => {
            if !same_text(sender, owner) {
                return None;
            }
        },
        None => {
            return Some(Err(WireError::BadMessage("a reply with no sender")));
        },
    }
    let body = decode(&m.signature, &m.body);
    if m.kind == MSG_METHOD_RETURN {
        return Some(body);
    }
    let name = match &m.error_name {
        Some(name) => name.clone(),
        None => {
            return Some(Err(WireError::BadMessage("an error reply with no error name")));
        },
    };
    // The name is the half that matters, so a body that will not decode
    // leaves the refusal a refusal rather than a wire failure.
    let message = match &body {
        Ok(values) => {
            if values.len() > 0 {
                assert(value_views(values@)[0] == values@[0]@);
                match &values[0] {
                    Value::Str(text) => text.clone(),
                    _ => String::new(),
                }
            } else {
                String::new()
            }
        },
        Err(_) => String::new(),
    };
    assert(message@ =~= error_text(unmarshal(m@.signature, m@.body)));
    Some(Err(WireError::Remote { name, message }))
}

fn unique_name_of(
    values: &Vec<Value>,
    not_one: &'static str,
    not_unique: &'static str,
) -> (r: Result<String, WireError>)
    ensures
        outcome(r) == unique_name_in(value_views(values@), not_one@, not_unique@),
{
    if values.len() != 1 {
        return Err(WireError::BadMessage(not_one));
    }
    assert(value_views(values@)[0] == values@[0]@);
    match &values[0] {
        Value::Str(name) => {
            if !starts_with(name, ":") {
                return Err(WireError::BadMessage(not_unique));
            }
            Ok(name.clone())
        },
        _ => Err(WireError::BadMessage(not_one)),
    }
}

/// The text of ASCII bytes, or nothing where a byte is not ASCII.
fn ascii_line(bytes: &[u8]) -> (r: Option<String>)
    ensures
        r is Some <==> ascii_bytes(bytes@),
        r matches Some(s) ==> s@ == ascii_text(bytes@),
{
    let mut out = String::new();
    let mut i: usize = 0;
    while i < bytes.len()
        invariant
            i <= bytes@.len(),
            forall|j: int| 0 <= j < i ==> #[trigger] bytes@[j] < 128,
            out@ == ascii_text(bytes@).take(i as int),
        decreases bytes@.len() - i,
    {
        if bytes[i] >= 128 {
            assert(bytes@[i as int] >= 128);
            return None;
        }
        out.push(bytes[i] as char);
        i = i + 1;
        assert(ascii_text(bytes@).take(i as int) =~= ascii_text(bytes@).take(i - 1).push(
            bytes@[i - 1] as char,
        ));
    }
    assert(ascii_text(bytes@).take(i as int) =~= ascii_text(bytes@));
    Some(out)
}

/// What to write first on a new connection: "immediately after connecting to
/// the server, the client must send a single nul byte", then the
/// authentication request.
pub fn opening(uid: u32) -> (r: Vec<u8>)
    ensures
        r@ == auth_request(uid),
{
    let text = joined(&joined("\0AUTH EXTERNAL ", &uid_hex(uid)), "\r\n");
    bytes_of(&text)
}

impl Session {
    /// A session on a connection that was just made, with the opening
    /// written and the answer to it still to come.
    pub fn new() -> (r: Session)
        ensures
            r@ == (SessionView {
                owners: Seq::empty(),
                fds_seen: 0,
                serial: 0,
                unique_name: Seq::empty(),
                fd_passing: false,
                buf: Seq::empty(),
                stage: Stage::Auth,
                owner: Seq::empty(),
                pending: None,
            }),
            sound_session(r@),
    {
        let r = Session {
            owners: Vec::new(),
            fds_seen: 0,
            serial: 0,
            unique_name: String::new(),
            fd_passing: false,
            buf: Vec::new(),
            stage: Stage::Auth,
            owner: String::new(),
            pending: None,
        };
        assert(owner_views(r.owners@) =~= Seq::empty());
        r
    }

    /// The unique name the bus gave this connection, e.g. `:1.42`.
    pub fn unique_name(&self) -> (r: &str)
        ensures
            r@ == self@.unique_name,
    {
        self.unique_name.as_str()
    }

    /// Whether the bus agreed to descriptor passing on this connection.
    pub fn passes_fds(&self) -> (r: bool)
        ensures
            r == self@.fd_passing,
    {
        self.fd_passing
    }

    /// Take in what one read of the socket gave: some bytes, and how many
    /// descriptors came with them. A read of no bytes is the end of the
    /// connection.
    pub fn received(&mut self, bytes: &[u8], fds: usize) -> (r: Result<(), WireError>)
        requires
            old(self)@.fds_seen + fds <= usize::MAX,
        ensures
            final(self)@ == (SessionView {
                fds_seen: old(self)@.fds_seen + fds as nat,
                buf: old(self)@.buf + bytes@,
                ..old(self)@
            }),
            match r {
                Ok(()) => bytes@.len() > 0,
                Err(e) => bytes@.len() == 0 && e@ == WireErrorView::Closed,
            },
    {
        self.fds_seen = self.fds_seen + fds;
        push_bytes(&mut self.buf, bytes);
        if bytes.len() == 0 {
            return Err(WireError::Closed);
        }
        Ok(())
    }

    /// One `\r\n`-terminated authentication line, without its ending; `None`
    /// where it has not all arrived.
    pub fn take_line(&mut self) -> (r: Result<Option<String>, WireError>)
        ensures
            ({
                let (buf, line) = buffered_line(old(self)@.buf);
                &&& final(self)@ == SessionView { buf, ..old(self)@ }
                &&& match r {
                    Ok(l) => line == Ok::<Option<Seq<char>>, WireErrorView>(maybe(l)),
                    Err(e) => line == Err::<Option<Seq<char>>, WireErrorView>(e@),
                }
            }),
    {
        let mut i: usize = 0;
        let len = self.buf.len();
        while i < len && len - i > 1
            invariant
                *self == *old(self),
                len == self.buf@.len(),
                i <= len,
                line_end(self.buf@, 0) == line_end(self.buf@, i as int),
            decreases len - i,
        {
            if self.buf[i] == 13 && self.buf[i + 1] == 10 {
                let rest = copy_bytes(
                    vstd::slice::slice_subrange(self.buf.as_slice(), i + 2, len),
                );
                let line = copy_bytes(vstd::slice::slice_subrange(self.buf.as_slice(), 0, i));
                assert(rest@ =~= self.buf@.skip(i + 2));
                assert(line@ =~= self.buf@.take(i as int));
                self.buf = rest;
                return match ascii_line(&line) {
                    Some(text) => Ok(Some(text)),
                    None => Err(WireError::Auth(lossy_text(&line))),
                };
            }
            i = i + 1;
        }
        if len > MAX_AUTH_LINE {
            return Err(WireError::Auth("a line with no end".to_owned()));
        }
        Ok(None)
    }

    /// The next whole message, taken off the buffer; `None` where it has not
    /// all arrived.
    pub fn take_message(&mut self) -> (r: Result<Option<Message>, WireError>)
        ensures
            ({
                let (rest, message) = buffered_message(old(self)@);
                &&& final(self)@ == rest
                &&& match r {
                    Ok(m) => message == Ok::<Option<MessageView>, WireErrorView>(maybe(m)),
                    Err(e) => message == Err::<Option<MessageView>, WireErrorView>(e@),
                }
            }),
    {
        if self.buf.len() < FIXED_HEADER {
            return Ok(None);
        }
        let (body_at, body_len) = match frame(&self.buf) {
            Ok(f) => f,
            Err(e) => {
                return Err(e);
            },
        };
        let total = body_at + body_len;
        if self.buf.len() < total {
            return Ok(None);
        }
        let len = self.buf.len();
        let bytes = copy_bytes(vstd::slice::slice_subrange(self.buf.as_slice(), 0, total));
        let rest = copy_bytes(vstd::slice::slice_subrange(self.buf.as_slice(), total, len));
        assert(bytes@ =~= self.buf@.take(total as int));
        assert(rest@ =~= self.buf@.skip(total as int));
        self.buf = rest;
        let message = match decode_message(&bytes) {
            Ok(m) => m,
            Err(e) => {
                return Err(e);
            },
        };
        let arrived = self.fds_seen;
        self.fds_seen = 0;
        if arrived as u64 != message.unix_fds as u64 {
            return Err(
                WireError::BadMessage("a message with fewer or more descriptors than it declares"),
            );
        }
        Ok(Some(message))
    }

    /// The unique name a destination is known to be owned by.
    ///
    /// A unique name owns itself and the bus answers for its own name, so
    /// neither needs asking; every other destination is a well-known name
    /// whose owner the bus is asked for once per session.
    pub fn owner_of(&self, dest: &str) -> (r: Option<String>)
        ensures
            maybe(r) == known_owner(self@.owners, dest@),
    {
        if same_text(dest, BUS_NAME) || starts_with(dest, ":") {
            return Some(dest.to_owned());
        }
        let ghost owners = owner_views(self.owners@);
        let mut i: usize = 0;
        while i < self.owners.len()
            invariant
                owners == owner_views(self.owners@),
                i <= self.owners@.len(),
                looked_up(owners, dest@, 0) == looked_up(owners, dest@, i as int),
                known_owner(owners, dest@) == looked_up(owners, dest@, 0),
            decreases self.owners@.len() - i,
        {
            assert(owners[i as int] == (self.owners@[i as int].0@, self.owners@[i as int].1@));
            if same_text(&self.owners[i].0, dest) {
                return Some(self.owners[i].1.clone());
            }
            i = i + 1;
        }
        None
    }

    fn send_call(
        &mut self,
        call: &Call,
        owner: String,
        stage: Stage,
        head: &[u8],
    ) -> (r: Result<Step, WireError>)
        requires
            call@.fds <= MAX_CALL_FDS,
        ensures
            (final(self)@, outcome(r)) == session_send(
                old(self)@,
                call@,
                owner@,
                stage,
                head@,
            ),
    {
        let body = match encode(&call.sig, &call.body) {
            Ok(b) => b,
            Err(e) => {
                return Err(e);
            },
        };
        let mut fields: Vec<(u8, Value)> = Vec::new();
        fields.push((FIELD_PATH, Value::ObjectPath(call.path.clone())));
        fields.push((FIELD_DESTINATION, Value::Str(call.dest.clone())));
        if !call.iface.as_str().is_empty() {
            fields.push((FIELD_INTERFACE, Value::Str(call.iface.clone())));
        }
        fields.push((FIELD_MEMBER, Value::Str(call.member.clone())));
        if !call.sig.as_str().is_empty() {
            fields.push((FIELD_SIGNATURE, Value::Signature(call.sig.clone())));
        }
        if call.fds > 0 {
            fields.push((FIELD_UNIX_FDS, Value::Uint32(call.fds as u32)));
        }
        assert(field_views(fields@) =~= call_fields(call@));
        self.serial = if self.serial == u32::MAX {
            1
        } else {
            self.serial + 1
        };
        let message = match encode_message(MSG_METHOD_CALL, 0, self.serial, &fields, &body) {
            Ok(m) => m,
            Err(e) => {
                return Err(e);
            },
        };
        let mut bytes = copy_bytes(head);
        push_bytes(&mut bytes, &message);
        self.owner = owner;
        self.stage = stage;
        Ok(Step::Send { bytes, with_fds: call.fds > 0 })
    }

    /// Begin a call to `member` on `iface` of `path` at `dest`, with a body
    /// marshalled against a signature and descriptors travelling beside it.
    ///
    /// The reply is the one whose `REPLY_SERIAL` is this call's, whose type
    /// is `METHOD_RETURN` or `ERROR`, and whose `SENDER` is the unique name
    /// that owns the destination. Everything else that arrives meanwhile is
    /// dropped. An `ERROR` reply becomes [`WireError::Remote`], which leaves
    /// the session usable; every other failure does not.
    pub fn call(&mut self, call: Call) -> (r: Result<Step, WireError>)
        requires
            old(self)@.stage == Stage::Idle,
            sound_session(old(self)@),
        ensures
            (final(self)@, outcome(r)) == session_call(old(self)@, call@),
            sound_session(final(self)@),
    {
        if call.dest.as_str().is_empty() {
            return Err(WireError::NoDestination);
        }
        if call.fds > 0 && !self.fd_passing {
            return Err(WireError::NoFdPassing);
        }
        if call.fds > MAX_CALL_FDS {
            return Err(WireError::TooManyFds(call.fds));
        }
        match check_fds_in(&call.body, call.fds as u32) {
            Ok(()) => {},
            Err(e) => {
                return Err(e);
            },
        }
        // Before anything is sent, so the reply has a sender to be held to;
        // the lookup is itself a call, to a name that needs none.
        match self.owner_of(&call.dest) {
            Some(owner) => self.send_call(&call, owner, Stage::Await, &[]),
            None => {
                let question = owner_question(&call.dest);
                self.pending = Some(call);
                self.send_call(&question, BUS_NAME.to_owned(), Stage::Lookup, &[])
            },
        }
    }

    /// The next step: what to send, that more has to be read, or what the
    /// call was answered with.
    pub fn advance(&mut self) -> (r: Result<Step, WireError>)
        requires
            sound_session(old(self)@),
        ensures
            (final(self)@, outcome(r)) == session_step(old(self)@),
            sound_session(final(self)@),
    {
        match self.stage {
            Stage::Idle => Ok(Step::Wait),
            Stage::Auth => self.advance_auth(),
            Stage::Negotiate => self.advance_negotiate(),
            _ => self.advance_message(),
        }
    }

    fn advance_auth(&mut self) -> (r: Result<Step, WireError>)
        ensures
            (final(self)@, outcome(r)) == after_auth(old(self)@),
    {
        let line = match self.take_line() {
            Ok(Some(l)) => l,
            Ok(None) => {
                return Ok(Step::Wait);
            },
            Err(e) => {
                return Err(e);
            },
        };
        if starts_with(&line, "REJECTED") {
            proof {
                reveal_strlit("REJECTED");
            }
            let rest = skip_chars(&line, 8);
            return Err(WireError::AuthRejected(trim(&rest)));
        }
        if !starts_with(&line, "OK ") {
            return Err(WireError::Auth(line));
        }
        self.stage = Stage::Negotiate;
        Ok(Step::Send { bytes: bytes_of("NEGOTIATE_UNIX_FD\r\n"), with_fds: false })
    }

    fn advance_negotiate(&mut self) -> (r: Result<Step, WireError>)
        ensures
            (final(self)@, outcome(r)) == after_negotiate(old(self)@),
    {
        let line = match self.take_line() {
            Ok(Some(l)) => l,
            Ok(None) => {
                return Ok(Step::Wait);
            },
            Err(e) => {
                return Err(e);
            },
        };
        if same_text(&line, "AGREE_UNIX_FD") {
            self.fd_passing = true;
        } else if !starts_with(&line, "ERROR") {
            return Err(WireError::Auth(line));
        }
        // "The server does not reply" to BEGIN.
        self.send_call(
            &hello_question(),
            BUS_NAME.to_owned(),
            Stage::Hello,
            bytes_of("BEGIN\r\n").as_slice(),
        )
    }

    fn advance_message(&mut self) -> (r: Result<Step, WireError>)
        requires
            sound_session(old(self)@),
        ensures
            (final(self)@, outcome(r)) == after_message(old(self)@),
    {
        let message = match self.take_message() {
            Ok(Some(m)) => m,
            Ok(None) => {
                return Ok(Step::Wait);
            },
            Err(e) => {
                return Err(e);
            },
        };
        let reply = match answer(&message, self.serial, &self.owner) {
            None => {
                return Ok(Step::Skipped);
            },
            Some(reply) => reply,
        };
        let stage = self.stage;
        let pending = self.pending.take();
        self.stage = Stage::Idle;
        let values = match reply {
            Ok(values) => values,
            Err(e) => {
                return Err(e);
            },
        };
        match stage {
            Stage::Hello => {
                match unique_name_of(
                    &values,
                    "a Hello reply that is not one name",
                    "a Hello reply that is not a unique name",
                ) {
                    Ok(name) => {
                        self.unique_name = name;
                        Ok(Step::Ready)
                    },
                    Err(e) => Err(e),
                }
            },
            Stage::Lookup => {
                let owner = match unique_name_of(
                    &values,
                    "a GetNameOwner reply that is not one name",
                    "a name owner that is not unique",
                ) {
                    Ok(name) => name,
                    Err(e) => {
                        return Err(e);
                    },
                };
                match pending {
                    None => Ok(Step::Wait),
                    Some(call) => {
                        let ghost before = owner_views(self.owners@);
                        self.owners.push((call.dest.clone(), owner.clone()));
                        assert(owner_views(self.owners@) =~= before.push((call.dest@, owner@)));
                        self.send_call(&call, owner, Stage::Await, &[])
                    },
                }
            },
            _ => Ok(Step::Reply(values)),
        }
    }
}

/// A reply is held to the owner of the name that was called: what anyone
/// else sends is never taken for one, and values come from the owner alone.
pub proof fn only_the_owner_answers(m: MessageView, serial: u32, owner: Seq<char>)
    ensures
        m.sender matches Some(sender) ==> sender != owner ==> answer_of(m, serial, owner) is None,
        answer_of(m, serial, owner) matches Some(Ok(values)) ==> m.sender == Some(owner)
            && m.reply_serial == Some(serial) && m.kind == MSG_METHOD_RETURN,
{
}

/// An error reply is an answer: the call fails with it and the session may
/// make its next call.
pub proof fn an_error_reply_leaves_the_session_usable(
    s: SessionView,
    m: MessageView,
    error: WireErrorView,
)
    requires
        s.stage == Stage::Await,
        buffered_message(s).1 == Ok::<Option<MessageView>, WireErrorView>(Some(m)),
        answer_of(m, s.serial, s.owner) == Some(Err::<Seq<ValueView>, WireErrorView>(error)),
    ensures
        session_step(s).0.stage == Stage::Idle,
        session_step(s).1 == Err::<StepView, WireErrorView>(error),
{
}

/// No serial is zero.
pub proof fn serials_are_never_zero(serial: u32)
    ensures
        serial_after(serial) != 0,
{
}

fn owner_question(dest: &str) -> (r: Call)
    ensures
        r@ == owner_call(dest@),
{
    let body: Vec<Value> = vec![Value::Str(dest.to_owned())];
    assert(value_views(body@) =~= seq![ValueView::Str(dest@)]);
    Call {
        dest: BUS_NAME.to_owned(),
        path: BUS_PATH.to_owned(),
        iface: BUS_INTERFACE.to_owned(),
        member: "GetNameOwner".to_owned(),
        sig: "s".to_owned(),
        body,
        fds: 0,
    }
}

fn hello_question() -> (r: Call)
    ensures
        r@ == hello_call(),
{
    let body: Vec<Value> = Vec::new();
    assert(value_views(body@) =~= Seq::empty());
    Call {
        dest: BUS_NAME.to_owned(),
        path: BUS_PATH.to_owned(),
        iface: BUS_INTERFACE.to_owned(),
        member: "Hello".to_owned(),
        sig: "".to_owned(),
        body,
        fds: 0,
    }
}

} // verus!
