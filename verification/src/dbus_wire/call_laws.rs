//! What a session sends, and what it takes for an answer.

use vstd::prelude::*;

use crate::dbus_wire::decode::unmarshal;
use crate::dbus_wire::encode::{marshal, object_path, word_char};
use crate::dbus_wire::message::{
    hex_digit, hex_text, marshal_message, message_frame, read_message, with_field, Fields,
    MessageView,
};
use crate::dbus_wire::number::{
    capacity, le, le_value, lemma_le_len, lemma_le_round_trip, lemma_padding, padding, signed,
    unsigned,
};
use crate::dbus_wire::session::{
    answer_of, answered, ascii_bytes, ascii_text, auth_fault, auth_request, bad_fd, bad_fd_among,
    bad_fd_in, buffered_line, buffered_message, call_fault, call_fields, error_text, hello_call,
    known_owner, line_end, looked_up, owner_call, serial_after, session_call, session_send,
    session_step, unique_name_in, CallView, SessionView, Stage, StepView,
};
use crate::dbus_wire::signature::single_type;
use crate::dbus_wire::value::{
    alignment_of, basic_type, code_of, TypeView, ValueView, WireErrorView,
};
use crate::text::{begins, decimal_digits, trimmed, utf8};

verus! {

proof fn lemma_bad_fd_in(items: Seq<ValueView>, i: int, count: u32)
    requires
        0 <= i <= items.len(),
    ensures
        bad_fd_in(items, i, count) is None <==> forall|k: int|
            i <= k < items.len() ==> bad_fd(#[trigger] items[k], count) is None,
        bad_fd_in(items, i, count) matches Some(index) ==> exists|k: int|
            i <= k < items.len() && bad_fd(#[trigger] items[k], count) == Some(index),
    decreases items.len() - i,
{
    if i < items.len() {
        lemma_bad_fd_in(items, i + 1, count);
    }
}

proof fn lemma_bad_fd_among(entries: Seq<(Seq<char>, ValueView)>, i: int, count: u32)
    requires
        0 <= i <= entries.len(),
    ensures
        bad_fd_among(entries, i, count) is None <==> forall|k: int|
            i <= k < entries.len() ==> bad_fd((#[trigger] entries[k]).1, count) is None,
        bad_fd_among(entries, i, count) matches Some(index) ==> exists|k: int|
            i <= k < entries.len() && bad_fd((#[trigger] entries[k]).1, count) == Some(index),
    decreases entries.len() - i,
{
    if i < entries.len() {
        lemma_bad_fd_among(entries, i + 1, count);
    }
}

/// A value names no descriptor that was not given exactly where it is none
/// that was not, and nothing in it names one, however deep it stands; what is
/// told is always one that was not given.
pub proof fn every_descriptor_a_value_names_was_given(v: ValueView, count: u32)
    ensures
        match v {
            ValueView::Fd(index) => bad_fd(v, count) is None <==> index < count,
            ValueView::Array(items) => bad_fd(v, count) is None <==> forall|k: int|
                0 <= k < items.len() ==> bad_fd(#[trigger] items[k], count) is None,
            ValueView::Struct(items) => bad_fd(v, count) is None <==> forall|k: int|
                0 <= k < items.len() ==> bad_fd(#[trigger] items[k], count) is None,
            ValueView::Dict(entries) => bad_fd(v, count) is None <==> forall|k: int|
                0 <= k < entries.len() ==> bad_fd((#[trigger] entries[k]).1, count) is None,
            ValueView::Variant(inner) => bad_fd(v, count) == bad_fd(*inner, count),
            _ => bad_fd(v, count) is None,
        },
        bad_fd(v, count) matches Some(index) ==> index >= count,
    decreases v,
{
    match v {
        ValueView::Array(items) => {
            lemma_bad_fd_in(items, 0, count);
            if let Some(index) = bad_fd_in(items, 0, count) {
                let k = choose|k: int|
                    0 <= k < items.len() && bad_fd(#[trigger] items[k], count) == Some(index);
                every_descriptor_a_value_names_was_given(items[k], count);
            }
        },
        ValueView::Struct(items) => {
            lemma_bad_fd_in(items, 0, count);
            if let Some(index) = bad_fd_in(items, 0, count) {
                let k = choose|k: int|
                    0 <= k < items.len() && bad_fd(#[trigger] items[k], count) == Some(index);
                every_descriptor_a_value_names_was_given(items[k], count);
            }
        },
        ValueView::Dict(entries) => {
            lemma_bad_fd_among(entries, 0, count);
            if let Some(index) = bad_fd_among(entries, 0, count) {
                let k = choose|k: int|
                    0 <= k < entries.len() && bad_fd((#[trigger] entries[k]).1, count) == Some(
                        index,
                    );
                every_descriptor_a_value_names_was_given(entries[k].1, count);
            }
        },
        ValueView::Variant(inner) => {
            every_descriptor_a_value_names_was_given(*inner, count);
        },
        _ => {},
    }
}

/// A call may be made exactly where it has a destination, passes no more
/// descriptors than a message carries and none where the bus passes none, and
/// its values name none that it does not pass; each fault has its own error.
pub proof fn a_call_may_be_made_where_it_can_be_carried(fd_passing: bool, call: CallView)
    ensures
        call_fault(fd_passing, call) is None <==> {
            &&& call.dest.len() > 0
            &&& call.fds > 0 ==> fd_passing
            &&& call.fds <= 253
            &&& forall|k: int|
                0 <= k < call.body.len() ==> bad_fd(#[trigger] call.body[k], call.fds as u32) is None
        },
        call.dest.len() == 0 ==> call_fault(fd_passing, call) == Some(WireErrorView::NoDestination),
        call.dest.len() > 0 && call.fds > 0 && !fd_passing ==> call_fault(fd_passing, call) == Some(
            WireErrorView::NoFdPassing,
        ),
        call.dest.len() > 0 && fd_passing && call.fds > 253 ==> call_fault(fd_passing, call)
            == Some(WireErrorView::TooManyFds(call.fds)),
{
    lemma_bad_fd_in(call.body, 0, call.fds as u32);
}

/// What is said of a call in its header: the path, the destination and the
/// member always; the interface, the signature and the number of descriptors
/// where there are any; each with its own code and as it is, and nothing else.
pub proof fn a_header_says_what_the_call_is(call: CallView)
    ensures
        ({
            let all = call_fields(call);
            &&& all.len() == 3 + (if call.iface.len() > 0 { 1int } else { 0 }) + (
            if call.sig.len() > 0 { 1int } else { 0 }) + (if call.fds > 0 { 1int } else { 0 })
            &&& all.contains((1u8, ValueView::ObjectPath(call.path)))
            &&& all.contains((6u8, ValueView::Str(call.dest)))
            &&& all.contains((3u8, ValueView::Str(call.member)))
            &&& call.iface.len() > 0 ==> all.contains((2u8, ValueView::Str(call.iface)))
            &&& call.sig.len() > 0 ==> all.contains((8u8, ValueView::Signature(call.sig)))
            &&& call.fds > 0 ==> all.contains((9u8, ValueView::Uint32(call.fds as u32)))
        }),
{
    let all = call_fields(call);
    assert(all[0] == (1u8, ValueView::ObjectPath(call.path)));
    assert(all[1] == (6u8, ValueView::Str(call.dest)));
    let at = if call.iface.len() > 0 {
        3int
    } else {
        2
    };
    if call.iface.len() > 0 {
        assert(all[2] == (2u8, ValueView::Str(call.iface)));
    }
    assert(all[at] == (3u8, ValueView::Str(call.member)));
    if call.sig.len() > 0 {
        assert(all[at + 1] == (8u8, ValueView::Signature(call.sig)));
    }
    if call.fds > 0 {
        assert(all.last() == (9u8, ValueView::Uint32(call.fds as u32)));
    }
}

/// Serials go up by one, and after the last begin again at one.
pub proof fn serials_go_up_by_one(serial: u32)
    ensures
        serial < 4294967295 ==> serial_after(serial) == serial + 1,
        serial == 4294967295 ==> serial_after(serial) == 1,
{
}

proof fn lemma_looked_up(owners: Seq<(Seq<char>, Seq<char>)>, dest: Seq<char>, i: int)
    requires
        0 <= i <= owners.len(),
    ensures
        match looked_up(owners, dest, i) {
            None => forall|k: int| i <= k < owners.len() ==> (#[trigger] owners[k]).0 != dest,
            Some(owner) => exists|k: int|
                i <= k < owners.len() && (#[trigger] owners[k]) == (dest, owner) && forall|j: int|
                    i <= j < k ==> (#[trigger] owners[j]).0 != dest,
        },
    decreases owners.len() - i,
{
    if i < owners.len() && owners[i].0 != dest {
        lemma_looked_up(owners, dest, i + 1);
    } else if i < owners.len() {
        assert(owners[i] == (dest, owners[i].1));
    }
}

/// The bus and every unique name answer for themselves; any other name is
/// answered for by the owner that was first learnt of it, and by none that is
/// not known.
pub proof fn a_name_is_answered_for_by_its_owner(
    owners: Seq<(Seq<char>, Seq<char>)>,
    dest: Seq<char>,
)
    ensures
        dest == "org.freedesktop.DBus"@ || dest.len() > 0 && dest[0] == ':' ==> known_owner(
            owners,
            dest,
        ) == Some(dest),
        dest != "org.freedesktop.DBus"@ && !(dest.len() > 0 && dest[0] == ':') ==> match known_owner(
            owners,
            dest,
        ) {
            None => forall|k: int| 0 <= k < owners.len() ==> (#[trigger] owners[k]).0 != dest,
            Some(owner) => exists|k: int|
                0 <= k < owners.len() && (#[trigger] owners[k]) == (dest, owner) && forall|j: int|
                    0 <= j < k ==> (#[trigger] owners[j]).0 != dest,
        },
{
    reveal_strlit(":");
    lemma_looked_up(owners, dest, 0);
    if dest.len() > 0 {
        assert(dest.take(1) =~= seq![dest[0]]);
        assert(":"@ =~= seq![':']);
        assert(dest[0] == ':' <==> begins(dest, ":"@)) by {
            if begins(dest, ":"@) {
                assert(dest.take(1)[0] == ":"@[0]);
            }
        }
    }
}

/// What is sent of a call is one message with the next serial, whose header
/// says what the call is and whose body is its values; it waits for the owner
/// it is sent to. A call that cannot be encoded is not sent.
pub proof fn what_is_sent_is_the_call(
    s: SessionView,
    call: CallView,
    owner: Seq<char>,
    stage: Stage,
    head: Seq<u8>,
)
    ensures
        ({
            let (next, step) = session_send(s, call, owner, stage, head);
            &&& marshal(call.sig, call.body) matches Err(e) ==> next == s && step == Err::<
                StepView,
                WireErrorView,
            >(e)
            &&& step matches Ok(sent) ==> {
                &&& next == (SessionView { serial: serial_after(s.serial), owner, stage, ..s })
                &&& sent matches StepView::Send { bytes, with_fds } && {
                    &&& with_fds == (call.fds > 0)
                    &&& bytes.take(head.len() as int) == head
                    &&& marshal(call.sig, call.body) matches Ok(body) && marshal_message(
                        1,
                        0,
                        serial_after(s.serial),
                        call_fields(call),
                        body,
                    ) == Ok::<Seq<u8>, WireErrorView>(bytes.skip(head.len() as int))
                }
            }
        }),
{
    let (next, step) = session_send(s, call, owner, stage, head);
    if let Ok(StepView::Send { bytes, with_fds }) = step {
        let body = marshal(call.sig, call.body)->Ok_0;
        let tail = marshal_message(1, 0, serial_after(s.serial), call_fields(call), body)->Ok_0;
        assert(bytes == head + tail);
        assert(bytes.take(head.len() as int) =~= head);
        assert(bytes.skip(head.len() as int) =~= tail);
    }
}

/// A call to a name whose owner is known is sent at once; for any other the
/// bus is asked for the owner first, and the call is kept until it says; and
/// one with a fault is not sent, and changes nothing.
pub proof fn a_call_waits_for_the_owner_of_its_name(s: SessionView, call: CallView)
    ensures
        call_fault(s.fd_passing, call) matches Some(e) ==> session_call(s, call) == (
            s,
            Err::<StepView, WireErrorView>(e),
        ),
        call_fault(s.fd_passing, call) is None ==> match known_owner(s.owners, call.dest) {
            Some(owner) => session_call(s, call) == session_send(
                s,
                call,
                owner,
                Stage::Await,
                Seq::empty(),
            ),
            None => session_call(s, call) == session_send(
                SessionView { pending: Some(call), ..s },
                owner_call(call.dest),
                "org.freedesktop.DBus"@,
                Stage::Lookup,
                Seq::empty(),
            ),
        },
        owner_call(call.dest).dest == "org.freedesktop.DBus"@,
        owner_call(call.dest).path == "/org/freedesktop/DBus"@,
        owner_call(call.dest).iface == "org.freedesktop.DBus"@,
        owner_call(call.dest).member == "GetNameOwner"@,
        owner_call(call.dest).sig == "s"@,
        owner_call(call.dest).body == seq![ValueView::Str(call.dest)],
        owner_call(call.dest).fds == 0,
        hello_call().dest == "org.freedesktop.DBus"@,
        hello_call().path == "/org/freedesktop/DBus"@,
        hello_call().iface == "org.freedesktop.DBus"@,
        hello_call().member == "Hello"@,
        hello_call().sig.len() == 0,
        hello_call().body.len() == 0,
        hello_call().fds == 0,
{
    reveal_strlit("");
}

/// A reply is the answer to a call exactly where it is of its serial, is a
/// return or an error, and is from its owner or from nobody. A return answers
/// with the values of its body, an error with its name and its first string;
/// one from nobody, or an error without a name, is no proper answer.
pub proof fn a_reply_is_taken_for_what_it_says(m: MessageView, serial: u32, owner: Seq<char>)
    ensures
        answer_of(m, serial, owner) is Some <==> m.reply_serial == Some(serial) && (m.kind == 2
            || m.kind == 3) && (m.sender is None || m.sender == Some(owner)),
        m.reply_serial == Some(serial) && m.sender == Some(owner) ==> {
            &&& m.kind == 2 ==> answer_of(m, serial, owner) == Some(
                unmarshal(m.signature, m.body),
            )
            &&& m.kind == 3 ==> match m.error_name {
                Some(name) => answer_of(m, serial, owner) == Some(
                    Err::<Seq<ValueView>, WireErrorView>(
                        WireErrorView::Remote {
                            name,
                            message: error_text(unmarshal(m.signature, m.body)),
                        },
                    ),
                ),
                None => answer_of(m, serial, owner) matches Some(Err(WireErrorView::BadMessage(_))),
            }
        },
        m.reply_serial == Some(serial) && (m.kind == 2 || m.kind == 3) && m.sender is None
            ==> answer_of(m, serial, owner) matches Some(Err(WireErrorView::BadMessage(_))),
{
}

/// The text of an error is its first value where that is a string, whatever
/// comes after it, and empty elsewhere.
pub proof fn an_errors_text_is_its_first_string(text: Seq<char>, rest: Seq<ValueView>)
    ensures
        error_text(Ok(seq![ValueView::Str(text)] + rest)) == text,
        error_text(Ok(Seq::empty())).len() == 0,
        rest.len() > 0 && !(rest[0] is Str) ==> error_text(Ok(rest)).len() == 0,
{
}

/// A name owner is read of a reply exactly where that is one string that
/// begins with a colon.
pub proof fn an_owner_is_one_unique_name(
    values: Seq<ValueView>,
    not_one: Seq<char>,
    not_unique: Seq<char>,
    name: Seq<char>,
)
    ensures
        unique_name_in(values, not_one, not_unique) == Ok::<Seq<char>, WireErrorView>(name) <==> {
            &&& values == seq![ValueView::Str(name)]
            &&& name.len() > 0 && name[0] == ':'
        },
        unique_name_in(values, not_one, not_unique) is Err ==> unique_name_in(
            values,
            not_one,
            not_unique,
        ) == Err::<Seq<char>, WireErrorView>(
            WireErrorView::BadMessage(
                if values.len() == 1 && values[0] is Str {
                    not_unique
                } else {
                    not_one
                },
            ),
        ),
{
    reveal_strlit(":");
    if values.len() == 1 && values[0] is Str {
        let text = values[0]->Str_0;
        assert(values =~= seq![ValueView::Str(text)]);
        assert(seq![ValueView::Str(name)][0] == ValueView::Str(name));
        if text.len() > 0 {
            assert(text.take(1) =~= seq![text[0]]);
            assert(":"@ =~= seq![':']);
            if begins(text, ":"@) {
                assert(text.take(1)[0] == ":"@[0]);
            }
        }
    }
    if values == seq![ValueView::Str(name)] {
        assert(values[0] == ValueView::Str(name));
    }
}

proof fn lemma_line_end(buf: Seq<u8>, i: int)
    requires
        0 <= i <= buf.len(),
    ensures
        match line_end(buf, i) {
            None => forall|k: int|
                i <= k < buf.len() - 1 ==> !(#[trigger] buf[k] == 13 && buf[k + 1] == 10),
            Some(end) => i <= end < buf.len() - 1 && buf[end] == 13 && buf[end + 1] == 10 && forall|
                k: int,
            |
                i <= k < end ==> !(#[trigger] buf[k] == 13 && buf[k + 1] == 10),
        },
    decreases buf.len() - i,
{
    if i + 1 < buf.len() && !(buf[i] == 13 && buf[i + 1] == 10) {
        lemma_line_end(buf, i + 1);
    }
}

/// A line of the handshake is what stands before the first line end that is
/// there, and what stands after it is left: nothing of either is lost. Without
/// one nothing is taken, and only so much is waited for.
pub proof fn a_line_is_taken_up_to_its_end(buf: Seq<u8>)
    ensures
        ({
            let (rest, line) = buffered_line(buf);
            &&& line matches Ok(Some(text)) ==> {
                &&& ascii_bytes(buf.take(text.len() as int))
                &&& text == ascii_text(buf.take(text.len() as int))
                &&& buf == buf.take(text.len() as int).push(13).push(10) + rest
                &&& forall|k: int|
                    0 <= k < text.len() ==> !(#[trigger] buf[k] == 13 && buf[k + 1] == 10)
            }
            &&& line matches Ok(None) ==> rest == buf && buf.len() <= 4096
            &&& (forall|k: int|
                0 <= k < buf.len() - 1 ==> !(#[trigger] buf[k] == 13 && buf[k + 1] == 10)) ==> (
            line is Ok <==> buf.len() <= 4096) && rest == buf && !(line matches Ok(Some(_)))
        }),
{
    lemma_line_end(buf, 0);
    if let Some(end) = line_end(buf, 0) {
        let rest = buf.skip(end + 2);
        assert(buf =~= buf.take(end).push(13).push(10) + rest);
    }
}

/// What the bus says to the authentication: refused, with what it offers
/// instead; accepted; or anything else, which is an error with the line.
pub proof fn an_authentication_is_answered(line: Seq<char>, rest: Seq<char>)
    ensures
        auth_fault("REJECTED"@ + rest) == Some(WireErrorView::AuthRejected(trimmed(rest))),
        auth_fault("OK "@ + rest) is None,
        !begins(line, "REJECTED"@) && !begins(line, "OK "@) ==> auth_fault(line) == Some(
            WireErrorView::Auth(line),
        ),
        auth_fault(line) is None ==> begins(line, "OK "@),
{
    reveal_strlit("REJECTED");
    reveal_strlit("OK ");
    let refused = "REJECTED"@ + rest;
    assert(refused.take(8) =~= "REJECTED"@);
    assert(refused.skip(8) =~= rest);
    let accepted = "OK "@ + rest;
    assert(accepted.take(3) =~= "OK "@);
    if begins(accepted, "REJECTED"@) {
        assert(accepted.take(8)[0] == "REJECTED"@[0]);
        assert(accepted[0] == 'O');
    }
}

/// How a session comes up: the credentials, then the question whether
/// descriptors are passed, then the name. Descriptors are passed exactly where
/// the bus agreed, and a bus that does not is still talked to.
pub proof fn a_session_comes_up_step_by_step(s: SessionView, line: Seq<char>)
    ensures
        s.stage == Stage::Auth && buffered_line(s.buf).1 == Ok::<
            Option<Seq<char>>,
            WireErrorView,
        >(Some(line)) ==> {
            let (next, step) = session_step(s);
            &&& auth_fault(line) is None ==> next.stage == Stage::Negotiate && step == Ok::<
                StepView,
                WireErrorView,
            >(StepView::Send { bytes: utf8("NEGOTIATE_UNIX_FD\r\n"@), with_fds: false })
            &&& auth_fault(line) matches Some(e) ==> step == Err::<StepView, WireErrorView>(e)
            &&& next.buf == buffered_line(s.buf).0
        },
        s.stage == Stage::Negotiate && buffered_line(s.buf).1 == Ok::<
            Option<Seq<char>>,
            WireErrorView,
        >(Some(line)) ==> {
            let (next, step) = session_step(s);
            &&& line == "AGREE_UNIX_FD"@ || begins(line, "ERROR"@) ==> session_step(s)
                == session_send(
                SessionView {
                    buf: buffered_line(s.buf).0,
                    fd_passing: s.fd_passing || line == "AGREE_UNIX_FD"@,
                    ..s
                },
                hello_call(),
                "org.freedesktop.DBus"@,
                Stage::Hello,
                utf8("BEGIN\r\n"@),
            )
            &&& line != "AGREE_UNIX_FD"@ && !begins(line, "ERROR"@) ==> step == Err::<
                StepView,
                WireErrorView,
            >(WireErrorView::Auth(line))
        },
        s.stage == Stage::Idle ==> session_step(s) == (s, Ok::<StepView, WireErrorView>(StepView::Wait)),
{
}

/// What an answer does: the name of the session after the greeting; after a
/// lookup the owner is learnt for the name that was called, and the call that
/// was kept is sent to it; and else the values are the reply.
pub proof fn an_answer_goes_to_what_asked(
    s: SessionView,
    pending: Option<CallView>,
    values: Seq<ValueView>,
    name: Seq<char>,
    call: CallView,
)
    requires
        name.len() > 0,
        name[0] == ':',
    ensures
        answered(s, Stage::Hello, pending, seq![ValueView::Str(name)]) == (
            SessionView { unique_name: name, ..s },
            Ok::<StepView, WireErrorView>(StepView::Ready),
        ),
        answered(s, Stage::Lookup, Some(call), seq![ValueView::Str(name)]) == session_send(
            SessionView { owners: s.owners.push((call.dest, name)), ..s },
            call,
            name,
            Stage::Await,
            Seq::empty(),
        ),
        answered(s, Stage::Await, pending, values) == (
            s,
            Ok::<StepView, WireErrorView>(StepView::Reply(values)),
        ),
{
    an_owner_is_one_unique_name(
        seq![ValueView::Str(name)],
        "a Hello reply that is not one name"@,
        "a Hello reply that is not a unique name"@,
        name,
    );
    an_owner_is_one_unique_name(
        seq![ValueView::Str(name)],
        "a GetNameOwner reply that is not one name"@,
        "a name owner that is not unique"@,
        name,
    );
}

/// What a header field leaves: a field met before is an error whatever it is;
/// one of the right type is kept as it is, and nothing else changes.
pub proof fn a_header_field_is_kept_as_it_is(f: Fields, n: u32, text: Seq<char>, v: ValueView)
    ensures
        f.seen.contains(5u8) ==> with_field(f, 5, v) is Err,
        !f.seen.contains(5u8) ==> with_field(f, 5, ValueView::Uint32(n)) == Ok::<
            Fields,
            WireErrorView,
        >(Fields { reply_serial: Some(n), seen: f.seen.push(5), ..f }),
        !f.seen.contains(4u8) ==> with_field(f, 4, ValueView::Str(text)) == Ok::<
            Fields,
            WireErrorView,
        >(Fields { error_name: Some(text), seen: f.seen.push(4), ..f }),
        !f.seen.contains(7u8) ==> with_field(f, 7, ValueView::Str(text)) == Ok::<
            Fields,
            WireErrorView,
        >(Fields { sender: Some(text), seen: f.seen.push(7), ..f }),
        !f.seen.contains(8u8) ==> with_field(f, 8, ValueView::Signature(text)) == Ok::<
            Fields,
            WireErrorView,
        >(Fields { signature: text, seen: f.seen.push(8), ..f }),
        !f.seen.contains(9u8) ==> with_field(f, 9, ValueView::Uint32(n)) == Ok::<
            Fields,
            WireErrorView,
        >(Fields { unix_fds: n, seen: f.seen.push(9), ..f }),
        !(v is Uint32) ==> with_field(f, 5, v) is Err && with_field(f, 9, v) is Err,
        !(v is Str) ==> with_field(f, 4, v) is Err && with_field(f, 7, v) is Err && with_field(
            f,
            2,
            v,
        ) is Err && with_field(f, 3, v) is Err && with_field(f, 6, v) is Err,
        !(v is Signature) ==> with_field(f, 8, v) is Err,
        !(v is ObjectPath) ==> with_field(f, 1, v) is Err,
{
}

/// A number is written in as many bytes as asked for, the lowest first, and
/// reads back from them as itself.
pub proof fn a_number_reads_back_from_its_bytes(n: nat, width: nat)
    requires
        n < capacity(width),
    ensures
        le(n, width).len() == width,
        le_value(le(n, width)) == n,
        width > 0 ==> le(n, width)[0] == n % 256,
{
    lemma_le_len(n, width);
    lemma_le_round_trip(n, width);
}

/// Padding goes to the next multiple of the alignment, and no further.
pub proof fn padding_goes_to_the_next_multiple(at: nat, align: nat)
    requires
        align > 0,
    ensures
        (at + padding(at, align)) % align == 0,
        padding(at, align) < align,
{
    lemma_padding(at, align);
}

/// A signed number is written as the unsigned one of its bits, and read back.
pub proof fn a_signed_number_is_read_back(n: int, values: int)
    requires
        values > 0,
        values % 2 == 0,
        -(values / 2) <= n < values / 2,
    ensures
        signed(unsigned(n, values), values) == n,
        unsigned(n, values) < values,
        n >= 0 ==> unsigned(n, values) == n,
{
}

/// Every type of one character is read of the character it is written by.
pub proof fn a_type_is_read_of_its_own_code(t: TypeView)
    ensures
        basic_type(t) || t is Variant ==> single_type(code_of(t)) == Some(t),
        single_type(code_of(t)) matches Some(u) ==> u == t,
        alignment_of(t) == 1 || alignment_of(t) == 2 || alignment_of(t) == 4 || alignment_of(t) == 8,
        t is Struct || t is DictEntry || t is Int64 || t is Uint64 || t is Double <==> alignment_of(
            t,
        ) == 8,
        t is Int16 || t is Uint16 <==> alignment_of(t) == 2,
        t is Byte || t is Signature || t is Variant <==> alignment_of(t) == 1,
        basic_type(t) <==> !(t is Array || t is Struct || t is DictEntry || t is Variant),
{
}

/// The credentials are the digits of the user id, each as the two hexadecimal
/// digits of its code: `3` and the digit itself.
pub proof fn the_credentials_are_the_digits_in_hexadecimal(uid: u32)
    ensures
        ({
            let digits = decimal_digits(uid as nat);
            let hex = hex_text(digits);
            &&& auth_request(uid) == utf8("\0AUTH EXTERNAL "@ + hex + "\r\n"@)
            &&& hex.len() == 2 * digits.len()
            &&& forall|i: int|
                0 <= i < digits.len() ==> hex[2 * i] == '3' && hex[2 * i + 1]
                    == #[trigger] digits[i]
        }),
{
    let digits = decimal_digits(uid as nat);
    let hex = hex_text(digits);
    crate::text::lemma_decimal_digits(uid as nat);
    assert forall|i: int| 0 <= i < digits.len() implies hex[2 * i] == '3' && hex[2 * i + 1]
        == #[trigger] digits[i] by {
        lemma_hex_of_digit(digits, i);
    }
}

proof fn lemma_hex_of_digit(text: Seq<char>, i: int)
    requires
        0 <= i < text.len(),
        '0' <= text[i] <= '9',
    ensures
        hex_text(text)[2 * i] == '3',
        hex_text(text)[2 * i + 1] == text[i],
{
    let code = text[i] as nat;
    let hex = hex_text(text);
    assert(48 <= code <= 57);
    assert((2 * i) / 2 == i && (2 * i) % 2 == 0);
    assert((2 * i + 1) / 2 == i && (2 * i + 1) % 2 == 1);
    assert(hex[2 * i] == hex_digit(code / 16));
    assert(hex[2 * i + 1] == hex_digit(code % 16));
    assert(code / 16 == 3);
    assert(code % 16 == code - 48);
    assert(hex_digit(3) == '3');
    assert(hex_digit((code - 48) as nat) as nat == code);
}

/// A message is taken once it is there whole, with as many descriptors as it
/// declares: what follows it is left, and the count begins again. Before that
/// nothing is taken; and one with more or fewer is refused.
pub proof fn a_message_is_taken_whole(s: SessionView)
    ensures
        ({
            let (rest, got) = buffered_message(s);
            &&& s.buf.len() < 16 ==> rest == s && (got matches Ok(None))
            &&& s.buf.len() >= 16 ==> match message_frame(s.buf) {
                Err(e) => rest == s && got == Err::<Option<MessageView>, WireErrorView>(e),
                Ok((body_at, body_len)) => {
                    let total = (body_at + body_len) as int;
                    &&& s.buf.len() < total ==> rest == s && (got matches Ok(None))
                    &&& s.buf.len() >= total ==> rest.buf == s.buf.skip(total)
                    &&& s.buf.len() >= total ==> match read_message(s.buf.take(total)) {
                        Ok(m) => {
                            &&& rest.fds_seen == 0
                            &&& s.fds_seen == m.unix_fds ==> got == Ok::<
                                Option<MessageView>,
                                WireErrorView,
                            >(Some(m))
                            &&& s.fds_seen != m.unix_fds ==> (got matches Err(
                                WireErrorView::BadMessage(_),
                            ))
                        },
                        Err(e) => got == Err::<Option<MessageView>, WireErrorView>(e),
                    }
                },
            }
            &&& rest == (SessionView { buf: rest.buf, fds_seen: rest.fds_seen, ..s })
        }),
{
}

/// An object path is the root, or names after a slash each, of letters, digits
/// and underscores.
pub proof fn an_object_path_is_names_after_slashes(path: Seq<char>, name: Seq<char>)
    requires
        name.len() > 0,
        forall|i: int|
            0 <= i < name.len() ==> ('A' <= #[trigger] name[i] <= 'Z' || 'a' <= name[i] <= 'z'
                || '0' <= name[i] <= '9' || name[i] == '_'),
    ensures
        object_path(seq!['/']),
        object_path(seq!['/'] + name),
        object_path(path) ==> path.len() > 0 && path[0] == '/' && (path.len() > 1 ==> path.last()
            != '/'),
        object_path(path) ==> forall|i: int|
            0 <= i < path.len() ==> (#[trigger] path[i] == '/' || 'A' <= path[i] <= 'Z' || 'a'
                <= path[i] <= 'z' || '0' <= path[i] <= '9' || path[i] == '_'),
        object_path(path) ==> forall|i: int|
            0 <= i < path.len() - 1 ==> !(#[trigger] path[i] == '/' && path[i + 1] == '/'),
        object_path(path) && path.len() > 1 ==> object_path(path.push('/') + name),
{
    let one = seq!['/'] + name;
    assert forall|i: int| 0 <= i < one.len() implies #[trigger] one[i] == '/' || word_char(
        one[i],
    ) by {
        if i > 0 {
            assert(one[i] == name[i - 1]);
        }
    }
    assert forall|i: int| 0 <= i && i + 1 < one.len() implies !(#[trigger] one[i] == '/' && one[i
        + 1] == '/') by {
        assert(one[i + 1] == name[i]);
    }
    assert(one.last() == name.last());
    if object_path(path) && path.len() > 1 {
        let n = path.len() as int;
        let two = path.push('/') + name;
        assert forall|i: int| 0 <= i < two.len() implies #[trigger] two[i] == '/' || word_char(
            two[i],
        ) by {
            if i < n {
                assert(two[i] == path[i]);
            } else if i > n {
                assert(two[i] == name[i - n - 1]);
            }
        }
        assert forall|i: int| 0 <= i && i + 1 < two.len() implies !(#[trigger] two[i] == '/'
            && two[i + 1] == '/') by {
            if i + 1 < n {
                assert(two[i] == path[i] && two[i + 1] == path[i + 1]);
            } else if i + 1 == n {
                assert(two[i] == path.last());
            } else {
                assert(two[i + 1] == name[i - n]);
            }
        }
        assert(two.last() == name.last());
    }
}

} // verus!
