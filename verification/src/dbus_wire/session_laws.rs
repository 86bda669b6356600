//! What holds of every session, however its bytes arrive.

use vstd::prelude::*;

use crate::dbus_wire::message::{marshal_message, read_message, MessageView, FIXED_HEADER};
use crate::dbus_wire::message_laws::{
    frame_reads_the_fixed_header_alone, lemma_message_has_a_header,
    read_message_gives_back_what_marshal_message_wrote,
};
use crate::dbus_wire::session::{buffered_message, SessionView};
use crate::dbus_wire::value::{ValueView, WireErrorView};

verus! {

/// A message that has arrived in part is waited for, and one that has arrived
/// whole is taken off the buffer and read as it was written, with whatever
/// came after it left for the next: it does not matter how the bytes were cut
/// when they were read.
pub proof fn a_message_is_read_however_it_arrives(
    s: SessionView,
    kind: u8,
    flags: u8,
    serial: u32,
    fields: Seq<(u8, ValueView)>,
    body: Seq<u8>,
    rest: Seq<u8>,
)
    requires
        marshal_message(kind, flags, serial, fields, body) is Ok,
    ensures
        ({
            let message = marshal_message(kind, flags, serial, fields, body)->Ok_0;
            let whole = SessionView { buf: message + rest, ..s };
            &&& forall|n: int|
                0 <= n < message.len() ==> {
                    let part = SessionView { buf: #[trigger] message.take(n), ..s };
                    buffered_message(part) == (
                        part,
                        Ok::<Option<MessageView>, WireErrorView>(None),
                    )
                }
            &&& buffered_message(whole).0.buf == rest
            &&& read_message(message) matches Ok(m) ==> s.fds_seen == m.unix_fds
                ==> buffered_message(whole) == (
                SessionView { buf: rest, fds_seen: 0, ..s },
                Ok::<Option<MessageView>, WireErrorView>(Some(m)),
            )
        }),
{
    let message = marshal_message(kind, flags, serial, fields, body)->Ok_0;
    read_message_gives_back_what_marshal_message_wrote(kind, flags, serial, fields, body);
    lemma_message_has_a_header(kind, flags, serial, fields, body);
    assert forall|n: int| 0 <= n < message.len() implies ({
        let part = SessionView { buf: #[trigger] message.take(n), ..s };
        buffered_message(part) == (part, Ok::<Option<MessageView>, WireErrorView>(None))
    }) by {
        if n >= FIXED_HEADER {
            frame_reads_the_fixed_header_alone(message.take(n), message.skip(n));
            assert(message.take(n) + message.skip(n) =~= message);
        }
    }
    frame_reads_the_fixed_header_alone(message, rest);
    let total = message.len() as int;
    assert((message + rest).take(total) =~= message);
    assert((message + rest).skip(total) =~= rest);
}

} // verus!
