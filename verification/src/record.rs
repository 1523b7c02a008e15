//! Mapping a decoded payload onto the flat record of one chat event.

use vstd::prelude::*;
use crate::value::{Value, field_opt, coerce_text, opt_val, lookup_in, coerce_string};

verus! {

/// The mathematical model of a record: one chat event, fully located.
pub struct RecordV {
    pub time: int,
    pub meeting: Seq<char>,
    pub chat: Seq<char>,
    pub sender: Seq<char>,
    pub text: Seq<char>,
}

/// One chat event extracted from a payload: a millisecond timestamp, the
/// meeting and chat that locate it, the sender's display name and the
/// message text.
pub struct Record {
    pub time: i64,
    pub meeting_id: String,
    pub chat_id: String,
    pub sender: String,
    pub message: String,
}

impl View for Record {
    type V = RecordV;

    open spec fn view(&self) -> RecordV {
        RecordV {
            time: self.time as int,
            meeting: self.meeting_id@,
            chat: self.chat_id@,
            sender: self.sender@,
            text: self.message@,
        }
    }
}

/// The timestamp of a payload: the integer under `envelope.timestamp`, or
/// `None` when that path is missing or not an integral number.
pub open spec fn ts_of(v: Value) -> Option<i64> {
    match field_opt(field_opt(Some(v), "envelope"@), "timestamp"@) {
        Some(Value::Num { int_val, text }) => int_val,
        _ => None,
    }
}

/// The record a payload maps to.  The timestamp is required; every other
/// field falls back to the empty string by permissive coercion.
pub open spec fn record_of(v: Value) -> Option<RecordV> {
    match ts_of(v) {
        Some(t) => Some(
            RecordV {
                time: t as int,
                meeting: coerce_text(
                    field_opt(
                        field_opt(field_opt(Some(v), "envelope"@), "routing"@),
                        "meetingId"@,
                    ),
                ),
                chat: coerce_text(
                    field_opt(field_opt(field_opt(Some(v), "core"@), "body"@), "chatId"@),
                ),
                sender: coerce_text(
                    field_opt(
                        field_opt(
                            field_opt(
                                field_opt(field_opt(Some(v), "core"@), "body"@),
                                "msg"@,
                            ),
                            "sender"@,
                        ),
                        "name"@,
                    ),
                ),
                text: coerce_text(
                    field_opt(
                        field_opt(field_opt(field_opt(Some(v), "core"@), "body"@), "msg"@),
                        "message"@,
                    ),
                ),
            },
        ),
        None => None,
    }
}

/// Extracts the record of a payload, exactly as `record_of` describes:
/// `None` iff the payload has no integral `envelope.timestamp`.
pub fn extract_record(v: &Value) -> (r: Option<Record>)
    ensures
        (r is Some) == (record_of(*v) is Some),
        r matches Some(rec) ==> record_of(*v) == Some(rec@),
{
    let k_envelope = String::from_str("envelope");
    let k_timestamp = String::from_str("timestamp");
    let k_routing = String::from_str("routing");
    let k_meeting_id = String::from_str("meetingId");
    let k_core = String::from_str("core");
    let k_body = String::from_str("body");
    let k_chat_id = String::from_str("chatId");
    let k_msg = String::from_str("msg");
    let k_sender = String::from_str("sender");
    let k_name = String::from_str("name");
    let k_message = String::from_str("message");

    let ts_field = lookup_in(lookup_in(Some(v), &k_envelope), &k_timestamp);
    let t_opt: Option<i64> = match ts_field {
        Some(tv) => match tv {
            Value::Num { int_val, text: _ } => *int_val,
            _ => None,
        },
        None => None,
    };
    let t: i64 = match t_opt {
        Some(t) => t,
        None => {
            return None;
        },
    };

    let envelope = lookup_in(Some(v), &k_envelope);
    let core = lookup_in(Some(v), &k_core);
    let body = lookup_in(core, &k_body);
    let msg = lookup_in(body, &k_msg);
    let meeting_id = coerce_string(lookup_in(lookup_in(envelope, &k_routing), &k_meeting_id));
    let chat_id = coerce_string(lookup_in(body, &k_chat_id));
    let sender = coerce_string(lookup_in(lookup_in(msg, &k_sender), &k_name));
    let message = coerce_string(lookup_in(msg, &k_message));

    Some(Record { time: t, meeting_id, chat_id, sender, message })
}

/// An event whose payload lacks `core.body.msg.sender.name` still maps
/// to a record, and its author is the empty string rather than an error.
pub proof fn lemma_missing_sender_coerces_empty(v: Value)
    requires
        record_of(v) is Some,
        field_opt(
            field_opt(
                field_opt(field_opt(field_opt(Some(v), "core"@), "body"@), "msg"@),
                "sender"@,
            ),
            "name"@,
        ) is None,
    ensures
        record_of(v)->Some_0.sender == Seq::<char>::empty(),
{
}

} // verus!
