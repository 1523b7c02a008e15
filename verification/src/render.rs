//! Deterministic rendering of the aggregate as the final textual report.

use vstd::prelude::*;
use crate::store::{Chat, ChatV, Meeting, MeetingLog, MeetingV, Message, MessageV};
use crate::textnum::{dec_i64, dec_int_of, dec_of, dec_u64};
use crate::timefmt::{clock_text, date_time_text, format_clock, format_date_time, millis_in_range};

verus! {

/// The separator line above a meeting block.
pub open spec fn hash_rule() -> Seq<char> {
    "################################################################################"@
}

/// The separator line above a chat block.
pub open spec fn underscore_rule() -> Seq<char> {
    "________________________________________________________________________________"@
}

/// The dots an author name is padded with.
pub open spec fn author_pad_source() -> Seq<char> {
    "..............."@
}

/// All the pieces, joined in order.
pub open spec fn concat_all(parts: Seq<Seq<char>>) -> Seq<char>
    decreases parts.len(),
{
    if parts.len() == 0 {
        Seq::<char>::empty()
    } else {
        concat_all(parts.drop_last()) + parts.last()
    }
}

/// A timestamp as `DD.MM.YYYY HH:MM`; one the calendar cannot hold is
/// shown as its raw millisecond count.
pub open spec fn date_of(ms: int) -> Seq<char> {
    if millis_in_range(ms) {
        date_time_text(ms)
    } else {
        dec_int_of(ms)
    }
}

/// A timestamp as `HH:MM`; one the calendar cannot hold is shown as its
/// raw millisecond count.
pub open spec fn clock_of(ms: int) -> Seq<char> {
    if millis_in_range(ms) {
        clock_text(ms)
    } else {
        dec_int_of(ms)
    }
}

/// An author name, right-aligned in a field of fifteen dots; a longer
/// name stands unpadded.
pub open spec fn pad_author(a: Seq<char>) -> Seq<char> {
    if a.len() >= 15 {
        a
    } else {
        author_pad_source().subrange(0, 15 - a.len() as int) + a
    }
}

/// One message line: the clock, the padded author, the text.
pub open spec fn message_line(m: MessageV) -> Seq<char> {
    "    "@ + clock_of(m.time) + ":"@ + pad_author(m.author) + ": "@ + m.text
}

/// One chat block: a rule, the chat id, one indented line per message.
pub open spec fn chat_text(c: ChatV) -> Seq<char> {
    "\n"@ + underscore_rule() + "\n"@ + c.id + "\n"@ + concat_all(
        c.msgs.map_values(|m: MessageV| "  "@ + message_line(m) + "\n"@),
    )
}

/// One meeting block: a rule, the start time and id, the chat blocks.
pub open spec fn meeting_text(mt: MeetingV) -> Seq<char> {
    "\n"@ + hash_rule() + "\n\n"@ + date_of(mt.time) + " - "@ + mt.id + "\n"@ + concat_all(
        mt.chats.map_values(|c: ChatV| chat_text(c)),
    )
}

/// The whole report: the meeting count, then every meeting block set off
/// by blank lines, in first-reference order.
pub open spec fn report_text(ms: Seq<MeetingV>) -> Seq<char> {
    dec_of(ms.len() as int) + "\n"@ + concat_all(
        ms.map_values(|mt: MeetingV| "\n\n"@ + meeting_text(mt) + "\n"@),
    )
}

/// Renders a timestamp as `HH:MM`, as `clock_of` describes.
fn clock_string(ms: i64) -> (r: String)
    ensures
        r@ == clock_of(ms as int),
{
    match format_clock(ms) {
        Some(t) => t,
        None => dec_i64(ms),
    }
}

/// Renders a timestamp as `DD.MM.YYYY HH:MM`, as `date_of` describes.
fn date_string(ms: i64) -> (r: String)
    ensures
        r@ == date_of(ms as int),
{
    match format_date_time(ms) {
        Some(t) => t,
        None => dec_i64(ms),
    }
}

/// Pads an author name, as `pad_author` describes.
fn pad_author_string(author: &String) -> (r: String)
    ensures
        r@ == pad_author(author@),
{
    let len: usize = author.as_str().unicode_len();
    if len >= 15 {
        author.clone()
    } else {
        let dots: &str = "...............";
        proof {
            reveal_strlit("...............");
        }
        let mut s = String::from_str(dots.substring_char(0, 15 - len));
        s.append(author.as_str());
        proof {
            assert(s@ =~= pad_author(author@));
        }
        s
    }
}

/// Renders one message line, as `message_line` describes.
pub fn render_message(m: &Message) -> (r: String)
    ensures
        r@ == message_line(m@),
{
    let mut s = String::from_str("    ");
    let clock = clock_string(m.time);
    s.append(clock.as_str());
    s.append(":");
    let padded = pad_author_string(&m.author);
    s.append(padded.as_str());
    s.append(": ");
    s.append(m.message.as_str());
    proof {
        assert(s@ =~= message_line(m@));
    }
    s
}

/// Renders one chat block, as `chat_text` describes.
#[verifier::loop_isolation(false)]
pub fn render_chat(c: &Chat) -> (r: String)
    ensures
        r@ == chat_text(c@),
{
    let ghost parts = c@.msgs.map_values(|m: MessageV| "  "@ + message_line(m) + "\n"@);
    let mut s = String::from_str("\n");
    s.append("________________________________________________________________________________");
    s.append("\n");
    s.append(c.chat_id.as_str());
    s.append("\n");
    let ghost head = s@;
    proof {
        assert(parts.take(0) =~= Seq::<Seq<char>>::empty());
    }
    let n: usize = c.messages.len();
    let mut i: usize = 0;
    while i < n
        invariant
            i <= n,
            s@ == head + concat_all(parts.take(i as int)),
        decreases n - i,
    {
        s.append("  ");
        let line = render_message(&c.messages[i]);
        s.append(line.as_str());
        s.append("\n");
        proof {
            assert(parts.take(i as int + 1).drop_last() =~= parts.take(i as int));
            assert(parts.take(i as int + 1).last() == parts[i as int]);
            assert(s@ =~= head + concat_all(parts.take(i as int + 1)));
        }
        i += 1;
    }
    proof {
        assert(parts.take(n as int) =~= parts);
        assert(s@ =~= chat_text(c@));
    }
    s
}

/// Renders one meeting block, as `meeting_text` describes.
#[verifier::loop_isolation(false)]
pub fn render_meeting(mt: &Meeting) -> (r: String)
    ensures
        r@ == meeting_text(mt@),
{
    let ghost parts = mt@.chats.map_values(|c: ChatV| chat_text(c));
    let mut s = String::from_str("\n");
    s.append("################################################################################");
    s.append("\n\n");
    let date = date_string(mt.time);
    s.append(date.as_str());
    s.append(" - ");
    s.append(mt.meeting_id.as_str());
    s.append("\n");
    let ghost head = s@;
    proof {
        assert(parts.take(0) =~= Seq::<Seq<char>>::empty());
    }
    let n: usize = mt.chats.len();
    let mut i: usize = 0;
    while i < n
        invariant
            i <= n,
            s@ == head + concat_all(parts.take(i as int)),
        decreases n - i,
    {
        let block = render_chat(&mt.chats[i]);
        s.append(block.as_str());
        proof {
            assert(parts.take(i as int + 1).drop_last() =~= parts.take(i as int));
            assert(parts.take(i as int + 1).last() == parts[i as int]);
            assert(s@ =~= head + concat_all(parts.take(i as int + 1)));
        }
        i += 1;
    }
    proof {
        assert(parts.take(n as int) =~= parts);
        assert(s@ =~= meeting_text(mt@));
    }
    s
}

/// Renders the whole report, as `report_text` describes.
#[verifier::loop_isolation(false)]
pub fn render_report(log: &MeetingLog) -> (r: String)
    ensures
        r@ == report_text(log@),
{
    let ms: &Vec<Meeting> = log.meetings();
    let ghost parts = log@.map_values(|mt: MeetingV| "\n\n"@ + meeting_text(mt) + "\n"@);
    let n: usize = ms.len();
    let mut s = dec_u64(n as u64);
    s.append("\n");
    let ghost head = s@;
    proof {
        assert(parts.take(0) =~= Seq::<Seq<char>>::empty());
    }
    let mut i: usize = 0;
    while i < n
        invariant
            i <= n,
            s@ == head + concat_all(parts.take(i as int)),
        decreases n - i,
    {
        s.append("\n\n");
        let block = render_meeting(&ms[i]);
        s.append(block.as_str());
        s.append("\n");
        proof {
            assert(parts.take(i as int + 1).drop_last() =~= parts.take(i as int));
            assert(parts.take(i as int + 1).last() == parts[i as int]);
            assert(s@ =~= head + concat_all(parts.take(i as int + 1)));
        }
        i += 1;
    }
    proof {
        assert(parts.take(n as int) =~= parts);
        assert(s@ =~= report_text(log@));
    }
    s
}

} // verus!
