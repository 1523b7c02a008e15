//! The in-memory aggregate of meetings, chats and messages, and its
//! insertion operation with adjacent-duplicate collapse.

use vstd::prelude::*;
use crate::record::{Record, RecordV};

verus! {

/// The mathematical model of a message.
#[verifier::ext_equal]
pub struct MessageV {
    pub author: Seq<char>,
    pub text: Seq<char>,
    pub time: int,
}

/// The mathematical model of a chat: its id and its messages in arrival
/// order, adjacent duplicates collapsed.
#[verifier::ext_equal]
pub struct ChatV {
    pub id: Seq<char>,
    pub msgs: Seq<MessageV>,
}

/// The mathematical model of a meeting: its id, the timestamp of the event
/// that created it, and its chats in creation order.
#[verifier::ext_equal]
pub struct MeetingV {
    pub id: Seq<char>,
    pub time: int,
    pub chats: Seq<ChatV>,
}

/// One chat message: author display name, text, and its timestamp in
/// milliseconds since the Unix epoch.
pub struct Message {
    pub author: String,
    pub message: String,
    pub time: i64,
}

impl View for Message {
    type V = MessageV;

    open spec fn view(&self) -> MessageV {
        MessageV { author: self.author@, text: self.message@, time: self.time as int }
    }
}

/// A chat room within a meeting: mostly the collection of its messages.
pub struct Chat {
    pub chat_id: String,
    pub messages: Vec<Message>,
}

impl View for Chat {
    type V = ChatV;

    open spec fn view(&self) -> ChatV {
        ChatV { id: self.chat_id@, msgs: self.messages@.map_values(|m: Message| m@) }
    }
}

/// A meeting: its id, the time of the first event seen for it, and its
/// chats.
pub struct Meeting {
    pub meeting_id: String,
    pub time: i64,
    pub chats: Vec<Chat>,
}

impl View for Meeting {
    type V = MeetingV;

    open spec fn view(&self) -> MeetingV {
        MeetingV {
            id: self.meeting_id@,
            time: self.time as int,
            chats: self.chats@.map_values(|c: Chat| c@),
        }
    }
}

/// Two messages are equal structurally: by author, text and time.
impl PartialEq for Message {
    fn eq(&self, other: &Message) -> (r: bool) {
        self.author == other.author && self.message == other.message && self.time == other.time
    }
}

impl vstd::std_specs::cmp::PartialEqSpecImpl for Message {
    open spec fn obeys_eq_spec() -> bool {
        true
    }

    open spec fn eq_spec(&self, other: &Message) -> bool {
        self.author@ == other.author@ && self.message@ == other.message@ && self.time
            == other.time
    }
}

/// Two meetings are equal exactly when their ids are equal: identity
/// never considers the time or the chats.
impl PartialEq for Meeting {
    fn eq(&self, other: &Meeting) -> (r: bool) {
        self.meeting_id == other.meeting_id
    }
}

impl vstd::std_specs::cmp::PartialEqSpecImpl for Meeting {
    open spec fn obeys_eq_spec() -> bool {
        true
    }

    open spec fn eq_spec(&self, other: &Meeting) -> bool {
        self.meeting_id@ == other.meeting_id@
    }
}

/// The index of the first element of `s` satisfying `p`, or `None`.
pub open spec fn find_first<T>(s: Seq<T>, p: spec_fn(T) -> bool) -> Option<int>
    decreases s.len(),
{
    if s.len() == 0 {
        None
    } else if p(s[0]) {
        Some(0int)
    } else {
        match find_first(s.drop_first(), p) {
            Some(i) => Some(i + 1),
            None => None,
        }
    }
}

/// The position of the chat with id `id`, if one exists.
pub open spec fn chat_find(chats: Seq<ChatV>, id: Seq<char>) -> Option<int> {
    find_first(chats, |c: ChatV| c.id == id)
}

/// The position of the meeting with id `id`, if one exists.
pub open spec fn meeting_find(ms: Seq<MeetingV>, id: Seq<char>) -> Option<int> {
    find_first(ms, |m: MeetingV| m.id == id)
}

/// The message a record contributes.
pub open spec fn msg_of(r: RecordV) -> MessageV {
    MessageV { author: r.sender, text: r.text, time: r.time }
}

/// Appending under adjacent-duplicate collapse: a message whose text equals
/// the text of the last message present is dropped; any other is pushed.
pub open spec fn push_dedup(s: Seq<MessageV>, m: MessageV) -> Seq<MessageV> {
    if s.len() > 0 && s.last().text == m.text {
        s
    } else {
        s.push(m)
    }
}

/// A record's message appended to a chat, adjacent duplicates collapsed.
pub open spec fn chat_insert(c: ChatV, m: MessageV) -> ChatV {
    ChatV { id: c.id, msgs: push_dedup(c.msgs, m) }
}

/// A message placed into the chat `cid` of a meeting, the chat being
/// created empty first when absent.
pub open spec fn meeting_insert(mt: MeetingV, cid: Seq<char>, m: MessageV) -> MeetingV {
    match chat_find(mt.chats, cid) {
        Some(i) => MeetingV {
            id: mt.id,
            time: mt.time,
            chats: mt.chats.update(i, chat_insert(mt.chats[i], m)),
        },
        None => MeetingV {
            id: mt.id,
            time: mt.time,
            chats: mt.chats.push(ChatV { id: cid, msgs: seq![m] }),
        },
    }
}

/// A record placed into the aggregate: into its meeting when that exists,
/// else into a fresh meeting stamped with the record's time.
pub open spec fn log_insert(ms: Seq<MeetingV>, r: RecordV) -> Seq<MeetingV> {
    match meeting_find(ms, r.meeting) {
        Some(i) => ms.update(i, meeting_insert(ms[i], r.chat, msg_of(r))),
        None => ms.push(
            MeetingV {
                id: r.meeting,
                time: r.time,
                chats: seq![ChatV { id: r.chat, msgs: seq![msg_of(r)] }],
            },
        ),
    }
}

/// What `find_first` returns points at a match.
pub proof fn lemma_find_found<T>(s: Seq<T>, p: spec_fn(T) -> bool)
    ensures
        find_first(s, p) matches Some(i) ==> 0 <= i < s.len() && p(s[i]),
    decreases s.len(),
{
    if s.len() > 0 && !p(s[0]) {
        lemma_find_found(s.drop_first(), p);
    }
}

/// Pushing an element moves `find_first` only when nothing matched
/// before and the new element matches; an earlier match stands.
pub proof fn lemma_find_push<T>(s: Seq<T>, p: spec_fn(T) -> bool, x: T)
    ensures
        find_first(s.push(x), p) == match find_first(s, p) {
            Some(i) => Some(i),
            None => if p(x) {
                Some(s.len() as int)
            } else {
                None::<int>
            },
        },
    decreases s.len(),
{
    if s.len() == 0 {
        assert(s.push(x)[0] == x);
        if !p(x) {
            assert(s.push(x).drop_first() =~= Seq::<T>::empty());
        }
    } else {
        assert(s.push(x)[0] == s[0]);
        if !p(s[0]) {
            assert(s.push(x).drop_first() =~= s.drop_first().push(x));
            lemma_find_push(s.drop_first(), p, x);
        }
    }
}

/// Replacing an element without changing how the predicate judges it
/// leaves `find_first` where it was.
pub proof fn lemma_find_update<T>(s: Seq<T>, p: spec_fn(T) -> bool, i: int, x: T)
    requires
        0 <= i < s.len(),
        p(x) == p(s[i]),
    ensures
        find_first(s.update(i, x), p) == find_first(s, p),
    decreases s.len(),
{
    let t = s.update(i, x);
    if i == 0 {
        assert(t[0] == x);
        if !p(s[0]) {
            assert(t.drop_first() =~= s.drop_first());
        }
    } else {
        assert(t[0] == s[0]);
        if !p(s[0]) {
            assert(t.drop_first() =~= s.drop_first().update(i - 1, x));
            lemma_find_update(s.drop_first(), p, i - 1, x);
        }
    }
}

/// `find_first` finds nothing when nothing satisfies the predicate.
pub proof fn lemma_find_none<T>(s: Seq<T>, p: spec_fn(T) -> bool)
    requires
        forall|j: int| 0 <= j < s.len() ==> !p(s[j]),
    ensures
        find_first(s, p) is None,
    decreases s.len(),
{
    if s.len() > 0 {
        assert(s.drop_first() =~= s.skip(1));
        lemma_find_none(s.drop_first(), p);
    }
}

pub(crate) proof fn lemma_find_skip<T>(s: Seq<T>, p: spec_fn(T) -> bool, i: int)
    requires
        0 <= i < s.len(),
        !p(s[i]),
    ensures
        find_first(s.skip(i), p) == match find_first(s.skip(i + 1), p) {
            Some(j) => Some(j + 1),
            None => None::<int>,
        },
{
    assert(s.skip(i)[0] == s[i]);
    assert(s.skip(i).drop_first() =~= s.skip(i + 1));
}

impl Chat {
    /// Appends a message under adjacent-duplicate collapse.
    pub fn append(&mut self, m: Message)
        ensures
            final(self)@ == chat_insert(old(self)@, m@),
    {
        let n: usize = self.messages.len();
        if n > 0 {
            if self.messages[n - 1].message == m.message {
                proof {
                    assert(old(self)@.msgs.last() == old(self).messages@[n - 1]@);
                    assert(chat_insert(old(self)@, m@) == old(self)@);
                }
                return;
            }
        }
        self.messages.push(m);
        proof {
            assert(self@.msgs =~= old(self)@.msgs.push(m@));
        }
    }
}

impl Meeting {
    /// The position of the chat with the given id.
    #[verifier::loop_isolation(false)]
    fn find_chat(&self, id: &String) -> (r: Option<usize>)
        ensures
            match r {
                Some(i) => i < self.chats@.len() && chat_find(self@.chats, id@) == Some(
                    i as int,
                ),
                None => chat_find(self@.chats, id@) is None,
            },
    {
        let ghost cs = self@.chats;
        let n: usize = self.chats.len();
        let mut i: usize = 0;
        proof {
            assert(cs.skip(0) =~= cs);
        }
        while i < n
            invariant
                0 <= i <= n,
                chat_find(cs, id@) == match find_first(
                    cs.skip(i as int),
                    |c: ChatV| c.id == id@,
                ) {
                    Some(j) => Some(j + i),
                    None => None::<int>,
                },
            decreases n - i,
        {
            if self.chats[i].chat_id == *id {
                proof {
                    assert(cs.skip(i as int)[0] == cs[i as int]);
                    assert(cs[i as int].id == id@);
                }
                return Some(i);
            }
            proof {
                assert(cs.skip(i as int)[0] == cs[i as int]);
                lemma_find_skip(cs, |c: ChatV| c.id == id@, i as int);
            }
            i += 1;
        }
        proof {
            assert(cs.skip(n as int) =~= Seq::<ChatV>::empty());
        }
        None
    }

    /// Places a message into the chat `chat_id`, creating the chat when it
    /// is first referenced.
    pub fn append(&mut self, chat_id: String, m: Message)
        ensures
            final(self)@ == meeting_insert(old(self)@, chat_id@, m@),
    {
        let ghost cid = chat_id@;
        let ghost mv = m@;
        match self.find_chat(&chat_id) {
            Some(i) => {
                let mut c = self.chats.remove(i);
                c.append(m);
                self.chats.insert(i, c);
                proof {
                    assert(self@.chats =~= old(self)@.chats.update(
                        i as int,
                        chat_insert(old(self)@.chats[i as int], mv),
                    ));
                }
            },
            None => {
                let mut messages: Vec<Message> = Vec::new();
                messages.push(m);
                self.chats.push(Chat { chat_id, messages });
                proof {
                    assert(self@.chats =~~= old(self)@.chats.push(
                        ChatV { id: cid, msgs: seq![mv] },
                    ));
                }
            },
        }
    }
}

/// The whole aggregate: every meeting seen so far, in first-reference
/// order, which keeps traversal deterministic without any sorting.
pub struct MeetingLog {
    meetings: Vec<Meeting>,
}

impl View for MeetingLog {
    type V = Seq<MeetingV>;

    closed spec fn view(&self) -> Seq<MeetingV> {
        self.meetings@.map_values(|m: Meeting| m@)
    }
}

impl MeetingLog {
    /// An empty aggregate.
    pub fn new() -> (r: MeetingLog)
        ensures
            r@ == Seq::<MeetingV>::empty(),
    {
        let r = MeetingLog { meetings: Vec::new() };
        proof {
            assert(r@ =~= Seq::<MeetingV>::empty());
        }
        r
    }

    /// The meetings, for rendering.
    pub fn meetings(&self) -> (r: &Vec<Meeting>)
        ensures
            r@.map_values(|m: Meeting| m@) == self@,
    {
        &self.meetings
    }

    /// The position of the meeting with the given id.
    #[verifier::loop_isolation(false)]
    fn find_meeting(&self, id: &String) -> (r: Option<usize>)
        ensures
            match r {
                Some(i) => i < self.meetings@.len() && meeting_find(self@, id@) == Some(
                    i as int,
                ),
                None => meeting_find(self@, id@) is None,
            },
    {
        let ghost ms = self@;
        let n: usize = self.meetings.len();
        let mut i: usize = 0;
        proof {
            assert(ms.skip(0) =~= ms);
        }
        while i < n
            invariant
                0 <= i <= n,
                meeting_find(ms, id@) == match find_first(
                    ms.skip(i as int),
                    |m: MeetingV| m.id == id@,
                ) {
                    Some(j) => Some(j + i),
                    None => None::<int>,
                },
            decreases n - i,
        {
            if self.meetings[i].meeting_id == *id {
                proof {
                    assert(ms.skip(i as int)[0] == ms[i as int]);
                    assert(ms[i as int].id == id@);
                }
                return Some(i);
            }
            proof {
                assert(ms.skip(i as int)[0] == ms[i as int]);
                lemma_find_skip(ms, |m: MeetingV| m.id == id@, i as int);
            }
            i += 1;
        }
        proof {
            assert(ms.skip(n as int) =~= Seq::<MeetingV>::empty());
        }
        None
    }

    /// Places a record into the aggregate, exactly as `log_insert`
    /// describes; the result reports whether a new meeting was created.
    pub fn insert(&mut self, rec: Record) -> (created: bool)
        ensures
            final(self)@ == log_insert(old(self)@, rec@),
            created == (meeting_find(old(self)@, rec@.meeting) is None),
    {
        let Record { time, meeting_id, chat_id, sender, message } = rec;
        let m = Message { author: sender, message, time };
        let ghost mv = m@;
        let ghost cid = chat_id@;
        let ghost mid = meeting_id@;
        match self.find_meeting(&meeting_id) {
            Some(i) => {
                let mut mt = self.meetings.remove(i);
                mt.append(chat_id, m);
                self.meetings.insert(i, mt);
                proof {
                    assert(self@ =~= old(self)@.update(
                        i as int,
                        meeting_insert(old(self)@[i as int], cid, mv),
                    ));
                }
                false
            },
            None => {
                let mut messages: Vec<Message> = Vec::new();
                messages.push(m);
                let mut chats: Vec<Chat> = Vec::new();
                chats.push(Chat { chat_id, messages });
                self.meetings.push(Meeting { meeting_id, time, chats });
                proof {
                    assert(self@ =~~= old(self)@.push(
                        MeetingV {
                            id: mid,
                            time: time as int,
                            chats: seq![ChatV { id: cid, msgs: seq![mv] }],
                        },
                    ));
                }
                true
            },
        }
    }
}

/// What `find_first` misses satisfies the predicate nowhere.
pub proof fn lemma_find_none_converse<T>(s: Seq<T>, p: spec_fn(T) -> bool)
    requires
        find_first(s, p) is None,
    ensures
        forall|j: int| 0 <= j < s.len() ==> !p(s[j]),
    decreases s.len(),
{
    if s.len() > 0 {
        lemma_find_none_converse(s.drop_first(), p);
        assert forall|j: int| 0 <= j < s.len() implies !p(s[j]) by {
            if j > 0 {
                assert(s.drop_first()[j - 1] == s[j]);
            }
        }
    }
}

/// A message sequence in collapsed shape: no two adjacent messages with
/// equal text.
pub open spec fn collapsed(msgs: Seq<MessageV>) -> bool {
    forall|k: int| 1 <= k < msgs.len() ==> #[trigger] msgs[k].text != msgs[k - 1].text
}

/// A meeting in good shape: chat ids unique within it, every chat
/// collapsed.
pub open spec fn wf_meeting(mt: MeetingV) -> bool {
    (forall|a: int, b: int|
        0 <= a < b < mt.chats.len() ==> mt.chats[a].id != mt.chats[b].id) && (forall|j: int|
        0 <= j < mt.chats.len() ==> collapsed(mt.chats[j].msgs))
}

/// An aggregate in good shape: meeting ids unique, every meeting in good
/// shape.
pub open spec fn wf_log(st: Seq<MeetingV>) -> bool {
    (forall|a: int, b: int| 0 <= a < b < st.len() ==> st[a].id != st[b].id) && (forall|i: int|
        0 <= i < st.len() ==> wf_meeting(st[i]))
}

/// Appending under collapse keeps the collapsed shape.
pub proof fn lemma_push_dedup_collapsed(s: Seq<MessageV>, m: MessageV)
    requires
        collapsed(s),
    ensures
        collapsed(push_dedup(s, m)),
{
    if !(s.len() > 0 && s.last().text == m.text) {
        let t = s.push(m);
        assert forall|k: int| 1 <= k < t.len() implies #[trigger] t[k].text != t[k - 1].text by {
            if k == s.len() {
                assert(t[k] == m);
            }
        }
    }
}

/// Inserting keeps the aggregate in good shape: ids stay unique and
/// chats stay collapsed, so the store never holds two meetings or two
/// chats under one key, nor an uncollapsed run.
pub proof fn lemma_insert_preserves_wf(st: Seq<MeetingV>, r: RecordV)
    requires
        wf_log(st),
    ensures
        wf_log(log_insert(st, r)),
{
    let m = msg_of(r);
    let st1 = log_insert(st, r);
    match meeting_find(st, r.meeting) {
        None => {
            lemma_find_none_converse(st, |mt: MeetingV| mt.id == r.meeting);
            let c = ChatV { id: r.chat, msgs: seq![m] };
            let fresh = MeetingV { id: r.meeting, time: r.time, chats: seq![c] };
            assert(wf_meeting(fresh));
            assert forall|a: int, b: int|
                0 <= a < b < st1.len() implies st1[a].id != st1[b].id by {
                if b == st.len() {
                    assert(st1[a] == st[a]);
                    assert(st[a].id != r.meeting);
                }
            }
            assert(wf_log(st1));
        },
        Some(i) => {
            lemma_find_found(st, |mt: MeetingV| mt.id == r.meeting);
            let mt0 = st[i];
            let mt1 = meeting_insert(mt0, r.chat, m);
            match chat_find(mt0.chats, r.chat) {
                None => {
                    lemma_find_none_converse(mt0.chats, |c: ChatV| c.id == r.chat);
                    let cnew = ChatV { id: r.chat, msgs: seq![m] };
                    assert forall|a: int, b: int|
                        0 <= a < b < mt1.chats.len() implies mt1.chats[a].id
                        != mt1.chats[b].id by {
                        if b == mt0.chats.len() {
                            assert(mt1.chats[a] == mt0.chats[a]);
                            assert(mt0.chats[a].id != r.chat);
                        }
                    }
                    assert forall|j: int|
                        0 <= j < mt1.chats.len() implies collapsed(mt1.chats[j].msgs) by {
                        if j == mt0.chats.len() {
                            assert(mt1.chats[j] == cnew);
                        } else {
                            assert(mt1.chats[j] == mt0.chats[j]);
                        }
                    }
                    assert(wf_meeting(mt1));
                },
                Some(j) => {
                    lemma_find_found(mt0.chats, |c: ChatV| c.id == r.chat);
                    let c0 = mt0.chats[j];
                    lemma_push_dedup_collapsed(c0.msgs, m);
                    assert forall|k: int|
                        0 <= k < mt1.chats.len() implies collapsed(mt1.chats[k].msgs) by {
                        if k != j {
                            assert(mt1.chats[k] == mt0.chats[k]);
                        }
                    }
                    assert(wf_meeting(mt1));
                },
            }
            assert forall|a: int, b: int|
                0 <= a < b < st1.len() implies st1[a].id != st1[b].id by {
                assert(st1[a].id == st[a].id);
                assert(st1[b].id == st[b].id);
            }
            assert forall|k: int| 0 <= k < st1.len() implies wf_meeting(st1[k]) by {
                if k != i {
                    assert(st1[k] == st[k]);
                }
            }
            assert(wf_log(st1));
        },
    }
}

/// The empty aggregate is in good shape; with `lemma_insert_preserves_wf`
/// every aggregate a run can reach is.
pub proof fn lemma_empty_wf()
    ensures
        wf_log(Seq::<MeetingV>::empty()),
{
}

/// After an append under collapse the last message carries the appended
/// text, and the chat is never empty.
pub proof fn lemma_push_dedup_last(s: Seq<MessageV>, m: MessageV)
    ensures
        push_dedup(s, m).len() > 0,
        push_dedup(s, m).last().text == m.text,
{
    if !(s.len() > 0 && s.last().text == m.text) {
        assert(s.push(m).last() == m);
    }
}

/// Feeding the same record twice in immediate succession leaves the
/// aggregate as one feeding leaves it: the adjacent-duplicate collapse
/// absorbs the repetition entirely.
pub proof fn lemma_insert_twice(st: Seq<MeetingV>, r: RecordV)
    ensures
        log_insert(log_insert(st, r), r) == log_insert(st, r),
{
    let m = msg_of(r);
    let st1 = log_insert(st, r);
    match meeting_find(st, r.meeting) {
        None => {
            let c = ChatV { id: r.chat, msgs: seq![m] };
            let fresh = MeetingV { id: r.meeting, time: r.time, chats: seq![c] };
            lemma_find_push(st, |mt: MeetingV| mt.id == r.meeting, fresh);
            assert(meeting_find(st1, r.meeting) == Some(st.len() as int));
            assert(st1[st.len() as int] == fresh);
            assert(chat_find(fresh.chats, r.chat) == Some(0int));
            lemma_push_dedup_last(Seq::<MessageV>::empty(), m);
            assert(push_dedup(c.msgs, m) == c.msgs);
            assert(chat_insert(c, m) =~~= c);
            assert(meeting_insert(fresh, r.chat, m) =~~= fresh);
            assert(log_insert(st1, r) =~= st1);
        },
        Some(i) => {
            lemma_find_found(st, |mt: MeetingV| mt.id == r.meeting);
            let mt0 = st[i];
            let mt1 = meeting_insert(mt0, r.chat, m);
            assert(mt1.id == mt0.id);
            lemma_find_update(st, |mt: MeetingV| mt.id == r.meeting, i, mt1);
            assert(meeting_find(st1, r.meeting) == Some(i));
            assert(st1[i] == mt1);
            match chat_find(mt0.chats, r.chat) {
                None => {
                    let cnew = ChatV { id: r.chat, msgs: seq![m] };
                    lemma_find_push(mt0.chats, |c: ChatV| c.id == r.chat, cnew);
                    assert(chat_find(mt1.chats, r.chat) == Some(mt0.chats.len() as int));
                    assert(mt1.chats[mt0.chats.len() as int] == cnew);
                    lemma_push_dedup_last(Seq::<MessageV>::empty(), m);
                    assert(chat_insert(cnew, m) =~~= cnew);
                    assert(meeting_insert(mt1, r.chat, m).chats =~= mt1.chats);
                    assert(meeting_insert(mt1, r.chat, m) =~~= mt1);
                },
                Some(j) => {
                    lemma_find_found(mt0.chats, |c: ChatV| c.id == r.chat);
                    let c0 = mt0.chats[j];
                    let c1 = chat_insert(c0, m);
                    lemma_find_update(mt0.chats, |c: ChatV| c.id == r.chat, j, c1);
                    assert(chat_find(mt1.chats, r.chat) == Some(j));
                    assert(mt1.chats[j] == c1);
                    lemma_push_dedup_last(c0.msgs, m);
                    assert(push_dedup(c1.msgs, m) == c1.msgs);
                    assert(chat_insert(c1, m) =~~= c1);
                    assert(mt1.chats.update(j, chat_insert(c1, m)) =~= mt1.chats);
                    assert(meeting_insert(mt1, r.chat, m) =~~= mt1);
                },
            }
            assert(st1.update(i, meeting_insert(mt1, r.chat, m)) =~= st1);
            assert(log_insert(st1, r) =~= st1);
        },
    }
}

/// The same record fed again after an unrelated message in between is
/// kept: only immediately adjacent duplicates collapse.
pub proof fn lemma_separated_duplicate_kept(s: Seq<MessageV>, m: MessageV, u: MessageV)
    requires
        u.text != m.text,
    ensures
        push_dedup(push_dedup(push_dedup(s, m), u), m).len() == push_dedup(s, m).len() + 2,
{
    let s1 = push_dedup(s, m);
    lemma_push_dedup_last(s, m);
    assert(push_dedup(s1, u) == s1.push(u));
    assert(s1.push(u).last() == u);
    assert(push_dedup(s1.push(u), m) == s1.push(u).push(m));
}

/// The messages standing under a given meeting id and chat id.
pub open spec fn msgs_at(st: Seq<MeetingV>, sid: Seq<char>, cid: Seq<char>) -> Seq<MessageV> {
    match meeting_find(st, sid) {
        Some(i) => match chat_find(st[i].chats, cid) {
            Some(j) => st[i].chats[j].msgs,
            None => Seq::<MessageV>::empty(),
        },
        None => Seq::<MessageV>::empty(),
    }
}

/// A record lands exactly where its ids say: inserting it appends its
/// message (under collapse) to the messages seen under its own meeting
/// and chat, and leaves the messages under every other pair untouched.
pub proof fn lemma_partition(st: Seq<MeetingV>, r: RecordV, sid: Seq<char>, cid: Seq<char>)
    ensures
        sid == r.meeting && cid == r.chat ==> msgs_at(log_insert(st, r), sid, cid)
            == push_dedup(msgs_at(st, sid, cid), msg_of(r)),
        !(sid == r.meeting && cid == r.chat) ==> msgs_at(log_insert(st, r), sid, cid)
            == msgs_at(st, sid, cid),
{
    let m = msg_of(r);
    let st1 = log_insert(st, r);
    match meeting_find(st, r.meeting) {
        None => {
            let c = ChatV { id: r.chat, msgs: seq![m] };
            let fresh = MeetingV { id: r.meeting, time: r.time, chats: seq![c] };
            lemma_find_push(st, |mt: MeetingV| mt.id == sid, fresh);
            lemma_find_found(st, |mt: MeetingV| mt.id == sid);
            if sid == r.meeting {
                assert(meeting_find(st, sid) is None);
                assert(meeting_find(st1, sid) == Some(st.len() as int));
                assert(st1[st.len() as int] == fresh);
                if cid == r.chat {
                    assert(chat_find(fresh.chats, cid) == Some(0int));
                    assert(msgs_at(st1, sid, cid) == seq![m]);
                    assert(push_dedup(Seq::<MessageV>::empty(), m) =~= seq![m]);
                } else {
                    lemma_find_none(fresh.chats, |c: ChatV| c.id == cid);
                    assert(chat_find(fresh.chats, cid) is None);
                }
            } else {
                assert(meeting_find(st1, sid) == meeting_find(st, sid));
                match meeting_find(st, sid) {
                    Some(k) => {
                        assert(st1[k] == st[k]);
                    },
                    None => {},
                }
            }
        },
        Some(i) => {
            lemma_find_found(st, |mt: MeetingV| mt.id == r.meeting);
            let mt0 = st[i];
            let mt1 = meeting_insert(mt0, r.chat, m);
            assert(mt1.id == mt0.id);
            lemma_find_update(st, |mt: MeetingV| mt.id == sid, i, mt1);
            assert(meeting_find(st1, sid) == meeting_find(st, sid));
            lemma_find_found(st, |mt: MeetingV| mt.id == sid);
            match meeting_find(st, sid) {
                None => {},
                Some(k) => {
                    if k != i {
                        assert(st1[k] == st[k]);
                    } else {
                        // the queried meeting is the record's own
                        assert(sid == mt0.id);
                        assert(st1[i] == mt1);
                        match chat_find(mt0.chats, r.chat) {
                            None => {
                                let cnew = ChatV { id: r.chat, msgs: seq![m] };
                                lemma_find_push(mt0.chats, |c: ChatV| c.id == cid, cnew);
                                lemma_find_found(mt0.chats, |c: ChatV| c.id == cid);
                                if cid == r.chat {
                                    assert(chat_find(mt0.chats, cid) is None);
                                    assert(chat_find(mt1.chats, cid) == Some(
                                        mt0.chats.len() as int,
                                    ));
                                    assert(mt1.chats[mt0.chats.len() as int] == cnew);
                                    assert(push_dedup(Seq::<MessageV>::empty(), m) =~= seq![m]);
                                } else {
                                    assert(chat_find(mt1.chats, cid) == chat_find(
                                        mt0.chats,
                                        cid,
                                    ));
                                    match chat_find(mt0.chats, cid) {
                                        Some(l) => {
                                            assert(mt1.chats[l] == mt0.chats[l]);
                                        },
                                        None => {},
                                    }
                                }
                            },
                            Some(j) => {
                                lemma_find_found(mt0.chats, |c: ChatV| c.id == r.chat);
                                let c0 = mt0.chats[j];
                                let c1 = chat_insert(c0, m);
                                lemma_find_update(mt0.chats, |c: ChatV| c.id == cid, j, c1);
                                assert(chat_find(mt1.chats, cid) == chat_find(mt0.chats, cid));
                                lemma_find_found(mt0.chats, |c: ChatV| c.id == cid);
                                match chat_find(mt0.chats, cid) {
                                    None => {},
                                    Some(l) => {
                                        if l == j {
                                            assert(cid == c0.id);
                                            assert(mt1.chats[j] == c1);
                                        } else {
                                            assert(mt1.chats[l] == mt0.chats[l]);
                                        }
                                    },
                                }
                            },
                        }
                    }
                },
            }
        },
    }
}

} // verus!
