//! The whole pipeline: locating a payload in a line, decoding it, mapping
//! it, placing it into the aggregate, and the run over a stream of lines.

use vstd::prelude::*;
use crate::jsonio::{decode_payload, json_decoded, json_err_text};
use crate::record::{extract_record, record_of};
use crate::render::{render_report, report_text};
use crate::store::{find_first, lemma_find_skip, log_insert, meeting_find, MeetingLog, MeetingV};

verus! {

/// The position of the first `{` in a line, where an embedded payload
/// would start.
pub open spec fn first_brace(line: Seq<char>) -> Option<int> {
    find_first(line, |c: char| c == '{')
}

/// The note printed when a line's payload carries no usable timestamp and
/// the line is skipped.
pub open spec fn ts_note() -> Seq<char> {
    "skipped: no numeric envelope.timestamp in payload"@
}

/// The note printed when an event creates its meeting.
pub open spec fn created_note(id: Seq<char>) -> Seq<char> {
    "inserting: "@ + id
}

/// What one line does: the aggregate it leaves, and the lines printed at
/// once.  A line without a `{` is echoed verbatim; a payload that does
/// not decode is reported with the decoder's message and skipped; one
/// without a usable timestamp is reported and skipped; any other is
/// placed into the aggregate, with a note when its meeting is new.
pub open spec fn line_step(st: Seq<MeetingV>, line: Seq<char>) -> (Seq<MeetingV>, Seq<
    Seq<char>,
>) {
    match first_brace(line) {
        None => (st, seq![line]),
        Some(p) => {
            let payload = line.skip(p);
            match json_decoded(payload) {
                None => (st, seq![json_err_text(payload), payload]),
                Some(v) => match record_of(v) {
                    None => (st, seq![ts_note(), payload]),
                    Some(r) => (
                        log_insert(st, r),
                        if meeting_find(st, r.meeting) is None {
                            seq![created_note(r.meeting)]
                        } else {
                            Seq::<Seq<char>>::empty()
                        },
                    ),
                },
            }
        },
    }
}

/// The aggregate after a whole stream of lines.
pub open spec fn run_state(lines: Seq<Seq<char>>) -> Seq<MeetingV>
    decreases lines.len(),
{
    if lines.len() == 0 {
        Seq::<MeetingV>::empty()
    } else {
        line_step(run_state(lines.drop_last()), lines.last()).0
    }
}

/// The lines printed while a whole stream is read, in order.
pub open spec fn run_eager(lines: Seq<Seq<char>>) -> Seq<Seq<char>>
    decreases lines.len(),
{
    if lines.len() == 0 {
        Seq::<Seq<char>>::empty()
    } else {
        run_eager(lines.drop_last()) + line_step(run_state(lines.drop_last()), lines.last()).1
    }
}

/// Lines joined into a text, each ended with a newline.
pub open spec fn joined_lines(ls: Seq<Seq<char>>) -> Seq<char>
    decreases ls.len(),
{
    if ls.len() == 0 {
        Seq::<char>::empty()
    } else {
        joined_lines(ls.drop_last()) + ls.last() + "\n"@
    }
}

/// The bytes of a whole run: the eagerly printed lines, then the report.
pub open spec fn run_output(lines: Seq<Seq<char>>) -> Seq<char> {
    joined_lines(run_eager(lines)) + report_text(run_state(lines))
}

pub(crate) proof fn lemma_joined_lines_append(a: Seq<Seq<char>>, b: Seq<Seq<char>>)
    ensures
        joined_lines(a + b) == joined_lines(a) + joined_lines(b),
    decreases b.len(),
{
    if b.len() == 0 {
        assert(a + b =~= a);
        assert(joined_lines(a) + joined_lines(b) =~= joined_lines(a));
    } else {
        assert((a + b).drop_last() =~= a + b.drop_last());
        assert((a + b).last() == b.last());
        lemma_joined_lines_append(a, b.drop_last());
        assert(joined_lines(a + b) =~= joined_lines(a) + joined_lines(b));
    }
}

/// The position of the first `{` of a line, as `first_brace` describes.
#[verifier::loop_isolation(false)]
fn find_brace(line: &str) -> (r: Option<usize>)
    ensures
        match r {
            Some(p) => p < line@.len() && first_brace(line@) == Some(p as int),
            None => first_brace(line@) is None,
        },
{
    let n: usize = line.unicode_len();
    let mut i: usize = 0;
    proof {
        assert(line@.skip(0) =~= line@);
    }
    while i < n
        invariant
            i <= n,
            first_brace(line@) == match find_first(
                line@.skip(i as int),
                |c: char| c == '{',
            ) {
                Some(j) => Some(j + i),
                None => None::<int>,
            },
        decreases n - i,
    {
        let c = line.get_char(i);
        if c == '{' {
            proof {
                assert(line@.skip(i as int)[0] == line@[i as int]);
            }
            return Some(i);
        }
        proof {
            assert(line@.skip(i as int)[0] == line@[i as int]);
            lemma_find_skip(line@, |c: char| c == '{', i as int);
        }
        i += 1;
    }
    proof {
        assert(line@.skip(n as int) =~= Seq::<char>::empty());
    }
    None
}

impl MeetingLog {
    /// Handles one line of input, exactly as `line_step` describes: the
    /// aggregate is updated and the lines to print at once come back.
    pub fn process_line(&mut self, line: &str) -> (out: Vec<String>)
        ensures
            final(self)@ == line_step(old(self)@, line@).0,
            out.deep_view() == line_step(old(self)@, line@).1,
    {
        match find_brace(line) {
            None => {
                let mut out: Vec<String> = Vec::new();
                out.push(String::from_str(line));
                proof {
                    assert(out.deep_view() =~= seq![line@]);
                }
                out
            },
            Some(p) => {
                let len: usize = line.unicode_len();
                let payload = line.substring_char(p, len);
                proof {
                    assert(payload@ =~= line@.skip(p as int));
                }
                match decode_payload(payload) {
                    Err(msg) => {
                        let mut out: Vec<String> = Vec::new();
                        out.push(msg);
                        out.push(String::from_str(payload));
                        proof {
                            assert(out.deep_view() =~= seq![
                                json_err_text(line@.skip(p as int)),
                                line@.skip(p as int),
                            ]);
                        }
                        out
                    },
                    Ok(v) => match extract_record(&v) {
                        None => {
                            let mut out: Vec<String> = Vec::new();
                            out.push(
                                String::from_str(
                                    "skipped: no numeric envelope.timestamp in payload",
                                ),
                            );
                            out.push(String::from_str(payload));
                            proof {
                                assert(out.deep_view() =~= seq![
                                    ts_note(),
                                    line@.skip(p as int),
                                ]);
                            }
                            out
                        },
                        Some(rec) => {
                            let ghost rv = rec@;
                            let note_id = rec.meeting_id.clone();
                            let created = self.insert(rec);
                            let mut out: Vec<String> = Vec::new();
                            if created {
                                let mut note = String::from_str("inserting: ");
                                note.append(note_id.as_str());
                                proof {
                                    assert(note@ =~= created_note(rv.meeting));
                                }
                                out.push(note);
                                proof {
                                    assert(out.deep_view() =~= seq![created_note(rv.meeting)]);
                                }
                            } else {
                                proof {
                                    assert(out.deep_view() =~= Seq::<Seq<char>>::empty());
                                }
                            }
                            out
                        },
                    },
                }
            },
        }
    }
}

/// Runs the whole pipeline over the given lines and returns every byte
/// the run prints, exactly as `run_output` describes.
#[verifier::loop_isolation(false)]
pub fn run(lines: &Vec<String>) -> (out: String)
    ensures
        out@ == run_output(lines.deep_view()),
{
    let ghost lv = lines.deep_view();
    let mut log = MeetingLog::new();
    let mut text = String::new();
    let n: usize = lines.len();
    let mut i: usize = 0;
    proof {
        assert(lv.take(0) =~= Seq::<Seq<char>>::empty());
    }
    while i < n
        invariant
            i <= n,
            log@ == run_state(lv.take(i as int)),
            text@ == joined_lines(run_eager(lv.take(i as int))),
        decreases n - i,
    {
        let outs = log.process_line(lines[i].as_str());
        let ghost base = text@;
        let ghost odv = outs.deep_view();
        proof {
            assert(odv.take(0) =~= Seq::<Seq<char>>::empty());
        }
        let m: usize = outs.len();
        let mut j: usize = 0;
        while j < m
            invariant
                j <= m,
                text@ == base + joined_lines(odv.take(j as int)),
            decreases m - j,
        {
            text.append(outs[j].as_str());
            text.append("\n");
            proof {
                assert(odv.take(j as int + 1).drop_last() =~= odv.take(j as int));
                assert(odv.take(j as int + 1).last() == odv[j as int]);
                assert(text@ =~= base + joined_lines(odv.take(j as int + 1)));
            }
            j += 1;
        }
        proof {
            assert(odv.take(m as int) =~= odv);
            assert(lv.take(i as int + 1).drop_last() =~= lv.take(i as int));
            assert(lv.take(i as int + 1).last() == lv[i as int]);
            lemma_joined_lines_append(run_eager(lv.take(i as int)), odv);
            assert(run_eager(lv.take(i as int + 1)) == run_eager(lv.take(i as int)) + odv);
            assert(text@ =~= joined_lines(run_eager(lv.take(i as int + 1))));
        }
        i += 1;
    }
    proof {
        assert(lv.take(n as int) =~= lv);
    }
    let report = render_report(&log);
    text.append(report.as_str());
    text
}

/// A line with no `{` appears verbatim in the immediate output, in its
/// own place, and leaves the aggregate unchanged.
pub proof fn lemma_pass_through(st: Seq<MeetingV>, line: Seq<char>)
    requires
        forall|j: int| 0 <= j < line.len() ==> line[j] != '{',
    ensures
        line_step(st, line) == (st, seq![line]),
{
    crate::store::lemma_find_none(line, |c: char| c == '{');
}

/// A line whose payload does not decode changes no conversation: the
/// aggregate is untouched, and the decoder's message together with the
/// offending text is reported.
pub proof fn lemma_decode_failure_survival(st: Seq<MeetingV>, line: Seq<char>, p: int)
    requires
        first_brace(line) == Some(p),
        json_decoded(line.skip(p)) is None,
    ensures
        line_step(st, line).0 == st,
        line_step(st, line).1 == seq![json_err_text(line.skip(p)), line.skip(p)],
{
}

/// Any line, well-formed or not, keeps the aggregate in good shape.
pub proof fn lemma_line_step_preserves_wf(st: Seq<MeetingV>, line: Seq<char>)
    requires
        crate::store::wf_log(st),
    ensures
        crate::store::wf_log(line_step(st, line).0),
{
    match first_brace(line) {
        None => {},
        Some(p) => {
            match json_decoded(line.skip(p)) {
                None => {},
                Some(v) => match record_of(v) {
                    None => {},
                    Some(r) => {
                        crate::store::lemma_insert_preserves_wf(st, r);
                    },
                },
            }
        },
    }
}

/// Two runs over the same lines, in the same order, print the same
/// bytes: the whole output is a function of the input alone.
pub proof fn lemma_deterministic_output(a: Seq<Seq<char>>, b: Seq<Seq<char>>)
    requires
        a == b,
    ensures
        run_output(a) == run_output(b),
{
}

} // verus!
