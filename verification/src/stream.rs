//! The streaming exchange with the model server: splitting the byte stream
//! into lines, reading each line's message, and cutting the event flow at
//! the first terminal event.
//!
//! The caller drives the network stream; it feeds the raw bytes into the
//! line buffer here, parses each line's JSON text, and hands the tree to
//! the message decoder. Everything it then emits is decided here.

use vstd::prelude::*;

use crate::json::{has_key, lookup, JsonModel, JsonValue};

verus! {

broadcast use vstd::std_specs::vec::group_vec_axioms, vstd::seq::group_seq_axioms;

/// One event of the model server's streamed answer.
#[derive(Debug, Clone, PartialEq, Eq)]
pub enum OllamaEvent {
    /// A piece of answer text.
    Chunk(String),
    /// The answer is complete.
    Done,
    /// The server reported a failure.
    Error(String),
}

/// Mathematical shape of an `OllamaEvent`.
pub enum EventModel {
    Chunk(Seq<char>),
    Done,
    Error(Seq<char>),
}

impl OllamaEvent {
    /// The event as a mathematical record.
    pub open spec fn model(self) -> EventModel {
        match self {
            OllamaEvent::Chunk(s) => EventModel::Chunk(s@),
            OllamaEvent::Done => EventModel::Done,
            OllamaEvent::Error(s) => EventModel::Error(s@),
        }
    }
}

/// The model of an event list.
pub open spec fn events_model(evs: Seq<OllamaEvent>) -> Seq<EventModel>
    decreases evs,
{
    if evs.len() == 0 {
        Seq::empty()
    } else {
        seq![evs[0].model()] + events_model(evs.drop_first())
    }
}

/// The answer text of a streamed message: missing means empty; anything
/// but a string is malformed.
pub open spec fn chunk_response(fm: Seq<(Seq<char>, JsonModel)>) -> Option<Seq<char>> {
    if !has_key(fm, "response"@) {
        Some(Seq::empty())
    } else {
        match lookup(fm, "response"@) {
            JsonModel::Str(s) => Some(s),
            _ => None,
        }
    }
}

/// The completion flag of a streamed message: missing means not done.
pub open spec fn chunk_done(fm: Seq<(Seq<char>, JsonModel)>) -> Option<bool> {
    if !has_key(fm, "done"@) {
        Some(false)
    } else {
        match lookup(fm, "done"@) {
            JsonModel::Bool(b) => Some(b),
            _ => None,
        }
    }
}

/// The failure text of a streamed message: missing or null means none.
pub open spec fn chunk_error(fm: Seq<(Seq<char>, JsonModel)>) -> Option<Option<Seq<char>>> {
    if !has_key(fm, "error"@) {
        Some(None)
    } else {
        match lookup(fm, "error"@) {
            JsonModel::Str(s) => Some(Some(s)),
            JsonModel::Null => Some(None),
            _ => None,
        }
    }
}

/// What one streamed message means: a reported failure is the only event;
/// otherwise a nonempty answer piece and the completion flag each give one
/// event, in that order. A message that is no object, or whose fields have
/// the wrong shape, is malformed.
pub open spec fn spec_chunk_events(j: JsonModel) -> Option<Seq<EventModel>> {
    match j {
        JsonModel::Obj(fm) => match (chunk_response(fm), chunk_done(fm), chunk_error(fm)) {
            (Some(resp), Some(done), Some(err)) => Some(
                match err {
                    Some(msg) => seq![EventModel::Error(msg)],
                    None => (if resp.len() > 0 {
                        seq![EventModel::Chunk(resp)]
                    } else {
                        Seq::empty()
                    }) + (if done {
                        seq![EventModel::Done]
                    } else {
                        Seq::empty()
                    }),
                },
            ),
            _ => None,
        },
        _ => None,
    }
}

/// Read the events of one line of the server's stream, already parsed as
/// a JSON-equivalent tree; nothing when the message is malformed.
pub fn parse_ollama_jsonl_chunk(j: &JsonValue) -> (r: Option<Vec<OllamaEvent>>)
    ensures
        (match r {
            Some(v) => Some(events_model(v@)),
            None => None::<Seq<EventModel>>,
        }) == spec_chunk_events(j.model()),
{
    let is_obj = match j {
        JsonValue::Obj(_) => true,
        _ => false,
    };
    if !is_obj {
        return None;
    }
    let ghost fm = match j.model() {
        JsonModel::Obj(f) => f,
        _ => arbitrary(),
    };
    let response: String = match j.get("response") {
        None => {
            proof {
                crate::json::lemma_lookup_absent(fm, "response"@);
            }
            String::new()
        },
        Some(v) => match v.as_str() {
            Some(s) => s.clone(),
            None => {
                return None;
            },
        },
    };
    let done: bool = match j.get("done") {
        None => {
            proof {
                crate::json::lemma_lookup_absent(fm, "done"@);
            }
            false
        },
        Some(v) => match v.as_bool() {
            Some(b) => b,
            None => {
                return None;
            },
        },
    };
    let error: Option<String> = match j.get("error") {
        None => None,
        Some(v) => match v {
            JsonValue::Null => None,
            JsonValue::Str(s) => Some(s.clone()),
            _ => {
                return None;
            },
        },
    };
    let ghost respv = response@;
    let ghost errv: Option<Seq<char>> = match &error {
        Some(m) => Some(m@),
        None => None,
    };
    proof {
        assert(chunk_response(fm) == Some(respv));
        assert(chunk_done(fm) == Some(done));
        assert(chunk_error(fm) == Some(errv));
    }
    let mut events: Vec<OllamaEvent> = Vec::new();
    match error {
        Some(msg) => {
            events.push(OllamaEvent::Error(msg));
            proof {
                lemma_events_model(events@);
                assert(events_model(events@) =~= seq![EventModel::Error(errv->0)]);
            }
        },
        None => {
            if !response.as_str().is_empty() {
                events.push(OllamaEvent::Chunk(response));
            }
            if done {
                events.push(OllamaEvent::Done);
            }
            proof {
                lemma_events_model(events@);
                let expected = (if respv.len() > 0 {
                    seq![EventModel::Chunk(respv)]
                } else {
                    Seq::<EventModel>::empty()
                }) + (if done {
                    seq![EventModel::Done]
                } else {
                    Seq::<EventModel>::empty()
                });
                assert(events_model(events@) =~= expected);
            }
        },
    }
    Some(events)
}

/// The index of the first line-feed byte.
pub open spec fn first_nl(b: Seq<u8>) -> Option<int>
    decreases b.len(),
{
    if b.len() == 0 {
        None
    } else if b[0] == 10 {
        Some(0)
    } else {
        match first_nl(b.drop_first()) {
            Some(i) => Some(i + 1),
            None => None,
        }
    }
}

/// With the first line feed at `p`, `first_nl` finds it.
proof fn lemma_first_nl_at(b: Seq<u8>, p: int)
    requires
        0 <= p < b.len(),
        b[p] == 10,
        forall|j: int| 0 <= j < p ==> b[j] != 10,
    ensures
        first_nl(b) == Some(p),
    decreases p,
{
    if p > 0 {
        lemma_first_nl_at(b.drop_first(), p - 1);
    }
}

/// With no line feed at all, `first_nl` finds none.
proof fn lemma_first_nl_none(b: Seq<u8>)
    requires
        forall|j: int| 0 <= j < b.len() ==> b[j] != 10,
    ensures
        first_nl(b) is None,
    decreases b.len(),
{
    if b.len() > 0 {
        lemma_first_nl_none(b.drop_first());
    }
}

/// The line without its trailing carriage returns and line feeds.
pub open spec fn strip_line_ends(s: Seq<u8>) -> Seq<u8>
    decreases s.len(),
{
    if s.len() > 0 && (s.last() == 10 || s.last() == 13) {
        strip_line_ends(s.drop_last())
    } else {
        s
    }
}

/// `strip_line_ends` keeps exactly the prefix before the trailing line
/// ends.
proof fn lemma_strip_line_ends(s: Seq<u8>, i: int)
    requires
        0 <= i <= s.len(),
        forall|j: int| i <= j < s.len() ==> s[j] == 10 || s[j] == 13,
        i > 0 ==> !(s[i - 1] == 10 || s[i - 1] == 13),
    ensures
        strip_line_ends(s) == s.take(i),
    decreases s.len(),
{
    if s.len() == i {
        assert(s.take(i) =~= s);
    } else {
        lemma_strip_line_ends(s.drop_last(), i);
        assert(s.drop_last().take(i) =~= s.take(i));
    }
}

/// Take the next full line out of the stream buffer: everything up to the
/// first line feed leaves the buffer, and is returned without its trailing
/// carriage returns and line feeds. Without a full line the buffer is left
/// alone.
#[verifier::loop_isolation(false)]
pub fn take_line(buffer: &mut Vec<u8>) -> (r: Option<Vec<u8>>)
    ensures
        match first_nl(old(buffer)@) {
            Some(p) => {
                &&& r matches Some(line) && line@ == strip_line_ends(old(buffer)@.take(p + 1))
                &&& final(buffer)@ == old(buffer)@.skip(p + 1)
            },
            None => r is None && final(buffer)@ == old(buffer)@,
        },
{
    let n = buffer.len();
    let mut p: usize = 0;
    while p < n && buffer[p] != 10
        invariant
            p <= n,
            forall|j: int| 0 <= j < p ==> old(buffer)@[j] != 10,
            buffer@ == old(buffer)@,
        decreases n - p,
    {
        p = p + 1;
    }
    if p == n {
        proof {
            lemma_first_nl_none(buffer@);
        }
        return None;
    }
    proof {
        lemma_first_nl_at(buffer@, p as int);
    }
    let mut e: usize = p;
    while e > 0 && (buffer[e - 1] == 10 || buffer[e - 1] == 13)
        invariant
            e <= p,
            forall|j: int| e <= j < p ==> old(buffer)@[j] == 10 || old(buffer)@[j] == 13,
            buffer@ == old(buffer)@,
        decreases e,
    {
        e = e - 1;
    }
    let ghost chunk = old(buffer)@.take(p as int + 1);
    proof {
        assert forall|j: int| e as int <= j < chunk.len() implies chunk[j] == 10 || chunk[j]
            == 13 by {
            assert(chunk[j] == old(buffer)@[j]);
        }
        lemma_strip_line_ends(chunk, e as int);
        assert(chunk.take(e as int) =~= old(buffer)@.take(e as int));
    }
    let line = vstd::slice::slice_to_vec(&buffer.as_slice()[0..e]);
    let rest = vstd::slice::slice_to_vec(&buffer.as_slice()[p + 1..n]);
    proof {
        assert(line@ =~= old(buffer)@.take(e as int));
        assert(rest@ =~= old(buffer)@.skip(p as int + 1));
    }
    *buffer = rest;
    Some(line)
}

/// The events up to and including the first terminal one (completion or
/// failure), and whether one was reached: what follows a terminal event is
/// never acted on.
pub open spec fn spec_until_finished(evs: Seq<EventModel>) -> (Seq<EventModel>, bool)
    decreases evs.len(),
{
    if evs.len() == 0 {
        (Seq::empty(), false)
    } else {
        match evs[0] {
            EventModel::Chunk(s) => {
                let (rest, fin) = spec_until_finished(evs.drop_first());
                (seq![EventModel::Chunk(s)] + rest, fin)
            },
            EventModel::Done => (seq![EventModel::Done], true),
            EventModel::Error(s) => (seq![EventModel::Error(s)], true),
        }
    }
}

/// Cut the event flow at the first terminal event, returning the events to
/// act on and whether the stream is finished.
#[verifier::loop_isolation(false)]
pub fn events_until_finished(events: Vec<OllamaEvent>) -> (r: (Vec<OllamaEvent>, bool))
    ensures
        (events_model(r.0@), r.1) == spec_until_finished(events_model(events@)),
{
    proof {
        lemma_events_model(events@);
    }
    let ghost em = events_model(events@);
    let n = events.len();
    let mut out: Vec<OllamaEvent> = Vec::new();
    let mut i: usize = 0;
    proof {
        assert(em.skip(0) =~= em);
        assert(events_model(out@) =~= Seq::<EventModel>::empty());
    }
    while i < n
        invariant
            i <= n,
            spec_until_finished(em) == {
                let (rest, fin) = spec_until_finished(em.skip(i as int));
                (events_model(out@) + rest, fin)
            },
        decreases n - i,
    {
        let ev = &events[i];
        let terminal = match ev {
            OllamaEvent::Chunk(_) => false,
            OllamaEvent::Done => true,
            OllamaEvent::Error(_) => true,
        };
        let copy = match ev {
            OllamaEvent::Chunk(s) => OllamaEvent::Chunk(s.clone()),
            OllamaEvent::Done => OllamaEvent::Done,
            OllamaEvent::Error(s) => OllamaEvent::Error(s.clone()),
        };
        let ghost out0 = out@;
        out.push(copy);
        proof {
            lemma_events_model_push(out0, out@.last());
            assert(out@.last().model() == em[i as int]);
            assert(em.skip(i as int)[0] == em[i as int]);
            assert(em.skip(i as int).drop_first() =~= em.skip(i as int + 1));
        }
        if terminal {
            proof {
                assert(spec_until_finished(em.skip(i as int)).1 == true);
            }
            return (out, true);
        }
        i = i + 1;
    }
    proof {
        assert(em.skip(n as int) =~= Seq::<EventModel>::empty());
    }
    (out, false)
}

/// `events_model` maps the list event by event.
pub proof fn lemma_events_model(evs: Seq<OllamaEvent>)
    ensures
        events_model(evs).len() == evs.len(),
        forall|i: int|
            0 <= i < evs.len() ==> #[trigger] events_model(evs)[i] == evs[i].model(),
    decreases evs,
{
    if evs.len() > 0 {
        lemma_events_model(evs.drop_first());
        assert forall|i: int| 0 <= i < evs.len() implies #[trigger] events_model(evs)[i]
            == evs[i].model() by {
            if i > 0 {
                assert(evs.drop_first()[i - 1] == evs[i]);
            }
        }
    }
}

/// Appending one event extends the model by its record.
proof fn lemma_events_model_push(evs: Seq<OllamaEvent>, ev: OllamaEvent)
    ensures
        events_model(evs.push(ev)) == events_model(evs) + seq![ev.model()],
    decreases evs.len(),
{
    if evs.len() == 0 {
        assert(evs.push(ev).drop_first() =~= Seq::<OllamaEvent>::empty());
        assert(events_model(Seq::<OllamaEvent>::empty()) =~= Seq::<EventModel>::empty());
        assert(evs.push(ev)[0] == ev);
        assert(events_model(evs.push(ev)) == seq![ev.model()] + events_model(
            evs.push(ev).drop_first(),
        ));
        assert(events_model(evs.push(ev)) =~= events_model(evs) + seq![ev.model()]);
    } else {
        lemma_events_model_push(evs.drop_first(), ev);
        assert(evs.push(ev).drop_first() =~= evs.drop_first().push(ev));
        assert(evs.push(ev)[0] == evs[0]);
        assert(events_model(evs.push(ev)) == seq![evs[0].model()] + events_model(
            evs.drop_first().push(ev),
        ));
        assert(events_model(evs.push(ev)) =~= events_model(evs) + seq![ev.model()]);
    }
}

} // verus!
