//! The turn loop and the retry loop, as state machines: the caller talks to
//! pi and hands each event to them, they say what to do next.

use vstd::prelude::*;

use crate::prompt::retry_prompt;
use crate::protocol::{
    find_member, lookup, members_view, parse_answer, parse_answer_spec, Answer, AnswerView,
    JsonValue, JsonView, MemberView,
};
use crate::text::{decimal_text, push_decimal, squeeze, squeezed, strings_view, to_chars};

verus! {

/// Why the agent did not answer, kept for the caller to show.
#[derive(Debug)]
pub struct Failure {
    pub reason: String,
    pub last_text: Option<String>,
    pub errors: Vec<String>,
}

/// The reason, followed by the last error pi reported, if any.
pub open spec fn failure_text(f: Failure) -> Seq<char> {
    if f.errors@.len() == 0 {
        f.reason@
    } else {
        f.reason@ + ": "@ + f.errors@.last()@
    }
}

/// What a call that got no answer does.
#[derive(Debug)]
pub struct NoAnswer {
    /// The exit status.
    pub status: u8,
    /// The last text the agent wrote, to show as the note.
    pub note: Option<String>,
    /// The failure to report.
    pub message: Option<String>,
}

/// After a Ctrl-C nothing is shown and the call exits 130, even when pi
/// failed first; otherwise the agent's last text is shown, then the failure
/// is reported and the call exits 1.
pub fn no_answer(failure: &Failure, interrupted: bool) -> (r: NoAnswer)
    ensures
        interrupted ==> r.status == 130 && r.note is None && r.message is None,
        !interrupted ==> {
            &&& r.status == 1
            &&& opt_text_view(r.note) == opt_text_view(failure.last_text)
            &&& r.message matches Some(m) && m@ == failure_text(*failure)
        },
{
    if interrupted {
        return NoAnswer { status: 130, note: None, message: None };
    }
    let note = match &failure.last_text {
        Some(t) => Some(t.clone()),
        None => None,
    };
    NoAnswer { status: 1, note, message: Some(failure.message()) }
}

impl Failure {
    /// The reason, followed by the last error pi reported, if any.
    pub fn message(&self) -> (r: String)
        ensures
            r@ == failure_text(*self),
    {
        let mut m = self.reason.clone();
        let n = self.errors.len();
        if n > 0 {
            m.append(": ");
            m.append(self.errors[n - 1].as_str());
        }
        m
    }
}

/// What one turn produced: the assistant's texts and pi's errors, in order.
#[derive(Debug)]
pub struct Turn {
    pub texts: Vec<String>,
    pub errors: Vec<String>,
}

/// Argument keys the progress block shows, in the order it looks for them.
/// The built-in prompt promises this list to the model; keep both in step.
pub const ARGUMENT_KEYS: [&'static str; 5] = ["command", "path", "pattern", "query", "url"];

pub open spec fn argument_key(k: int) -> Seq<char> {
    if k == 0 {
        "command"@
    } else if k == 1 {
        "path"@
    } else if k == 2 {
        "pattern"@
    } else if k == 3 {
        "query"@
    } else {
        "url"@
    }
}

fn argument_key_at(k: usize) -> (r: &'static str)
    requires
        k < 5,
    ensures
        r@ == argument_key(k as int),
{
    if k == 0 {
        "command"
    } else if k == 1 {
        "path"
    } else if k == 2 {
        "pattern"
    } else if k == 3 {
        "query"
    } else {
        "url"
    }
}

/// The shown argument for one key: its string value with the whitespace
/// squeezed, or nothing.
pub open spec fn argument_of(ms: Seq<MemberView>, key: Seq<char>) -> Seq<char> {
    match find_member(ms, key) {
        Some(Ok(Some(s))) => squeezed(s),
        _ => Seq::empty(),
    }
}

/// The first non-empty argument among the keys from `k` on.
pub open spec fn summary_from(ms: Seq<MemberView>, k: int) -> Seq<char>
    decreases 5 - k,
{
    if k >= 5 {
        Seq::empty()
    } else if argument_of(ms, argument_key(k)).len() > 0 {
        argument_of(ms, argument_key(k))
    } else {
        summary_from(ms, k + 1)
    }
}

pub open spec fn summary_of(args: JsonView) -> Seq<char> {
    match args {
        JsonView::Object(ms) => summary_from(ms, 0),
        JsonView::Other => Seq::empty(),
    }
}

/// One clipped line per tool call: the tool name plus a short argument.
pub fn summary(args: &JsonValue) -> (r: String)
    ensures
        r@ == summary_of(args@),
{
    let members = match args {
        JsonValue::Object(members) => members,
        JsonValue::Other => return String::new(),
    };
    let ghost ms = members_view(members@);
    assert(args@ == JsonView::Object(ms));
    let mut k: usize = 0;
    while k < 5
        invariant
            ms == members_view(members@),
            args@ == JsonView::Object(ms),
            k <= 5,
            summary_from(ms, 0) == summary_from(ms, k as int),
        decreases 5 - k,
    {
        let key = argument_key_at(k);
        let found = lookup(members, key);
        let mut shown = String::new();
        if let Some(Ok(Some(value))) = found {
            shown = squeeze(value.as_str());
        }
        assert(shown@ == argument_of(ms, argument_key(k as int)));
        if to_chars(shown.as_str()).len() > 0 {
            assert(summary_from(ms, k as int) == shown@);
            return shown;
        }
        k = k + 1;
    }
    String::new()
}

/// The argument keys, in the order the progress block prefers them.
pub open spec fn shown_keys() -> Seq<Seq<char>> {
    seq!["command"@, "path"@, "pattern"@, "query"@, "url"@]
}

pub open spec fn string_member(key: Seq<char>, value: Seq<char>) -> MemberView {
    MemberView { key, text: Ok(Some(value)) }
}

proof fn lemma_keys_differ()
    ensures
        forall|i: int, j: int| 0 <= i < j < 5 ==> shown_keys()[i] != shown_keys()[j],
        forall|k: int| 0 <= k < 5 ==> argument_key(k) == #[trigger] shown_keys()[k],
{
    reveal_strlit("command");
    reveal_strlit("path");
    reveal_strlit("pattern");
    reveal_strlit("query");
    reveal_strlit("url");
    assert("command"@[0] != "path"@[0]);
    assert("command"@[0] != "pattern"@[0]);
    assert("command"@[0] != "query"@[0]);
    assert("command"@[0] != "url"@[0]);
    assert("path"@.len() != "pattern"@.len());
    assert("path"@[0] != "query"@[0]);
    assert("path"@[0] != "url"@[0]);
    assert("pattern"@[0] != "query"@[0]);
    assert("pattern"@[0] != "url"@[0]);
    assert("query"@[0] != "url"@[0]);
}

proof fn lemma_find_in_one(m: MemberView, key: Seq<char>)
    ensures
        find_member(seq![m], key) == if m.key == key { Some(m.text) } else { None },
{
    assert(seq![m].drop_last() =~= Seq::<MemberView>::empty());
    assert(find_member(Seq::<MemberView>::empty(), key) is None);
    assert(seq![m].last() == m);
}

proof fn lemma_find_in_two(m1: MemberView, m2: MemberView, key: Seq<char>)
    ensures
        find_member(seq![m1, m2], key) == if m1.key == key {
            Some(m1.text)
        } else if m2.key == key {
            Some(m2.text)
        } else {
            None
        },
{
    assert(seq![m1, m2].drop_last() =~= seq![m1]);
    lemma_find_in_one(m1, key);
}

/// The progress block shows the argument under any of the five argument
/// keys `command`, `path`, `pattern`, `query` and `url`: an object whose only
/// member is a string under one of them shows that string with its
/// whitespace squeezed; and of two such arguments with something to show,
/// the one whose key comes first in that list is shown, wherever it stands
/// in the object.
pub proof fn lemma_summary_shows_the_argument_keys(value: Seq<char>, other: Seq<char>)
    ensures
        forall|k: int|
            0 <= k < 5 ==> summary_of(JsonView::Object(seq![string_member(#[trigger] shown_keys()[k], value)]))
                == squeezed(value),
        forall|i: int, j: int|
            0 <= i < j < 5 && squeezed(value).len() > 0 ==> summary_of(
                JsonView::Object(seq![string_member(#[trigger] shown_keys()[j], other), string_member(#[trigger] shown_keys()[i], value)]),
            ) == squeezed(value),
{
    lemma_keys_differ();
    assert forall|k: int|
        0 <= k < 5 implies summary_of(JsonView::Object(seq![string_member(#[trigger] shown_keys()[k], value)]))
            == squeezed(value) by {
        let ms = seq![string_member(shown_keys()[k], value)];
        assert forall|q: int| 0 <= q < 5 implies argument_of(ms, #[trigger] argument_key(q)) == if q == k {
            squeezed(value)
        } else {
            Seq::<char>::empty()
        } by {
            lemma_find_in_one(string_member(shown_keys()[k], value), argument_key(q));
        }
        assert(summary_from(ms, 5) == Seq::<char>::empty());
        assert(summary_from(ms, 4) == argument_of(ms, argument_key(4)) || argument_of(ms, argument_key(4)).len() == 0);
        assert(summary_from(ms, 4) == if k == 4 { squeezed(value) } else { Seq::<char>::empty() });
        assert(summary_from(ms, 3) == if k >= 3 { squeezed(value) } else { Seq::<char>::empty() });
        assert(summary_from(ms, 2) == if k >= 2 { squeezed(value) } else { Seq::<char>::empty() });
        assert(summary_from(ms, 1) == if k >= 1 { squeezed(value) } else { Seq::<char>::empty() });
        assert(summary_from(ms, 0) == squeezed(value));
    }
    assert forall|i: int, j: int|
        0 <= i < j < 5 && squeezed(value).len() > 0 implies summary_of(
            JsonView::Object(seq![string_member(#[trigger] shown_keys()[j], other), string_member(#[trigger] shown_keys()[i], value)]),
        ) == squeezed(value) by {
        let m1 = string_member(shown_keys()[j], other);
        let m2 = string_member(shown_keys()[i], value);
        let ms = seq![m1, m2];
        assert forall|q: int| 0 <= q < 5 implies argument_of(ms, #[trigger] argument_key(q)) == if q == i {
            squeezed(value)
        } else if q == j {
            squeezed(other)
        } else {
            Seq::<char>::empty()
        } by {
            lemma_find_in_two(m1, m2, argument_key(q));
        }
        let a = argument_of(ms, argument_key(0));
        assert(summary_from(ms, i) == squeezed(value));
        if i >= 1 {
            assert(summary_from(ms, i - 1) == squeezed(value));
        }
        if i >= 2 {
            assert(summary_from(ms, i - 2) == squeezed(value));
        }
        if i >= 3 {
            assert(summary_from(ms, i - 3) == squeezed(value));
        }
        assert(summary_from(ms, 0) == squeezed(value));
    }
}

/// Nothing is shown for a member that is not a string, or whose key is not
/// one of the argument keys.
pub proof fn lemma_summary_skips_other_members(m: MemberView)
    requires
        !(m.text matches Ok(Some(_))) || (forall|k: int| 0 <= k < 5 ==> m.key != #[trigger] shown_keys()[k]),
    ensures
        summary_of(JsonView::Object(seq![m])) == Seq::<char>::empty(),
{
    lemma_keys_differ();
    let ms = seq![m];
    assert forall|q: int| 0 <= q < 5 implies argument_of(ms, #[trigger] argument_key(q)) == Seq::<char>::empty() by {
        lemma_find_in_one(m, argument_key(q));
        assert(argument_key(q) == shown_keys()[q]);
    }
    assert(argument_of(ms, argument_key(4)).len() == 0);
    assert(argument_of(ms, argument_key(3)).len() == 0);
    assert(argument_of(ms, argument_key(2)).len() == 0);
    assert(argument_of(ms, argument_key(1)).len() == 0);
    assert(argument_of(ms, argument_key(0)).len() == 0);
    assert(summary_from(ms, 5) == Seq::<char>::empty());
    assert(summary_from(ms, 4) == Seq::<char>::empty());
    assert(summary_from(ms, 3) == Seq::<char>::empty());
    assert(summary_from(ms, 2) == Seq::<char>::empty());
    assert(summary_from(ms, 1) == Seq::<char>::empty());
    assert(summary_from(ms, 0) == Seq::<char>::empty());
}

/// Events the reader thread forwards to the turn loop.
#[derive(Debug)]
pub enum Event {
    /// `pi` acknowledged the prompt; events before this are not this turn's content.
    Acked,
    Text(String),
    Error(String),
    Tool { name: String, args: JsonValue },
    Thinking,
    Settled,
    Failed(String),
    Closed,
}

/// What the turn loop sees when it looks: an event, no event within a tick
/// (and whether the turn's deadline has passed), a closed stream, or a Ctrl-C.
#[derive(Debug)]
pub enum Received {
    Event(Event),
    Timeout { expired: bool },
    Disconnected,
    Interrupted,
}

/// What the turn loop does next.
#[derive(Debug)]
pub enum Step {
    /// Nothing to show; keep listening.
    Wait,
    /// Show a tool call in the progress block.
    Tool { name: String, summary: String },
    /// Count a thinking block.
    Think,
    /// Advance the spinner.
    Tick,
    /// The turn is over; its texts and errors are in the loop.
    Settled,
    /// Stop pi: a Ctrl-C arrived.
    Interrupted,
    /// pi exited before the turn settled.
    Exited,
    /// The turn failed.
    Failed(String),
}

/// One turn: whether pi acknowledged the prompt, and what it said since.
#[derive(Debug)]
pub struct TurnLoop {
    pub started: bool,
    pub turn: Turn,
    pub timeout_secs: u64,
}

/// A turn as the laws see it: whether pi acknowledged the prompt, and the
/// texts and errors collected since.
pub struct TurnView {
    pub started: bool,
    pub texts: Seq<Seq<char>>,
    pub errors: Seq<Seq<char>>,
}

impl View for TurnLoop {
    type V = TurnView;

    open spec fn view(&self) -> TurnView {
        TurnView {
            started: self.started,
            texts: strings_view(self.turn.texts@),
            errors: strings_view(self.turn.errors@),
        }
    }
}

/// What an event does to the turn: the ack starts it, and once it is started
/// texts and errors are collected.
pub open spec fn after_event(v: TurnView, e: Event) -> TurnView {
    match e {
        Event::Acked => TurnView { started: true, ..v },
        Event::Text(t) => if v.started {
            TurnView { texts: v.texts.push(t@), ..v }
        } else {
            v
        },
        Event::Error(m) => if v.started {
            TurnView { errors: v.errors.push(m@), ..v }
        } else {
            v
        },
        _ => v,
    }
}

pub open spec fn after_received(v: TurnView, received: Received) -> TurnView {
    match received {
        Received::Event(e) => after_event(v, e),
        _ => v,
    }
}

/// Whether what was received ends the turn: a Ctrl-C, a closed stream, the
/// deadline, pi exiting or failing, or, once the turn started, settling.
pub open spec fn stops(v: TurnView, received: Received) -> bool {
    match received {
        Received::Interrupted => true,
        Received::Disconnected => true,
        Received::Timeout { expired } => expired,
        Received::Event(e) => match e {
            Event::Closed => true,
            Event::Failed(_) => true,
            Event::Settled => v.started,
            _ => false,
        },
    }
}

/// What a step shows in the progress block, or whether it ends the turn.
pub enum Shown {
    Nothing,
    Tool { name: Seq<char>, summary: Seq<char> },
    Think,
    Tick,
    Ends,
}

pub open spec fn shown(step: Step) -> Shown {
    match step {
        Step::Wait => Shown::Nothing,
        Step::Tool { name, summary } => Shown::Tool { name: name@, summary: summary@ },
        Step::Think => Shown::Think,
        Step::Tick => Shown::Tick,
        _ => Shown::Ends,
    }
}

/// What an event shows once the turn started: a tool call with its
/// argument, a thinking block, or nothing.
pub open spec fn shown_in_turn(e: Event) -> Shown {
    match e {
        Event::Tool { name, args } => Shown::Tool { name: name@, summary: summary_of(args@) },
        Event::Thinking => Shown::Think,
        _ => Shown::Nothing,
    }
}

/// What the turn loop shows for what it received: the end of the turn,
/// a spinner tick while waiting, and nothing before the ack.
pub open spec fn shown_of(v: TurnView, received: Received) -> Shown {
    if stops(v, received) {
        Shown::Ends
    } else {
        match received {
            Received::Event(e) => if v.started {
                shown_in_turn(e)
            } else {
                Shown::Nothing
            },
            Received::Timeout { .. } => Shown::Tick,
            _ => Shown::Nothing,
        }
    }
}

pub open spec fn is_end(step: Step) -> bool {
    step is Settled || step is Interrupted || step is Exited || step is Failed
}

/// The turn after a run of events, from the first on.
pub open spec fn run_events(v: TurnView, es: Seq<Event>) -> TurnView
    decreases es.len(),
{
    if es.len() == 0 {
        v
    } else {
        after_event(run_events(v, es.drop_last()), es.last())
    }
}

/// The texts of the text events, in order.
pub open spec fn texts_of(es: Seq<Event>) -> Seq<Seq<char>>
    decreases es.len(),
{
    if es.len() == 0 {
        Seq::empty()
    } else {
        match es.last() {
            Event::Text(t) => texts_of(es.drop_last()).push(t@),
            _ => texts_of(es.drop_last()),
        }
    }
}

/// The messages of the error events, in order.
pub open spec fn errors_of(es: Seq<Event>) -> Seq<Seq<char>>
    decreases es.len(),
{
    if es.len() == 0 {
        Seq::empty()
    } else {
        match es.last() {
            Event::Error(m) => errors_of(es.drop_last()).push(m@),
            _ => errors_of(es.drop_last()),
        }
    }
}

pub open spec fn fresh_turn() -> TurnView {
    TurnView { started: false, texts: Seq::empty(), errors: Seq::empty() }
}

proof fn lemma_run_concat(v: TurnView, a: Seq<Event>, b: Seq<Event>)
    ensures
        run_events(v, a + b) == run_events(run_events(v, a), b),
    decreases b.len(),
{
    if b.len() == 0 {
        assert(a + b =~= a);
    } else {
        lemma_run_concat(v, a, b.drop_last());
        assert((a + b).drop_last() =~= a + b.drop_last());
    }
}

/// Before the ack nothing changes the turn.
proof fn lemma_before_ack(pre: Seq<Event>, n: int)
    requires
        0 <= n <= pre.len(),
        forall|i: int| 0 <= i < pre.len() ==> !(#[trigger] pre[i] is Acked),
    ensures
        run_events(fresh_turn(), pre.take(n)) == fresh_turn(),
    decreases n,
{
    if n > 0 {
        lemma_before_ack(pre, n - 1);
        assert(pre.take(n).drop_last() =~= pre.take(n - 1));
    }
}

/// After the ack the turn collects the texts and errors, in order.
proof fn lemma_after_ack(body: Seq<Event>, n: int)
    requires
        0 <= n <= body.len(),
    ensures
        run_events(TurnView { started: true, ..fresh_turn() }, body.take(n)) == (TurnView {
            started: true,
            texts: texts_of(body.take(n)),
            errors: errors_of(body.take(n)),
        }),
    decreases n,
{
    if n > 0 {
        lemma_after_ack(body, n - 1);
        assert(body.take(n).drop_last() =~= body.take(n - 1));
    }
}

/// Nothing before the prompt's ack belongs to the turn. When pi first sends
/// events that are not the ack (replayed messages of a resumed session,
/// say), then the ack, then events that do not end the turn: no event ends
/// the turn, nothing before the ack is shown, every tool call and thinking
/// block after it is shown, the turn holds exactly the texts and errors that
/// came after the ack, and what comes next ends it if it is the settling,
/// pi exiting or a failure.
pub proof fn lemma_turn_is_what_follows_the_ack(pre: Seq<Event>, body: Seq<Event>)
    requires
        forall|i: int|
            0 <= i < pre.len() ==> !(#[trigger] pre[i] is Acked) && !(pre[i] is Closed) && !(pre[i] is Failed),
        forall|i: int|
            0 <= i < body.len() ==> !(#[trigger] body[i] is Closed) && !(body[i] is Failed) && !(
            body[i] is Settled),
    ensures
        ({
            let es = pre.push(Event::Acked) + body;
            &&& forall|i: int|
                0 <= i < es.len() ==> !stops(run_events(fresh_turn(), #[trigger] es.take(i)), Received::Event(es[i]))
            &&& forall|i: int|
                0 <= i < pre.len() ==> shown_of(run_events(fresh_turn(), #[trigger] es.take(i)), Received::Event(es[i]))
                    == Shown::Nothing
            &&& forall|j: int|
                0 <= j < body.len() ==> shown_of(
                    run_events(fresh_turn(), #[trigger] es.take(pre.len() + 1 + j)),
                    Received::Event(body[j]),
                ) == shown_in_turn(body[j])
            &&& stops(run_events(fresh_turn(), es), Received::Event(Event::Settled))
            &&& stops(run_events(fresh_turn(), es), Received::Event(Event::Closed))
            &&& forall|m: String| #[trigger] stops(run_events(fresh_turn(), es), Received::Event(Event::Failed(m)))
            &&& run_events(fresh_turn(), es) == (TurnView {
                started: true,
                texts: texts_of(body),
                errors: errors_of(body),
            })
        }),
{
    let es = pre.push(Event::Acked) + body;
    let acked = TurnView { started: true, ..fresh_turn() };
    lemma_before_ack(pre, pre.len() as int);
    assert(pre.take(pre.len() as int) =~= pre);
    assert(run_events(fresh_turn(), pre.push(Event::Acked)) == acked) by {
        assert(pre.push(Event::Acked).drop_last() =~= pre);
    }
    assert forall|i: int| 0 <= i < es.len() implies !stops(
        run_events(fresh_turn(), #[trigger] es.take(i)),
        Received::Event(es[i]),
    ) by {
        if i < pre.len() {
            assert(es.take(i) =~= pre.take(i));
            lemma_before_ack(pre, i);
            assert(es[i] == pre[i]);
        } else if i == pre.len() {
            assert(es[i] == Event::Acked);
        } else {
            let j = i - pre.len() - 1;
            assert(es.take(i) =~= pre.push(Event::Acked) + body.take(j));
            lemma_run_concat(fresh_turn(), pre.push(Event::Acked), body.take(j));
            lemma_after_ack(body, j);
            assert(es[i] == body[j]);
        }
    }
    assert forall|j: int| 0 <= j < body.len() implies shown_of(
        run_events(fresh_turn(), #[trigger] es.take(pre.len() + 1 + j)),
        Received::Event(body[j]),
    ) == shown_in_turn(body[j]) by {
        assert(es.take(pre.len() + 1 + j) =~= pre.push(Event::Acked) + body.take(j));
        lemma_run_concat(fresh_turn(), pre.push(Event::Acked), body.take(j));
        lemma_after_ack(body, j);
    }
    assert forall|i: int| 0 <= i < pre.len() implies shown_of(
        run_events(fresh_turn(), #[trigger] es.take(i)),
        Received::Event(es[i]),
    ) == Shown::Nothing by {
        assert(es.take(i) =~= pre.take(i));
        lemma_before_ack(pre, i);
        assert(es[i] == pre[i]);
    }
    lemma_run_concat(fresh_turn(), pre.push(Event::Acked), body);
    lemma_after_ack(body, body.len() as int);
    assert(body.take(body.len() as int) =~= body);
}

pub open spec fn settle_message(secs: nat) -> Seq<char> {
    "pi did not settle within "@ + decimal_text(secs) + "s"@
}

pub open spec fn exited_message(status: Seq<char>) -> Seq<char> {
    "pi exited early ("@ + status + ")"@
}

/// Why a turn failed when pi exited before it settled.
pub fn exited_early(status: &str) -> (r: String)
    ensures
        r@ == exited_message(status@),
{
    let mut m = "pi exited early (".to_owned();
    m.append(status);
    m.append(")");
    m
}

impl TurnLoop {
    pub fn new(timeout_secs: u64) -> (r: TurnLoop)
        ensures
            !r.started,
            r.turn.texts@.len() == 0,
            r.turn.errors@.len() == 0,
            r.timeout_secs == timeout_secs,
    {
        TurnLoop { started: false, turn: Turn { texts: Vec::new(), errors: Vec::new() }, timeout_secs }
    }

    /// Handle what the loop received. Nothing before the prompt's ack
    /// belongs to this turn: a resumed session may replay earlier messages,
    /// and they must not become the answer to the new command.
    pub fn step(&mut self, received: Received) -> (r: Step)
        ensures
            final(self).timeout_secs == old(self).timeout_secs,
            final(self)@ == after_received(old(self)@, received),
            is_end(r) <==> stops(old(self)@, received),
            shown(r) == shown_of(old(self)@, received),
            match received {
                Received::Interrupted => r is Interrupted && *final(self) == *old(self),
                Received::Disconnected => (r matches Step::Failed(e) && e@ == "pi stream closed"@)
                    && *final(self) == *old(self),
                Received::Timeout { expired } => *final(self) == *old(self) && if expired {
                    r matches Step::Failed(e) && e@ == settle_message(old(self).timeout_secs as nat)
                } else {
                    r is Tick
                },
                Received::Event(event) => match event {
                    Event::Acked => r is Wait && final(self).started && final(self).turn
                        == old(self).turn,
                    Event::Closed => r is Exited && *final(self) == *old(self),
                    Event::Failed(e) => (r matches Step::Failed(f) && f == e) && *final(self)
                        == *old(self),
                    _ => if !old(self).started {
                        r is Wait && *final(self) == *old(self)
                    } else {
                        final(self).started && match event {
                            Event::Settled => r is Settled && final(self).turn == old(self).turn,
                            Event::Text(t) => r is Wait && final(self).turn.texts@ == old(
                                self,
                            ).turn.texts@.push(t) && final(self).turn.errors == old(self).turn.errors,
                            Event::Error(e) => r is Wait && final(self).turn.errors@ == old(
                                self,
                            ).turn.errors@.push(e) && final(self).turn.texts == old(self).turn.texts,
                            Event::Tool { name, args } => (r matches Step::Tool { name: n, summary: s }
                                && n == name && s@ == summary_of(args@)) && final(self).turn == old(
                                self,
                            ).turn,
                            Event::Thinking => r is Think && final(self).turn == old(self).turn,
                            _ => false,
                        }
                    },
                },
            },
    {
        match received {
            Received::Interrupted => Step::Interrupted,
            Received::Disconnected => Step::Failed("pi stream closed".to_owned()),
            Received::Timeout { expired } => {
                if expired {
                    let mut m = "pi did not settle within ".to_owned();
                    push_decimal(&mut m, self.timeout_secs);
                    m.append("s");
                    Step::Failed(m)
                } else {
                    Step::Tick
                }
            },
            Received::Event(event) => match event {
                Event::Acked => {
                    self.started = true;
                    Step::Wait
                },
                Event::Closed => Step::Exited,
                Event::Failed(e) => Step::Failed(e),
                event => {
                    if !self.started {
                        return Step::Wait;
                    }
                    match event {
                        Event::Settled => Step::Settled,
                        Event::Text(t) => {
                            let ghost before = self.turn.texts@;
                            self.turn.texts.push(t);
                            assert(strings_view(self.turn.texts@) =~= strings_view(before).push(t@));
                            Step::Wait
                        },
                        Event::Error(e) => {
                            let ghost before = self.turn.errors@;
                            self.turn.errors.push(e);
                            assert(strings_view(self.turn.errors@) =~= strings_view(before).push(e@));
                            Step::Wait
                        },
                        Event::Tool { name, args } => {
                            let s = summary(&args);
                            Step::Tool { name, summary: s }
                        },
                        Event::Thinking => Step::Think,
                        _ => Step::Wait,
                    }
                },
            },
        }
    }
}

/// How a turn ended.
#[derive(Debug)]
pub enum TurnEnd {
    /// pi settled; what it said.
    Settled(Turn),
    /// A Ctrl-C stopped the turn.
    Interrupted,
    /// The turn failed for a reason of its own.
    Failed(String),
}

/// What the retry loop does after a turn.
#[derive(Debug)]
pub enum AskStep {
    /// Ask again in the same session with this message.
    Send(String),
    /// The answer parsed.
    Answered(Answer),
    /// No answer; the failure to report.
    GaveUp(Failure),
}

/// The retry loop: how many turns were retried so far, and what went wrong.
#[derive(Debug)]
pub struct Asking {
    pub retries: u32,
    pub attempt: u32,
    pub failure: Failure,
}

pub open spec fn gave_up_message(retries: nat, reason: Seq<char>) -> Seq<char> {
    "pi did not return the expected answer JSON after "@ + decimal_text(retries + 1) + " turns ("@
        + reason + ")"@
}

pub open spec fn last_text_of(texts: Seq<String>) -> Option<Seq<char>> {
    if texts.len() == 0 {
        None
    } else {
        Some(texts.last()@)
    }
}

pub open spec fn opt_text_view(o: Option<String>) -> Option<Seq<char>> {
    match o {
        Some(s) => Some(s@),
        None => None,
    }
}

/// What the retry loop does after a settled turn, as the laws see it.
pub enum Asked {
    /// Ask again with this message.
    Send(Seq<char>),
    /// The answer.
    Answered(AnswerView),
    /// No answer: the reason, the last text of the last turn, and every
    /// error pi reported on the way.
    GaveUp { reason: Seq<char>, last_text: Option<Seq<char>>, errors: Seq<Seq<char>> },
}

pub open spec fn asked_view(r: AskStep) -> Asked {
    match r {
        AskStep::Send(m) => Asked::Send(m@),
        AskStep::Answered(a) => Asked::Answered(a@),
        AskStep::GaveUp(f) => Asked::GaveUp {
            reason: f.reason@,
            last_text: opt_text_view(f.last_text),
            errors: strings_view(f.errors@),
        },
    }
}

pub open spec fn last_of(ts: Seq<Seq<char>>) -> Option<Seq<char>> {
    if ts.len() == 0 {
        None
    } else {
        Some(ts.last())
    }
}

pub open spec fn retry_text(reason: Seq<char>) -> Seq<char> {
    "Your previous message did not contain a valid answer JSON object ("@ + reason
        + "). Reply with exactly one JSON object matching the answer schema, and nothing else."@
}

/// After a settled turn with these texts and errors, `attempt` turns
/// retried so far and `errors` collected before: the answer, a new ask, or
/// giving up.
pub open spec fn ask_settled(
    attempt: nat,
    retries: nat,
    errors: Seq<Seq<char>>,
    texts: Seq<Seq<char>>,
    turn_errors: Seq<Seq<char>>,
) -> Asked {
    match parse_answer_spec(texts) {
        Ok(a) => Asked::Answered(a),
        Err(reason) => if attempt < retries {
            Asked::Send(retry_text(reason))
        } else {
            Asked::GaveUp {
                reason: gave_up_message(retries, reason),
                last_text: last_of(texts),
                errors: errors + turn_errors,
            }
        },
    }
}

/// How a turn ended, as the laws see it.
pub enum Ended {
    Settled { texts: Seq<Seq<char>>, errors: Seq<Seq<char>> },
    Interrupted,
    Failed(Seq<char>),
}

pub open spec fn ended_view(end: TurnEnd) -> Ended {
    match end {
        TurnEnd::Settled(turn) => Ended::Settled {
            texts: strings_view(turn.texts@),
            errors: strings_view(turn.errors@),
        },
        TurnEnd::Interrupted => Ended::Interrupted,
        TurnEnd::Failed(reason) => Ended::Failed(reason@),
    }
}

/// What the retry loop does after a turn, given how many turns it retried,
/// the errors collected and the last text kept so far: a settled turn is
/// answered, asked again or given up; an interrupted or failed turn gives up
/// at once, with what was kept.
pub open spec fn ask_after(
    attempt: nat,
    retries: nat,
    errors: Seq<Seq<char>>,
    last_text: Option<Seq<char>>,
    end: Ended,
) -> Asked {
    match end {
        Ended::Settled { texts, errors: turn_errors } => ask_settled(attempt, retries, errors, texts, turn_errors),
        Ended::Interrupted => Asked::GaveUp { reason: "interrupted"@, last_text, errors },
        Ended::Failed(reason) => Asked::GaveUp { reason, last_text, errors },
    }
}

/// The retry loop over the turns' ends: how many turns it takes and how it
/// ends.
pub open spec fn ask_run(
    attempt: nat,
    retries: nat,
    errors: Seq<Seq<char>>,
    last_text: Option<Seq<char>>,
    turns: Seq<Ended>,
) -> (nat, Asked)
    decreases turns.len(),
{
    if turns.len() == 0 {
        (0, Asked::Send(Seq::empty()))
    } else {
        let o = ask_after(attempt, retries, errors, last_text, turns[0]);
        match turns[0] {
            Ended::Settled { texts, errors: turn_errors } => match o {
                Asked::Send(_) => {
                    let rest = ask_run(
                        attempt + 1,
                        retries,
                        errors + turn_errors,
                        last_of(texts),
                        turns.drop_first(),
                    );
                    (rest.0 + 1, rest.1)
                },
                _ => (1, o),
            },
            _ => (1, o),
        }
    }
}

/// Whether a turn settled without an answer, so the loop may go on.
pub open spec fn goes_on(turns: Seq<Ended>, j: int) -> bool {
    turns[j] matches Ended::Settled { texts, .. } && parse_answer_spec(texts) is Err
}

pub open spec fn texts_of_end(e: Ended) -> Seq<Seq<char>> {
    match e {
        Ended::Settled { texts, .. } => texts,
        _ => Seq::empty(),
    }
}

pub open spec fn errors_of_end(e: Ended) -> Seq<Seq<char>> {
    match e {
        Ended::Settled { errors, .. } => errors,
        _ => Seq::empty(),
    }
}

/// Every error the settled turns reported, in order.
pub open spec fn settled_errors(turns: Seq<Ended>) -> Seq<Seq<char>>
    decreases turns.len(),
{
    if turns.len() == 0 {
        Seq::empty()
    } else {
        errors_of_end(turns[0]) + settled_errors(turns.drop_first())
    }
}

/// The last text kept before turn `j`: the last text of the turn before it.
pub open spec fn kept_text(turns: Seq<Ended>, j: int, first: Option<Seq<char>>) -> Option<Seq<char>> {
    if j == 0 {
        first
    } else {
        last_of(texts_of_end(turns[j - 1]))
    }
}

/// The retry exchange. The loop ends at the first turn that answers, is
/// interrupted or fails, and ends as that turn says: with its answer, or
/// giving up with its reason ("interrupted" after a Ctrl-C), the last text
/// of the turn before and every error reported so far; before that turn,
/// each settled turn without an answer is asked again with its reason. When
/// none of the first `retries + 1` turns ends it, it gives up after exactly
/// those turns, with the last reason, the last text and every error. So
/// the model is asked at most `retries + 1` times.
pub proof fn lemma_retry_exchange(retries: nat, turns: Seq<Ended>)
    requires
        turns.len() > retries,
    ensures
        1 <= ask_run(0, retries, Seq::empty(), None, turns).0 <= retries + 1,
        forall|j: int|
            0 <= j <= retries && !#[trigger] goes_on(turns, j) && (forall|i: int|
                0 <= i < j ==> #[trigger] goes_on(turns, i)) ==> ask_run(0, retries, Seq::empty(), None, turns)
                == (
                (j + 1) as nat,
                ask_after(j as nat, retries, settled_errors(turns.take(j)), kept_text(turns, j, None), turns[j]),
            ),
        (forall|j: int| 0 <= j <= retries ==> #[trigger] goes_on(turns, j)) ==> ask_run(
            0,
            retries,
            Seq::empty(),
            None,
            turns,
        ) == (
            retries + 1,
            Asked::GaveUp {
                reason: gave_up_message(retries, parse_answer_spec(texts_of_end(turns[retries as int]))->Err_0),
                last_text: last_of(texts_of_end(turns[retries as int])),
                errors: settled_errors(turns.take(retries + 1int)),
            },
        ),
{
    lemma_ask_run_from(0, retries, Seq::empty(), None, turns);
    assert forall|j: int| 0 <= j <= retries implies Seq::<Seq<char>>::empty() + settled_errors(turns.take(j))
        =~= settled_errors(turns.take(j)) by {}
    assert(Seq::<Seq<char>>::empty() + settled_errors(turns.take(retries + 1int)) =~= settled_errors(
        turns.take(retries + 1int),
    ));
}

proof fn lemma_settled_errors_step(turns: Seq<Ended>, k: int)
    requires
        0 <= k < turns.len(),
    ensures
        settled_errors(turns.take(k + 1)) == errors_of_end(turns[0]) + settled_errors(turns.drop_first().take(k)),
{
    assert(turns.take(k + 1).drop_first() =~= turns.drop_first().take(k));
    assert(turns.take(k + 1)[0] == turns[0]);
}

proof fn lemma_ask_run_from(
    attempt: nat,
    retries: nat,
    errors: Seq<Seq<char>>,
    last_text: Option<Seq<char>>,
    turns: Seq<Ended>,
)
    requires
        attempt <= retries,
        turns.len() > retries - attempt,
    ensures
        1 <= ask_run(attempt, retries, errors, last_text, turns).0 <= retries - attempt + 1,
        forall|j: int|
            0 <= j <= retries - attempt && !#[trigger] goes_on(turns, j) && (forall|i: int|
                0 <= i < j ==> #[trigger] goes_on(turns, i)) ==> ask_run(attempt, retries, errors, last_text, turns)
                == (
                (j + 1) as nat,
                ask_after(
                    (attempt + j) as nat,
                    retries,
                    errors + settled_errors(turns.take(j)),
                    kept_text(turns, j, last_text),
                    turns[j],
                ),
            ),
        (forall|j: int| 0 <= j <= retries - attempt ==> #[trigger] goes_on(turns, j)) ==> ask_run(
            attempt,
            retries,
            errors,
            last_text,
            turns,
        ) == (
            (retries - attempt + 1) as nat,
            Asked::GaveUp {
                reason: gave_up_message(retries, parse_answer_spec(texts_of_end(turns[retries - attempt]))->Err_0),
                last_text: last_of(texts_of_end(turns[retries - attempt])),
                errors: errors + settled_errors(turns.take(retries - attempt + 1)),
            },
        ),
    decreases retries - attempt,
{
    let rest = turns.drop_first();
    assert(turns.take(0) =~= Seq::<Ended>::empty());
    assert(errors + settled_errors(turns.take(0)) =~= errors);
    lemma_settled_errors_step(turns, 0);
    assert(rest.take(0) =~= Seq::<Ended>::empty());
    assert(errors_of_end(turns[0]) + settled_errors(rest.take(0)) =~= errors_of_end(turns[0]));
    if goes_on(turns, 0) && attempt < retries {
        let texts = texts_of_end(turns[0]);
        let te = errors_of_end(turns[0]);
        lemma_ask_run_from(attempt + 1, retries, errors + te, last_of(texts), rest);
        assert forall|j: int| 0 <= j < rest.len() implies rest[j] == turns[j + 1] by {}
        assert forall|j: int|
            0 <= j <= retries - attempt && !#[trigger] goes_on(turns, j) && (forall|i: int|
                0 <= i < j ==> #[trigger] goes_on(turns, i)) implies ask_run(attempt, retries, errors, last_text, turns)
            == (
            (j + 1) as nat,
            ask_after(
                (attempt + j) as nat,
                retries,
                errors + settled_errors(turns.take(j)),
                kept_text(turns, j, last_text),
                turns[j],
            ),
        ) by {
            assert(j > 0);
            assert(!goes_on(rest, j - 1));
            assert forall|i: int| 0 <= i < j - 1 implies #[trigger] goes_on(rest, i) by {
                assert(goes_on(turns, i + 1));
            }
            lemma_settled_errors_step(turns, j - 1);
            assert(turns.take(j) =~= turns.take(j - 1 + 1));
            assert(errors + te + settled_errors(rest.take(j - 1)) =~= errors + settled_errors(turns.take(j)));
            if j - 1 == 0 {
                assert(kept_text(turns, j, last_text) == last_of(texts));
            } else {
                assert(kept_text(rest, j - 1, last_of(texts)) == kept_text(turns, j, last_text));
            }
        }
        if forall|j: int| 0 <= j <= retries - attempt ==> #[trigger] goes_on(turns, j) {
            assert forall|j: int| 0 <= j <= retries - (attempt + 1) implies #[trigger] goes_on(rest, j) by {
                assert(goes_on(turns, j + 1));
            }
            let k = retries - attempt;
            lemma_settled_errors_step(turns, k);
            assert(errors + te + settled_errors(rest.take(k)) =~= errors + settled_errors(turns.take(k + 1)));
        }
    } else if goes_on(turns, 0) {
        assert(errors + errors_of_end(turns[0]) =~= errors + settled_errors(turns.take(1)));
    }
}

/// Whether the retry loop asks again after a settled turn: only when the
/// turn held no answer and fewer than `retries` turns were retried.
pub open spec fn asks_again(attempt: nat, retries: nat, answered: bool) -> bool {
    !answered && attempt < retries
}

/// How many times the retry loop asks again, from `attempt` on, when the
/// settled turns answer or not as `answered` says, in order.
pub open spec fn retried_turns(attempt: nat, retries: nat, answered: Seq<bool>) -> nat
    decreases answered.len(),
{
    if answered.len() > 0 && asks_again(attempt, retries, answered[0]) {
        1 + retried_turns(attempt + 1, retries, answered.drop_first())
    } else {
        0
    }
}

/// The model is asked at most `retries + 1` times per call: whatever the
/// turns answer, the retry loop asks again at most `retries` times.
pub proof fn lemma_retries_are_bounded(retries: nat, answered: Seq<bool>)
    ensures
        retried_turns(0, retries, answered) <= retries,
{
    lemma_retried_from(0, retries, answered);
}

proof fn lemma_retried_from(attempt: nat, retries: nat, answered: Seq<bool>)
    requires
        attempt <= retries,
    ensures
        attempt + retried_turns(attempt, retries, answered) <= retries,
    decreases answered.len(),
{
    if answered.len() > 0 && asks_again(attempt, retries, answered[0]) {
        lemma_retried_from(attempt + 1, retries, answered.drop_first());
    }
}

impl Asking {
    /// Before the first turn; the first message is the input itself.
    pub fn new(retries: u32) -> (r: Asking)
        ensures
            r.retries == retries,
            r.attempt == 0,
            r.failure.reason@ == "no answer"@,
            r.failure.last_text is None,
            r.failure.errors@.len() == 0,
    {
        Asking {
            retries,
            attempt: 0,
            failure: Failure { reason: "no answer".to_owned(), last_text: None, errors: Vec::new() },
        }
    }

    /// After a turn: an answer ends the loop, a text without one is asked
    /// again in the same session until `retries` turns were retried, and a
    /// failed or interrupted turn ends it at once.
    pub fn after_turn(&mut self, end: TurnEnd) -> (r: AskStep)
        requires
            old(self).attempt <= old(self).retries,
        ensures
            final(self).retries == old(self).retries,
            final(self).attempt <= final(self).retries,
            r is Send ==> final(self).attempt == old(self).attempt + 1,
            match end {
                TurnEnd::Settled(turn) => r is Send <==> asks_again(
                    old(self).attempt as nat,
                    old(self).retries as nat,
                    parse_answer_spec(strings_view(turn.texts@)) is Ok,
                ),
                _ => r is GaveUp,
            },
            asked_view(r) == ask_after(
                old(self).attempt as nat,
                old(self).retries as nat,
                strings_view(old(self).failure.errors@),
                opt_text_view(old(self).failure.last_text),
                ended_view(end),
            ),
            match end {
                TurnEnd::Interrupted => {
                    &&& r matches AskStep::GaveUp(f)
                    &&& f.reason@ == "interrupted"@
                    &&& f.last_text == old(self).failure.last_text
                    &&& f.errors == old(self).failure.errors
                },
                TurnEnd::Failed(reason) => r matches AskStep::GaveUp(f) && f.reason == reason
                    && f.last_text == old(self).failure.last_text && f.errors == old(
                    self,
                ).failure.errors,
                TurnEnd::Settled(turn) => {
                    let texts = strings_view(turn.texts@);
                    &&& parse_answer_spec(texts) is Ok || old(self).attempt < old(self).retries ==> {
                        &&& opt_text_view(final(self).failure.last_text) == last_text_of(turn.texts@)
                        &&& final(self).failure.errors@ == old(self).failure.errors@ + turn.errors@
                    }
                    &&& match parse_answer_spec(texts) {
                        Ok(a) => r matches AskStep::Answered(answer) && answer@ == a,
                        Err(reason) => if old(self).attempt < old(self).retries {
                            &&& final(self).attempt == old(self).attempt + 1
                            &&& final(self).failure.reason@ == reason
                            &&& r matches AskStep::Send(m) && m@
                                == "Your previous message did not contain a valid answer JSON object ("@
                                + reason
                                + "). Reply with exactly one JSON object matching the answer schema, and nothing else."@
                        } else {
                            r matches AskStep::GaveUp(f) && f.reason@ == gave_up_message(
                                old(self).retries as nat,
                                reason,
                            ) && opt_text_view(f.last_text) == last_text_of(turn.texts@)
                                && f.errors@ == old(self).failure.errors@ + turn.errors@
                        },
                    }
                },
            },
    {
        match end {
            TurnEnd::Interrupted => {
                self.failure.reason = "interrupted".to_owned();
                AskStep::GaveUp(self.take_failure())
            },
            TurnEnd::Failed(reason) => {
                self.failure.reason = reason;
                AskStep::GaveUp(self.take_failure())
            },
            TurnEnd::Settled(turn) => {
                let Turn { texts, errors } = turn;
                let n = texts.len();
                self.failure.last_text = if n > 0 {
                    Some(texts[n - 1].clone())
                } else {
                    None
                };
                let ghost turn_errors = errors@;
                let ghost before = self.failure.errors@;
                let mut errors = errors;
                self.failure.errors.append(&mut errors);
                proof {
                    assert(strings_view(before + turn_errors) =~= strings_view(before) + strings_view(
                        turn_errors,
                    ));
                    if n > 0 {
                        assert(strings_view(texts@).last() == texts@.last()@);
                    }
                }
                match parse_answer(texts.as_slice()) {
                    Ok(answer) => AskStep::Answered(answer),
                    Err(reason) => {
                        if self.attempt < self.retries {
                            self.attempt = self.attempt + 1;
                            let message = retry_prompt(reason.as_str());
                            self.failure.reason = reason;
                            AskStep::Send(message)
                        } else {
                            let mut m = "pi did not return the expected answer JSON after ".to_owned();
                            push_decimal(&mut m, self.retries as u64 + 1);
                            m.append(" turns (");
                            m.append(reason.as_str());
                            m.append(")");
                            self.failure.reason = m;
                            AskStep::GaveUp(self.take_failure())
                        }
                    },
                }
            },
        }
    }

    fn take_failure(&mut self) -> (r: Failure)
        ensures
            r == old(self).failure,
            final(self).retries == old(self).retries,
            final(self).attempt == old(self).attempt,
    {
        let mut out = Failure { reason: String::new(), last_text: None, errors: Vec::new() };
        std::mem::swap(&mut out, &mut self.failure);
        out
    }
}

} // verus!
