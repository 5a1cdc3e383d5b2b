//! What the shell passes to the agent, what the agent answers, and how an
//! answer is found in the assistant's text.

use vstd::prelude::*;

use vstd::string::*;

use crate::text::{strings_view, to_chars};

verus! {

/// What the shell passes to the agent.
#[derive(Debug)]
pub struct Input {
    /// Session id of this shell conversation; also exported as
    /// COMMAND_NOT_FOUND_SESSION_ID.
    pub session_id: String,
    /// Shell that will source the answer.
    pub shell: String,
    /// Directory the command was typed in.
    pub cwd: Option<String>,
    /// Command line the user typed.
    pub input: Option<String>,
    /// pi's session file of this conversation.
    pub session_file: String,
    /// The adapter's state directory, where the notes live.
    pub state_dir: String,
}

/// What the agent must answer with; both fields are optional.
#[derive(Debug)]
pub struct Answer {
    /// Short note shown to the user, rendered as Markdown on stderr.
    pub markdown: Option<String>,
    /// Shell code for the caller to source, printed on stdout unchanged.
    pub source: Option<String>,
}

/// An [`Answer`] as mathematical text.
pub struct AnswerView {
    pub markdown: Option<Seq<char>>,
    pub source: Option<Seq<char>>,
}

pub open spec fn opt_text(o: Option<String>) -> Option<Seq<char>> {
    match o {
        Some(s) => Some(s@),
        None => None,
    }
}

impl View for Answer {
    type V = AnswerView;

    open spec fn view(&self) -> AnswerView {
        AnswerView { markdown: opt_text(self.markdown), source: opt_text(self.source) }
    }
}

/// One member of a JSON object: its key, and serde_json's reading of its
/// value as an optional string (`Ok(None)` for `null`, `Ok(Some(s))` for a
/// string, `Err(message)` for any other value).
#[derive(Debug)]
pub struct Member {
    pub key: String,
    pub text: Result<Option<String>, String>,
}

pub struct MemberView {
    pub key: Seq<char>,
    pub text: Result<Option<Seq<char>>, Seq<char>>,
}

pub open spec fn text_view(t: Result<Option<String>, String>) -> Result<Option<Seq<char>>, Seq<char>> {
    match t {
        Ok(o) => Ok(opt_text(o)),
        Err(e) => Err(e@),
    }
}

impl View for Member {
    type V = MemberView;

    open spec fn view(&self) -> MemberView {
        MemberView { key: self.key@, text: text_view(self.text) }
    }
}

/// A JSON value as the adapter reads it: an object with its members in
/// order, or some value that is not an object.
#[derive(Debug)]
pub enum JsonValue {
    Object(Vec<Member>),
    Other,
}

pub enum JsonView {
    Object(Seq<MemberView>),
    Other,
}

pub open spec fn members_view(ms: Seq<Member>) -> Seq<MemberView> {
    ms.map_values(|m: Member| m@)
}

impl View for JsonValue {
    type V = JsonView;

    open spec fn view(&self) -> JsonView {
        match self {
            JsonValue::Object(ms) => JsonView::Object(members_view(ms@)),
            JsonValue::Other => JsonView::Other,
        }
    }
}

pub open spec fn parsed_view(p: Option<Result<JsonValue, String>>) -> Option<Result<JsonView, Seq<char>>> {
    match p {
        None => None,
        Some(Ok(v)) => Some(Ok(v@)),
        Some(Err(e)) => Some(Err(e@)),
    }
}

/// The first JSON value that serde_json's stream deserializer reads at the
/// start of a text: `None` when the text holds no value at all, the error
/// message when the text does not start with valid JSON.
pub uninterp spec fn first_json_value(text: Seq<char>) -> Option<Result<JsonView, Seq<char>>>;

/// Reads the first JSON value at the start of `text` with
/// `serde_json::Deserializer::from_str(..).into_iter::<Value>().next()`,
/// and converts it: an object member by member, each member's value
/// read by `serde_json::from_value::<Option<String>>`, errors by their
/// `Display` text. The contract names the result and says nothing more
/// of serde_json's grammar.
#[verifier::external_body]
pub(crate) fn read_json_value(text: &str) -> (r: Option<Result<JsonValue, String>>)
    ensures
        parsed_view(r) == first_json_value(text@),
{
    let value = serde_json::Deserializer::from_str(text).into_iter::<serde_json::Value>().next()?;
    Some(value.map_err(|error| error.to_string()).map(|value| match value {
        serde_json::Value::Object(map) => JsonValue::Object(map.into_iter().map(|(key, value)| Member {
            key,
            text: serde_json::from_value::<Option<String>>(value).map_err(|error| error.to_string()),
        }).collect()),
        _ => JsonValue::Other,
    }))
}

/// The member text of the first member with `key`, if any.
pub open spec fn find_member(ms: Seq<MemberView>, key: Seq<char>) -> Option<Result<Option<Seq<char>>, Seq<char>>>
    decreases ms.len(),
{
    if ms.len() == 0 {
        None
    } else {
        match find_member(ms.drop_last(), key) {
            Some(t) => Some(t),
            None => if ms.last().key == key { Some(ms.last().text) } else { None },
        }
    }
}

/// Whether a key is one of the two answer fields.
pub open spec fn is_answer_key(key: Seq<char>) -> bool {
    key == "markdown"@ || key == "source"@
}

/// The error of the first answer field whose value is not a string or null.
pub open spec fn first_field_error(ms: Seq<MemberView>) -> Option<Seq<char>>
    decreases ms.len(),
{
    if ms.len() == 0 {
        None
    } else {
        match first_field_error(ms.drop_last()) {
            Some(e) => Some(e),
            None => if is_answer_key(ms.last().key) {
                match ms.last().text {
                    Err(e) => Some(e),
                    Ok(_) => None,
                }
            } else {
                None
            },
        }
    }
}

/// The string an answer field holds: absent, `null` and invalid all give none.
pub open spec fn field_text(t: Option<Result<Option<Seq<char>>, Seq<char>>>) -> Option<Seq<char>> {
    match t {
        Some(Ok(Some(s))) => Some(s),
        _ => None,
    }
}

/// An object is an answer when it carries at least one of the two fields
/// and each of them is a string or `null`; anything else is some other JSON
/// value in the model's prose.
pub open spec fn answer_of(v: JsonView) -> Result<AnswerView, Seq<char>> {
    match v {
        JsonView::Other => Err("not a JSON object"@),
        JsonView::Object(ms) => {
            if find_member(ms, "markdown"@) is None && find_member(ms, "source"@) is None {
                Err("object has neither `markdown` nor `source`"@)
            } else {
                match first_field_error(ms) {
                    Some(e) => Err(e),
                    None => Ok(
                        AnswerView {
                            markdown: field_text(find_member(ms, "markdown"@)),
                            source: field_text(find_member(ms, "source"@)),
                        },
                    ),
                }
            }
        },
    }
}

proof fn lemma_take_drop_last<A>(s: Seq<A>, i: int)
    requires
        0 <= i < s.len(),
    ensures
        s.take(i + 1).drop_last() =~= s.take(i),
        s.take(i + 1).last() == s[i],
{
}

/// Reads an answer out of one JSON value.
pub fn answer_from(value: &JsonValue) -> (r: Result<Answer, String>)
    ensures
        match r {
            Ok(a) => answer_of(value@) == Ok::<AnswerView, Seq<char>>(a@),
            Err(e) => answer_of(value@) == Err::<AnswerView, Seq<char>>(e@),
        },
{
    let members = match value {
        JsonValue::Other => return Err("not a JSON object".to_owned()),
        JsonValue::Object(members) => members,
    };
    let markdown_key = "markdown".to_owned();
    let source_key = "source".to_owned();
    let ghost ms = members_view(members@);
    let mut markdown: Option<&Result<Option<String>, String>> = None;
    let mut source: Option<&Result<Option<String>, String>> = None;
    let mut error: Option<&String> = None;
    for i in 0..members.len()
        invariant
            ms == members_view(members@),
            ms.len() == members.len(),
            markdown_key@ == "markdown"@,
            source_key@ == "source"@,
            match markdown {
                Some(t) => find_member(ms.take(i as int), "markdown"@) == Some(text_view(*t)),
                None => find_member(ms.take(i as int), "markdown"@) is None,
            },
            match source {
                Some(t) => find_member(ms.take(i as int), "source"@) == Some(text_view(*t)),
                None => find_member(ms.take(i as int), "source"@) is None,
            },
            match error {
                Some(e) => first_field_error(ms.take(i as int)) == Some(e@),
                None => first_field_error(ms.take(i as int)) is None,
            },
    {
        proof {
            lemma_take_drop_last(ms, i as int);
        }
        let member = &members[i];
        assert(ms[i as int] == member@);
        let is_markdown = member.key == markdown_key;
        let is_source = member.key == source_key;
        if is_markdown && markdown.is_none() {
            markdown = Some(&member.text);
        }
        if is_source && source.is_none() {
            source = Some(&member.text);
        }
        if (is_markdown || is_source) && error.is_none() {
            if let Err(e) = &member.text {
                error = Some(e);
            }
        }
    }
    proof {
        assert(ms.take(members.len() as int) =~= ms);
    }
    if markdown.is_none() && source.is_none() {
        return Err("object has neither `markdown` nor `source`".to_owned());
    }
    if let Some(e) = error {
        return Err(e.clone());
    }
    Ok(Answer { markdown: field_string(markdown), source: field_string(source) })
}

/// The text of the first member with `key`.
pub fn lookup<'a>(members: &'a Vec<Member>, key: &str) -> (r: Option<&'a Result<Option<String>, String>>)
    ensures
        match r {
            Some(t) => find_member(members_view(members@), key@) == Some(text_view(*t)),
            None => find_member(members_view(members@), key@) is None,
        },
{
    let ghost ms = members_view(members@);
    let wanted = key.to_owned();
    for i in 0..members.len()
        invariant
            ms == members_view(members@),
            ms.len() == members.len(),
            wanted@ == key@,
            find_member(ms.take(i as int), key@) is None,
    {
        proof {
            lemma_take_drop_last(ms, i as int);
        }
        assert(ms[i as int] == members@[i as int]@);
        if members[i].key == wanted {
            proof {
                lemma_find_prefix(ms, i as int + 1, key@);
            }
            return Some(&members[i].text);
        }
    }
    assert(ms.take(members.len() as int) =~= ms);
    None
}

/// A member found among the first `n` is the first of all of them.
proof fn lemma_find_prefix(ms: Seq<MemberView>, n: int, key: Seq<char>)
    requires
        0 <= n <= ms.len(),
        find_member(ms.take(n), key) is Some,
    ensures
        find_member(ms, key) == find_member(ms.take(n), key),
    decreases ms.len() - n,
{
    if n < ms.len() {
        assert(ms.drop_last().take(n) =~= ms.take(n));
        lemma_find_prefix(ms.drop_last(), n, key);
    } else {
        assert(ms.take(n) =~= ms);
    }
}

fn field_string(t: Option<&Result<Option<String>, String>>) -> (r: Option<String>)
    ensures
        opt_text(r) == field_text(
            match t {
                Some(t) => Some(text_view(*t)),
                None => None,
            },
        ),
{
    match t {
        Some(Ok(Some(s))) => Some(s.clone()),
        _ => None,
    }
}

pub open spec fn answer_result_view(r: Result<Answer, String>) -> Result<AnswerView, Seq<char>> {
    match r {
        Ok(a) => Ok(a@),
        Err(e) => Err(e@),
    }
}

pub open spec fn opt_answer_view(o: Option<Answer>) -> Option<AnswerView> {
    match o {
        Some(a) => Some(a@),
        None => None,
    }
}

/// What one JSON value found in the text does to the search: an answer
/// replaces the one found so far, anything else only replaces the reason.
pub open spec fn pick_step(
    state: (Option<AnswerView>, Seq<char>),
    parsed: Option<Result<JsonView, Seq<char>>>,
) -> (Option<AnswerView>, Seq<char>) {
    match parsed {
        None => state,
        Some(Err(e)) => (state.0, e),
        Some(Ok(v)) => match answer_of(v) {
            Ok(a) => (Some(a), state.1),
            Err(e) => (state.0, e),
        },
    }
}

/// The search after the given values, in order.
pub open spec fn pick_state(ps: Seq<Option<Result<JsonView, Seq<char>>>>) -> (Option<AnswerView>, Seq<char>)
    decreases ps.len(),
{
    if ps.len() == 0 {
        (None, "no JSON object found"@)
    } else {
        pick_step(pick_state(ps.drop_last()), ps.last())
    }
}

/// The last answer among the values, or the reason the last value that was
/// not one gave.
pub open spec fn pick_result(ps: Seq<Option<Result<JsonView, Seq<char>>>>) -> Result<AnswerView, Seq<char>> {
    let state = pick_state(ps);
    match state.0 {
        Some(a) => Ok(a),
        None => Err(state.1),
    }
}

pub open spec fn parsed_seq_view(ps: Seq<Option<Result<JsonValue, String>>>) -> Seq<Option<Result<JsonView, Seq<char>>>> {
    ps.map_values(|p: Option<Result<JsonValue, String>>| parsed_view(p))
}

/// Keeps the last of the parsed values that is an answer.
pub fn pick_answer(parsed: &Vec<Option<Result<JsonValue, String>>>) -> (r: Result<Answer, String>)
    ensures
        answer_result_view(r) == pick_result(parsed_seq_view(parsed@)),
{
    let ghost ps = parsed_seq_view(parsed@);
    let mut found: Option<Answer> = None;
    let mut reason = "no JSON object found".to_owned();
    for i in 0..parsed.len()
        invariant
            ps == parsed_seq_view(parsed@),
            ps.len() == parsed.len(),
            (opt_answer_view(found), reason@) == pick_state(ps.take(i as int)),
    {
        proof {
            lemma_take_drop_last(ps, i as int);
        }
        assert(ps[i as int] == parsed_view(parsed@[i as int]));
        match &parsed[i] {
            None => {},
            Some(Err(e)) => {
                reason = e.clone();
            },
            Some(Ok(value)) => match answer_from(value) {
                Ok(answer) => {
                    found = Some(answer);
                },
                Err(e) => {
                    reason = e;
                },
            },
        }
    }
    proof {
        assert(ps.take(parsed.len() as int) =~= ps);
    }
    match found {
        Some(answer) => Ok(answer),
        None => Err(reason),
    }
}

/// The values read at each `{` of the first `n` characters, in order.
pub open spec fn brace_values(t: Seq<char>, n: int) -> Seq<Option<Result<JsonView, Seq<char>>>>
    decreases n,
{
    if n <= 0 {
        Seq::empty()
    } else if t[n - 1] == '{' {
        brace_values(t, n - 1).push(first_json_value(t.skip(n - 1)))
    } else {
        brace_values(t, n - 1)
    }
}

/// The answer of one text: the last JSON object in it that is an answer.
pub open spec fn scan_text(t: Seq<char>) -> Result<AnswerView, Seq<char>> {
    pick_result(brace_values(t, t.len() as int))
}

/// Reads a JSON value at every `{` of the text and keeps the last answer.
pub fn scan(text: &str) -> (r: Result<Answer, String>)
    ensures
        answer_result_view(r) == scan_text(text@),
{
    let chars = to_chars(text);
    let n = chars.len();
    let mut parsed: Vec<Option<Result<JsonValue, String>>> = Vec::new();
    for i in 0..n
        invariant
            chars@ == text@,
            n == chars.len(),
            parsed_seq_view(parsed@) == brace_values(text@, i as int),
    {
        if chars[i] == '{' {
            let rest = text.substring_char(i, n);
            assert(rest@ =~= text@.skip(i as int));
            let value = read_json_value(rest);
            let ghost before = parsed@;
            parsed.push(value);
            assert(parsed_seq_view(parsed@) =~= parsed_seq_view(before).push(parsed_view(value)));
        }
    }
    pick_answer(&parsed)
}

/// The answer of several texts: the last text that holds one wins; when
/// none does, the reason comes from the earliest text that was read.
pub open spec fn pick_texts(ts: Seq<Seq<char>>, reason: Seq<char>) -> Result<AnswerView, Seq<char>>
    decreases ts.len(),
{
    if ts.len() == 0 {
        Err(reason)
    } else {
        match scan_text(ts.last()) {
            Ok(a) => Ok(a),
            Err(why) => pick_texts(ts.drop_last(), why),
        }
    }
}

pub open spec fn parse_answer_spec(ts: Seq<Seq<char>>) -> Result<AnswerView, Seq<char>> {
    pick_texts(ts, "no JSON object found"@)
}

/// The last JSON object in the assistant text that looks like an [`Answer`].
pub fn parse_answer(texts: &[String]) -> (r: Result<Answer, String>)
    ensures
        answer_result_view(r) == parse_answer_spec(strings_view(texts@)),
{
    let ghost ts = strings_view(texts@);
    let mut reason = "no JSON object found".to_owned();
    let mut k = texts.len();
    assert(ts.take(k as int) =~= ts);
    while k > 0
        invariant
            ts == strings_view(texts@),
            ts.len() == texts.len(),
            k <= texts.len(),
            pick_texts(ts, "no JSON object found"@) == pick_texts(ts.take(k as int), reason@),
        decreases k,
    {
        k = k - 1;
        proof {
            lemma_take_drop_last(ts, k as int);
        }
        assert(ts[k as int] == texts@[k as int]@);
        match scan(texts[k].as_str()) {
            Ok(answer) => {
                return Ok(answer);
            },
            Err(why) => {
                reason = why;
            },
        }
    }
    assert(ts.take(0) =~= Seq::<Seq<char>>::empty());
    Err(reason)
}

/// The answer a value read from the text carries, if any.
pub open spec fn answer_in(p: Option<Result<JsonView, Seq<char>>>) -> Option<AnswerView> {
    match p {
        Some(Ok(v)) => match answer_of(v) {
            Ok(a) => Some(a),
            Err(_) => None,
        },
        _ => None,
    }
}

/// An object is an answer only if it carries `markdown` or `source`, each
/// of them a string or `null`: an unrelated object or a mistyped field is not
/// one. The answer holds exactly the strings the object holds.
pub proof fn lemma_answer_needs_a_field(v: JsonView)
    ensures
        answer_of(v) is Ok ==> (v matches JsonView::Object(ms) && {
            &&& find_member(ms, "markdown"@) is Some || find_member(ms, "source"@) is Some
            &&& first_field_error(ms) is None
            &&& answer_of(v)->Ok_0.markdown == field_text(find_member(ms, "markdown"@))
            &&& answer_of(v)->Ok_0.source == field_text(find_member(ms, "source"@))
        }),
{
}

/// The last answer wins: among the values read from a text, the search
/// ends in the last one that is an answer, and fails when none is.
pub proof fn lemma_last_answer_wins(ps: Seq<Option<Result<JsonView, Seq<char>>>>)
    ensures
        (forall|j: int| 0 <= j < ps.len() ==> (#[trigger] answer_in(ps[j])) is None) ==> pick_result(ps) is Err,
        forall|j: int|
            0 <= j < ps.len() && (#[trigger] answer_in(ps[j])) is Some && (forall|k: int|
                j < k < ps.len() ==> (#[trigger] answer_in(ps[k])) is None) ==> pick_result(ps) == Ok::<
                AnswerView,
                Seq<char>,
            >(answer_in(ps[j])->0),
    decreases ps.len(),
{
    if ps.len() > 0 {
        let init = ps.drop_last();
        lemma_last_answer_wins(init);
        assert forall|j: int| 0 <= j < init.len() implies init[j] == ps[j] by {}
        if answer_in(ps.last()) is None {
            assert(pick_state(ps).0 == pick_state(init).0);
        }
        assert forall|j: int|
            0 <= j < ps.len() && (#[trigger] answer_in(ps[j])) is Some && (forall|k: int|
                j < k < ps.len() ==> (#[trigger] answer_in(ps[k])) is None) implies pick_result(ps)
            == Ok::<AnswerView, Seq<char>>(answer_in(ps[j])->0) by {
            if j < ps.len() - 1 {
                assert(answer_in(ps[ps.len() - 1]) is None);
                assert forall|k: int| j < k < init.len() implies (#[trigger] answer_in(init[k])) is None by {
                    assert(answer_in(ps[k]) is None);
                }
            }
        }
    }
}

/// Falls back to earlier texts: the answer of several texts is the answer
/// of the last text that holds one, and there is none when no text does.
pub proof fn lemma_last_text_wins(ts: Seq<Seq<char>>, reason: Seq<char>)
    ensures
        (forall|j: int| 0 <= j < ts.len() ==> (#[trigger] scan_text(ts[j])) is Err) ==> pick_texts(ts, reason) is Err,
        forall|j: int|
            0 <= j < ts.len() && (#[trigger] scan_text(ts[j])) is Ok && (forall|k: int|
                j < k < ts.len() ==> (#[trigger] scan_text(ts[k])) is Err) ==> pick_texts(ts, reason)
                == scan_text(ts[j]),
    decreases ts.len(),
{
    if ts.len() > 0 {
        let init = ts.drop_last();
        assert forall|j: int| 0 <= j < init.len() implies init[j] == ts[j] by {}
        match scan_text(ts.last()) {
            Ok(_) => {},
            Err(why) => {
                lemma_last_text_wins(init, why);
                assert forall|j: int|
                    0 <= j < ts.len() && (#[trigger] scan_text(ts[j])) is Ok && (forall|k: int|
                        j < k < ts.len() ==> (#[trigger] scan_text(ts[k])) is Err) implies pick_texts(
                    ts,
                    reason,
                ) == scan_text(ts[j]) by {
                    assert forall|k: int| j < k < init.len() implies (#[trigger] scan_text(init[k])) is Err by {
                        assert(scan_text(ts[k]) is Err);
                    }
                }
            },
        }
    }
}

/// The answer a text holds at position `k`: the first JSON value read
/// from a `{` there, when it is an answer.
pub open spec fn answer_at(t: Seq<char>, k: int) -> Option<AnswerView> {
    if 0 <= k < t.len() && t[k] == '{' {
        answer_in(first_json_value(t.skip(k)))
    } else {
        None
    }
}

proof fn lemma_pick_step_answer(s: (Option<AnswerView>, Seq<char>), p: Option<Result<JsonView, Seq<char>>>)
    ensures
        pick_step(s, p).0 == match answer_in(p) {
            Some(a) => Some(a),
            None => s.0,
        },
{
}

/// The search over the `{` of the first `n` characters ends in the answer
/// at the last position that holds one, or in none.
proof fn lemma_scan_positions(t: Seq<char>, n: int)
    requires
        0 <= n <= t.len(),
    ensures
        (forall|k: int| 0 <= k < n ==> (#[trigger] answer_at(t, k)) is None) ==> pick_state(
            brace_values(t, n),
        ).0 is None,
        forall|k: int|
            0 <= k < n && (#[trigger] answer_at(t, k)) is Some && (forall|j: int|
                k < j < n ==> (#[trigger] answer_at(t, j)) is None) ==> pick_state(brace_values(t, n)).0
                == answer_at(t, k),
    decreases n,
{
    if n > 0 {
        lemma_scan_positions(t, n - 1);
        let prev = pick_state(brace_values(t, n - 1));
        if t[n - 1] == '{' {
            let bv = brace_values(t, n - 1).push(first_json_value(t.skip(n - 1)));
            assert(bv.drop_last() =~= brace_values(t, n - 1));
            lemma_pick_step_answer(prev, first_json_value(t.skip(n - 1)));
            assert(pick_state(brace_values(t, n)).0 == match answer_at(t, n - 1) {
                Some(a) => Some(a),
                None => prev.0,
            });
        } else {
            assert(answer_at(t, n - 1) is None);
        }
        assert forall|k: int|
            0 <= k < n && (#[trigger] answer_at(t, k)) is Some && (forall|j: int|
                k < j < n ==> (#[trigger] answer_at(t, j)) is None) implies pick_state(
            brace_values(t, n),
        ).0 == answer_at(t, k) by {
            if k < n - 1 {
                assert(answer_at(t, n - 1) is None);
                assert forall|j: int| k < j < n - 1 implies (#[trigger] answer_at(t, j)) is None by {
                    assert(answer_at(t, j) is None);
                }
            }
        }
    }
}

/// Whether position `(i, k)` comes after `(i2, k2)`: a later text, or a
/// later position in the same text.
pub open spec fn after_position(i: int, k: int, i2: int, k2: int) -> bool {
    i > i2 || (i == i2 && k > k2)
}

/// The last answer wins, over all the texts of a turn: there is an answer
/// exactly when some text holds one at some `{`, and then it is the one at
/// the last such position, in the last text that holds one.
pub proof fn lemma_last_answer_position(ts: Seq<Seq<char>>)
    ensures
        parse_answer_spec(ts) is Ok <==> exists|i: int, k: int|
            0 <= i < ts.len() && (#[trigger] answer_at(ts[i], k)) is Some,
        forall|i: int, k: int|
            0 <= i < ts.len() && (#[trigger] answer_at(ts[i], k)) is Some && (forall|i2: int, k2: int|
                0 <= i2 < ts.len() && after_position(i2, k2, i, k) ==> (#[trigger] answer_at(ts[i2], k2))
                    is None) ==> parse_answer_spec(ts) == Ok::<AnswerView, Seq<char>>(answer_at(ts[i], k)->0),
{
    lemma_texts_positions(ts, "no JSON object found"@);
}

proof fn lemma_text_positions(t: Seq<char>)
    ensures
        scan_text(t) is Ok <==> exists|k: int| (#[trigger] answer_at(t, k)) is Some,
        forall|k: int|
            (#[trigger] answer_at(t, k)) is Some && (forall|j: int| k < j ==> (#[trigger] answer_at(t, j)) is None)
                ==> scan_text(t) == Ok::<AnswerView, Seq<char>>(answer_at(t, k)->0),
{
    lemma_scan_positions(t, t.len() as int);
    if exists|k: int| (#[trigger] answer_at(t, k)) is Some {
        let k = choose|k: int| (#[trigger] answer_at(t, k)) is Some;
        let last = choose|m: int|
            0 <= m < t.len() && (#[trigger] answer_at(t, m)) is Some && (forall|j: int|
                m < j < t.len() ==> (#[trigger] answer_at(t, j)) is None);
        lemma_last_exists(t, k, t.len() as int);
        assert(pick_state(brace_values(t, t.len() as int)).0 == answer_at(t, last));
    }
    assert forall|k: int|
        (#[trigger] answer_at(t, k)) is Some && (forall|j: int| k < j ==> (#[trigger] answer_at(t, j)) is None)
            implies scan_text(t) == Ok::<AnswerView, Seq<char>>(answer_at(t, k)->0) by {
        assert forall|j: int| k < j < t.len() implies (#[trigger] answer_at(t, j)) is None by {
            assert(answer_at(t, j) is None);
        }
    }
}

/// Some position in `0..n` holds an answer and no later one in `0..n` does.
proof fn lemma_last_exists(t: Seq<char>, k: int, n: int)
    requires
        0 <= k < n <= t.len(),
        answer_at(t, k) is Some,
    ensures
        exists|m: int|
            0 <= m < n && (#[trigger] answer_at(t, m)) is Some && (forall|j: int|
                m < j < n ==> (#[trigger] answer_at(t, j)) is None),
    decreases n - k,
{
    if answer_at(t, n - 1) is Some {
        assert(forall|j: int| n - 1 < j < n ==> (#[trigger] answer_at(t, j)) is None);
    } else {
        lemma_last_exists(t, k, n - 1);
        let m = choose|m: int|
            0 <= m < n - 1 && (#[trigger] answer_at(t, m)) is Some && (forall|j: int|
                m < j < n - 1 ==> (#[trigger] answer_at(t, j)) is None);
        assert forall|j: int| m < j < n implies (#[trigger] answer_at(t, j)) is None by {
            if j < n - 1 {
                assert(answer_at(t, j) is None);
            }
        }
    }
}

proof fn lemma_texts_positions(ts: Seq<Seq<char>>, reason: Seq<char>)
    ensures
        pick_texts(ts, reason) is Ok <==> exists|i: int, k: int|
            0 <= i < ts.len() && (#[trigger] answer_at(ts[i], k)) is Some,
        forall|i: int, k: int|
            0 <= i < ts.len() && (#[trigger] answer_at(ts[i], k)) is Some && (forall|i2: int, k2: int|
                0 <= i2 < ts.len() && after_position(i2, k2, i, k) ==> (#[trigger] answer_at(ts[i2], k2))
                    is None) ==> pick_texts(ts, reason) == Ok::<AnswerView, Seq<char>>(answer_at(ts[i], k)->0),
    decreases ts.len(),
{
    if ts.len() > 0 {
        let init = ts.drop_last();
        let n = ts.len() - 1;
        assert forall|i: int| 0 <= i < init.len() implies init[i] == ts[i] by {}
        lemma_text_positions(ts.last());
        match scan_text(ts.last()) {
            Ok(_) => {
                let k = choose|k: int| (#[trigger] answer_at(ts.last(), k)) is Some;
                assert(answer_at(ts[n], k) is Some);
                assert forall|i: int, k: int|
                    0 <= i < ts.len() && (#[trigger] answer_at(ts[i], k)) is Some && (forall|i2: int, k2: int|
                        0 <= i2 < ts.len() && after_position(i2, k2, i, k) ==> (#[trigger] answer_at(
                            ts[i2],
                            k2,
                        )) is None) implies pick_texts(ts, reason) == Ok::<AnswerView, Seq<char>>(
                    answer_at(ts[i], k)->0,
                ) by {
                    if i < n {
                        let k0 = choose|k0: int| (#[trigger] answer_at(ts.last(), k0)) is Some;
                        assert(after_position(n, k0, i, k));
                        assert(answer_at(ts[n], k0) is None);
                    }
                    assert forall|j: int| k < j implies (#[trigger] answer_at(ts.last(), j)) is None by {
                        assert(after_position(n, j, i, k));
                        assert(answer_at(ts[n], j) is None);
                    }
                }
            },
            Err(why) => {
                lemma_texts_positions(init, why);
                assert forall|k: int| (#[trigger] answer_at(ts[n], k)) is None by {
                    if answer_at(ts[n], k) is Some {
                        assert(answer_at(ts.last(), k) is Some);
                    }
                }
                if exists|i: int, k: int| 0 <= i < ts.len() && (#[trigger] answer_at(ts[i], k)) is Some {
                    let (i, k) = choose|i: int, k: int|
                        0 <= i < ts.len() && (#[trigger] answer_at(ts[i], k)) is Some;
                    assert(i < n);
                    assert(answer_at(init[i], k) is Some);
                }
                assert forall|i: int, k: int|
                    0 <= i < ts.len() && (#[trigger] answer_at(ts[i], k)) is Some && (forall|i2: int, k2: int|
                        0 <= i2 < ts.len() && after_position(i2, k2, i, k) ==> (#[trigger] answer_at(
                            ts[i2],
                            k2,
                        )) is None) implies pick_texts(ts, reason) == Ok::<AnswerView, Seq<char>>(
                    answer_at(ts[i], k)->0,
                ) by {
                    assert(i < n);
                    assert(answer_at(init[i], k) is Some);
                    assert forall|i2: int, k2: int|
                        0 <= i2 < init.len() && after_position(i2, k2, i, k) implies (#[trigger] answer_at(
                            init[i2],
                            k2,
                        )) is None by {
                        assert(answer_at(ts[i2], k2) is None);
                    }
                }
            },
        }
    }
}

/// The first member with `key` is the one found.
proof fn lemma_find_first(ms: Seq<MemberView>, key: Seq<char>)
    ensures
        (forall|j: int| 0 <= j < ms.len() ==> (#[trigger] ms[j]).key != key) ==> find_member(ms, key) is None,
        forall|i: int|
            0 <= i < ms.len() && (#[trigger] ms[i]).key == key && (forall|j: int| 0 <= j < i ==> (#[trigger] ms[j]).key != key)
                ==> find_member(ms, key) == Some(ms[i].text),
    decreases ms.len(),
{
    if ms.len() > 0 {
        let init = ms.drop_last();
        lemma_find_first(init, key);
        assert forall|j: int| 0 <= j < init.len() implies init[j] == ms[j] by {}
        assert forall|i: int|
            0 <= i < ms.len() && (#[trigger] ms[i]).key == key && (forall|j: int| 0 <= j < i ==> (#[trigger] ms[j]).key != key)
                implies find_member(ms, key) == Some(ms[i].text) by {
            if i < ms.len() - 1 {
                assert(init[i] == ms[i]);
                assert forall|j: int| 0 <= j < i implies (#[trigger] init[j]).key != key by {
                    assert(init[j] == ms[j]);
                }
            } else {
                assert forall|j: int| 0 <= j < init.len() implies (#[trigger] init[j]).key != key by {
                    assert(init[j] == ms[j]);
                }
            }
        }
        if forall|j: int| 0 <= j < ms.len() ==> (#[trigger] ms[j]).key != key {
            assert forall|j: int| 0 <= j < init.len() implies (#[trigger] init[j]).key != key by {
                assert(init[j] == ms[j]);
            }
            assert(ms[ms.len() - 1].key != key);
        }
    }
}

proof fn lemma_no_field_error(ms: Seq<MemberView>)
    requires
        forall|i: int| 0 <= i < ms.len() && is_answer_key((#[trigger] ms[i]).key) ==> ms[i].text is Ok,
    ensures
        first_field_error(ms) is None,
    decreases ms.len(),
{
    if ms.len() > 0 {
        let init = ms.drop_last();
        assert forall|i: int| 0 <= i < init.len() && is_answer_key((#[trigger] init[i]).key) implies init[i].text is Ok by {
            assert(init[i] == ms[i]);
        }
        lemma_no_field_error(init);
        assert(ms.last() == ms[ms.len() - 1]);
    }
}

/// The string an answer field's member holds, if it holds one.
pub open spec fn member_string(m: MemberView) -> Option<Seq<char>> {
    match m.text {
        Ok(Some(s)) => Some(s),
        _ => None,
    }
}

/// An object that carries `markdown` or `source`, each of its members with
/// those keys a string or `null`, is always an answer, whatever the strings
/// hold (empty ones included): each field of the answer is the string of the
/// object's first member with that key, or none when that member is `null`
/// or there is no such member.
pub proof fn lemma_string_fields_make_an_answer(ms: Seq<MemberView>)
    requires
        exists|i: int| 0 <= i < ms.len() && ((#[trigger] ms[i]).key == "markdown"@ || ms[i].key == "source"@),
        forall|i: int|
            0 <= i < ms.len() && ((#[trigger] ms[i]).key == "markdown"@ || ms[i].key == "source"@) ==> ms[i].text is Ok,
    ensures
        answer_of(JsonView::Object(ms)) is Ok,
        forall|i: int|
            0 <= i < ms.len() && (#[trigger] ms[i]).key == "markdown"@ && (forall|j: int|
                0 <= j < i ==> (#[trigger] ms[j]).key != "markdown"@) ==> answer_of(JsonView::Object(ms))->Ok_0.markdown
                == member_string(ms[i]),
        forall|i: int|
            0 <= i < ms.len() && (#[trigger] ms[i]).key == "source"@ && (forall|j: int|
                0 <= j < i ==> (#[trigger] ms[j]).key != "source"@) ==> answer_of(JsonView::Object(ms))->Ok_0.source
                == member_string(ms[i]),
        (forall|j: int| 0 <= j < ms.len() ==> (#[trigger] ms[j]).key != "markdown"@) ==> answer_of(
            JsonView::Object(ms),
        )->Ok_0.markdown is None,
        (forall|j: int| 0 <= j < ms.len() ==> (#[trigger] ms[j]).key != "source"@) ==> answer_of(
            JsonView::Object(ms),
        )->Ok_0.source is None,
{
    lemma_find_first(ms, "markdown"@);
    lemma_find_first(ms, "source"@);
    lemma_no_field_error(ms);
    let i = choose|i: int| 0 <= i < ms.len() && ((#[trigger] ms[i]).key == "markdown"@ || ms[i].key == "source"@);
    lemma_find_exists(ms, ms[i].key, i);
}

/// A member with the key makes the search find one.
proof fn lemma_find_exists(ms: Seq<MemberView>, key: Seq<char>, i: int)
    requires
        0 <= i < ms.len(),
        ms[i].key == key,
    ensures
        find_member(ms, key) is Some,
    decreases ms.len(),
{
    if i < ms.len() - 1 {
        let init = ms.drop_last();
        assert(init[i] == ms[i]);
        lemma_find_exists(init, key, i);
    }
}

proof fn lemma_field_error_found(ms: Seq<MemberView>, i: int)
    requires
        0 <= i < ms.len(),
        is_answer_key(ms[i].key),
        ms[i].text is Err,
    ensures
        first_field_error(ms) is Some,
    decreases ms.len(),
{
    if i < ms.len() - 1 {
        let init = ms.drop_last();
        assert(init[i] == ms[i]);
        lemma_field_error_found(init, i);
    }
}

/// What is not an answer: a value that is not an object, an object without
/// `markdown` and `source`, and an object where either of them holds
/// something other than a string or `null`.
pub proof fn lemma_what_is_no_answer(v: JsonView)
    ensures
        v is Other ==> answer_of(v) is Err,
        v matches JsonView::Object(ms) ==> ((forall|j: int|
            0 <= j < ms.len() ==> (#[trigger] ms[j]).key != "markdown"@ && ms[j].key != "source"@) ==> answer_of(v)
            is Err),
        v matches JsonView::Object(ms) ==> (forall|i: int|
            0 <= i < ms.len() && ((#[trigger] ms[i]).key == "markdown"@ || ms[i].key == "source"@) && ms[i].text is Err
                ==> answer_of(v) is Err),
{
    if let JsonView::Object(ms) = v {
        lemma_find_first(ms, "markdown"@);
        lemma_find_first(ms, "source"@);
        assert forall|i: int|
            0 <= i < ms.len() && ((#[trigger] ms[i]).key == "markdown"@ || ms[i].key == "source"@) && ms[i].text is Err
                implies answer_of(v) is Err by {
            lemma_field_error_found(ms, i);
        }
    }
}

} // verus!
