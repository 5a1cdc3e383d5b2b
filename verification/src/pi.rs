//! Talking to `pi --mode rpc`: the command line it is started with, the
//! commands sent on its stdin, and the events read from its stdout.

use vstd::prelude::*;

use crate::ask::Event;
use crate::config::Config;
use crate::protocol::JsonValue;
use crate::text::{blank, is_blank, strings_view, utf8, utf8_bytes};
use vstd::slice::slice_to_vec;

verus! {

/// A lowercase hexadecimal digit.
pub open spec fn hex_digit(k: int) -> char {
    if k < 10 {
        (48 + k) as char
    } else {
        (87 + k) as char
    }
}

/// How serde_json writes one character inside a JSON string: the quote
/// and the backslash escaped, the five control characters with a short
/// escape by it, the other ASCII control characters as `\u00xx`, and
/// everything else as it is.
pub open spec fn json_escape(c: char) -> Seq<char> {
    if c == '"' {
        seq!['\\', '"']
    } else if c == '\\' {
        seq!['\\', '\\']
    } else if c == '\u{8}' {
        seq!['\\', 'b']
    } else if c == '\t' {
        seq!['\\', 't']
    } else if c == '\n' {
        seq!['\\', 'n']
    } else if c == '\u{c}' {
        seq!['\\', 'f']
    } else if c == '\r' {
        seq!['\\', 'r']
    } else if c <= '\u{1f}' {
        seq!['\\', 'u', '0', '0', hex_digit(c as int / 16), hex_digit(c as int % 16)]
    } else {
        seq![c]
    }
}

pub open spec fn json_escaped(s: Seq<char>) -> Seq<char>
    decreases s.len(),
{
    if s.len() == 0 {
        Seq::empty()
    } else {
        json_escaped(s.drop_last()) + json_escape(s.last())
    }
}

/// How serde_json writes a string as a JSON string literal.
pub open spec fn json_string_text(s: Seq<char>) -> Seq<char> {
    seq!['"'] + json_escaped(s) + seq!['"']
}

/// Calls `serde_json::to_string` on a string: the JSON string literal,
/// quotes and escapes included (serde_json's `format_escaped_str` and its
/// `ESCAPE` table). Serializing a `str` cannot fail, so the default is never
/// taken.
#[verifier::external_body]
fn json_string(s: &str) -> (r: String)
    ensures
        r@ == json_string_text(s@),
{
    serde_json::to_string(s).unwrap_or_default()
}

/// The `prompt` command, keys in the order serde_json writes them.
pub open spec fn prompt_command_text(message: Seq<char>) -> Seq<char> {
    "{\"message\":"@ + json_string_text(message) + ",\"type\":\"prompt\"}"@
}

/// Send one prompt; its events arrive until `agent_settled`.
pub fn prompt_command(message: &str) -> (r: String)
    ensures
        r@ == prompt_command_text(message@),
{
    let mut out = "{\"message\":".to_owned();
    let quoted = json_string(message);
    out.append(quoted.as_str());
    out.append(",\"type\":\"prompt\"}");
    out
}

/// The answer to a dialog request: cancelled, so an extension can never
/// block the handler.
pub open spec fn cancel_reply_text(id: Seq<char>) -> Seq<char> {
    "{\"cancelled\":true,\"id\":"@ + json_string_text(id) + ",\"type\":\"extension_ui_response\"}"@
}

pub fn cancel_reply(id: &str) -> (r: String)
    ensures
        r@ == cancel_reply_text(id@),
{
    let mut out = "{\"cancelled\":true,\"id\":".to_owned();
    let quoted = json_string(id);
    out.append(quoted.as_str());
    out.append(",\"type\":\"extension_ui_response\"}");
    out
}

pub open spec fn opt_args(name: Seq<char>, value: Option<String>) -> Seq<Seq<char>> {
    match value {
        Some(v) => seq![name, v@],
        None => Seq::empty(),
    }
}

/// pi's options after the session file: the system prompt appended, the
/// model and thinking level when they are set, then the extra arguments.
pub open spec fn pi_options_of(config: Config, system_prompt: Seq<char>) -> Seq<Seq<char>> {
    seq!["--append-system-prompt"@, system_prompt] + opt_args("--model"@, config.model) + opt_args(
        "--thinking"@,
        config.thinking,
    ) + strings_view(config.pi_args@)
}

/// Arguments as the bytes a process receives.
pub open spec fn utf8_args(args: Seq<Seq<char>>) -> Seq<Seq<u8>> {
    args.map_values(|a: Seq<char>| utf8(a))
}

pub open spec fn bytes_view(v: Seq<Vec<u8>>) -> Seq<Seq<u8>> {
    v.map_values(|b: Vec<u8>| b@)
}

/// The command line pi is started with: rpc mode, no context files, the
/// session file (as the system holds its path) resumed, then the options.
pub open spec fn pi_arguments_of(config: Config, session_file: Seq<u8>, system_prompt: Seq<char>) -> Seq<Seq<u8>> {
    utf8_args(seq!["--mode"@, "rpc"@, "--no-context-files"@, "--session"@]).push(session_file) + utf8_args(
        pi_options_of(config, system_prompt),
    )
}

fn push_text(v: &mut Vec<String>, s: &str)
    ensures
        strings_view(final(v)@) == strings_view(old(v)@).push(s@),
{
    v.push(s.to_owned());
    assert(strings_view(final(v)@) =~= strings_view(old(v)@).push(s@));
}

fn push_bytes(v: &mut Vec<Vec<u8>>, b: &[u8])
    ensures
        bytes_view(final(v)@) == bytes_view(old(v)@).push(b@),
{
    v.push(slice_to_vec(b));
    assert(bytes_view(final(v)@) =~= bytes_view(old(v)@).push(b@));
}

fn pi_options(config: &Config, system_prompt: &str) -> (r: Vec<String>)
    ensures
        strings_view(r@) == pi_options_of(*config, system_prompt@),
{
    let mut args: Vec<String> = Vec::new();
    push_text(&mut args, "--append-system-prompt");
    push_text(&mut args, system_prompt);
    let ghost fixed = strings_view(args@);
    if let Some(model) = &config.model {
        push_text(&mut args, "--model");
        push_text(&mut args, model.as_str());
    }
    let ghost with_model = strings_view(args@);
    assert(with_model =~= fixed + opt_args("--model"@, config.model));
    if let Some(thinking) = &config.thinking {
        push_text(&mut args, "--thinking");
        push_text(&mut args, thinking.as_str());
    }
    let ghost with_thinking = strings_view(args@);
    assert(with_thinking =~= with_model + opt_args("--thinking"@, config.thinking));
    for i in 0..config.pi_args.len()
        invariant
            strings_view(args@) == with_thinking + strings_view(config.pi_args@).take(i as int),
    {
        push_text(&mut args, config.pi_args[i].as_str());
        assert(strings_view(args@) =~= with_thinking + strings_view(config.pi_args@).take(i + 1));
    }
    assert(strings_view(config.pi_args@).take(config.pi_args.len() as int) =~= strings_view(
        config.pi_args@,
    ));
    args
}

pub fn pi_arguments(config: &Config, session_file: &[u8], system_prompt: &str) -> (r: Vec<Vec<u8>>)
    ensures
        bytes_view(r@) == pi_arguments_of(*config, session_file@, system_prompt@),
{
    let mut args: Vec<Vec<u8>> = Vec::new();
    push_bytes(&mut args, utf8_bytes("--mode"));
    push_bytes(&mut args, utf8_bytes("rpc"));
    push_bytes(&mut args, utf8_bytes("--no-context-files"));
    push_bytes(&mut args, utf8_bytes("--session"));
    assert(bytes_view(args@) =~= utf8_args(seq!["--mode"@, "rpc"@, "--no-context-files"@, "--session"@]));
    push_bytes(&mut args, session_file);
    let ghost head = bytes_view(args@);
    let options = pi_options(config, system_prompt);
    let ghost opts = strings_view(options@);
    for i in 0..options.len()
        invariant
            opts == strings_view(options@),
            bytes_view(args@) == head + utf8_args(opts.take(i as int)),
    {
        assert(opts[i as int] == options@[i as int]@);
        push_bytes(&mut args, utf8_bytes(options[i].as_str()));
        assert(utf8_args(opts.take(i + 1)) =~= utf8_args(opts.take(i as int)).push(utf8(opts[i as int])));
        assert(bytes_view(args@) =~= head + utf8_args(opts.take(i + 1)));
    }
    assert(opts.take(options.len() as int) =~= opts);
    args
}

/// One part of an assistant message.
#[derive(Debug)]
pub struct Content {
    pub kind: Option<String>,
    pub text: Option<String>,
}

/// A message pi reports at its end.
#[derive(Debug)]
pub struct Message {
    pub role: Option<String>,
    pub content: Option<Vec<Content>>,
    pub error_message: Option<String>,
}

/// The kind of an update to a message being streamed.
#[derive(Debug)]
pub struct Delta {
    pub kind: Option<String>,
}

/// One line of pi's stdout, as far as the adapter reads it.
#[derive(Debug)]
pub enum Incoming {
    Response { command: String, success: bool, error: Option<String> },
    MessageEnd { message: Option<Message> },
    MessageUpdate { event: Option<Delta> },
    ToolExecutionStart { tool_name: Option<String>, args: Option<JsonValue> },
    AgentSettled,
    ExtensionUiRequest { id: String, method: String },
    Other,
}

pub open spec fn is_kind(kind: Option<String>, name: Seq<char>) -> bool {
    match kind {
        Some(k) => k@ == name,
        None => false,
    }
}

/// The text of a part that is text, or nothing.
pub open spec fn part_text(part: Content) -> Seq<char> {
    if is_kind(part.kind, "text"@) {
        match part.text {
            Some(t) => t@,
            None => Seq::empty(),
        }
    } else {
        Seq::empty()
    }
}

pub open spec fn parts_text(parts: Seq<Content>) -> Seq<char>
    decreases parts.len(),
{
    if parts.len() == 0 {
        Seq::empty()
    } else {
        parts_text(parts.drop_last()) + part_text(parts.last())
    }
}

pub open spec fn message_text(m: Message) -> Seq<char> {
    match m.content {
        Some(parts) => parts_text(parts@),
        None => Seq::empty(),
    }
}

fn kind_is(kind: &Option<String>, name: &str) -> (r: bool)
    ensures
        r == is_kind(*kind, name@),
{
    match kind {
        Some(k) => *k == name.to_owned(),
        None => false,
    }
}

impl Message {
    /// The text parts of the message, concatenated in order.
    pub fn text(&self) -> (r: String)
        ensures
            r@ == message_text(*self),
    {
        let mut out = String::new();
        if let Some(parts) = &self.content {
            for i in 0..parts.len()
                invariant
                    self.content == Some(*parts),
                    out@ == parts_text(parts@.take(i as int)),
            {
                assert(parts@.take(i + 1).drop_last() =~= parts@.take(i as int));
                assert(parts@.take(i + 1).last() == parts@[i as int]);
                let part = &parts[i];
                if kind_is(&part.kind, "text") {
                    if let Some(t) = &part.text {
                        out.append(t.as_str());
                    }
                }
            }
            assert(parts@.take(parts.len() as int) =~= parts@);
        }
        out
    }
}

/// What one line of pi's output becomes: an event for the turn loop, and a
/// reply to write back to pi.
#[derive(Debug)]
pub struct Translated {
    pub event: Option<Event>,
    pub reply: Option<String>,
}

/// Dialog requests need an answer; fire-and-forget ones do not.
pub open spec fn is_dialog(method: Seq<char>) -> bool {
    method == "select"@ || method == "confirm"@ || method == "input"@ || method == "editor"@
}

pub open spec fn rejected_text(command: Seq<char>, error: Option<String>) -> Seq<char> {
    "pi rejected "@ + command + ": "@ + match error {
        Some(e) => e@,
        None => "no error given"@,
    }
}

/// Decode one line of pi's output. The successful response to the `prompt`
/// command is the acknowledgement that starts the turn.
pub fn translate(incoming: Incoming) -> (r: Translated)
    ensures
        match incoming {
            Incoming::Response { command, success, error } => r.reply is None && if success {
                if command@ == "prompt"@ {
                    r.event matches Some(Event::Acked)
                } else {
                    r.event is None
                }
            } else {
                r.event matches Some(Event::Failed(e)) && e@ == rejected_text(command@, error)
            },
            Incoming::MessageEnd { message } => r.reply is None && match message {
                None => r.event is None,
                Some(m) => if !is_kind(m.role, "assistant"@) {
                    r.event is None
                } else if !is_blank(message_text(m)) {
                    r.event matches Some(Event::Text(t)) && t@ == message_text(m)
                } else {
                    match m.error_message {
                        Some(e) => r.event matches Some(Event::Error(f)) && f == e,
                        None => r.event is None,
                    }
                },
            },
            Incoming::MessageUpdate { event } => r.reply is None && match event {
                Some(d) => if is_kind(d.kind, "thinking_start"@) {
                    r.event matches Some(Event::Thinking)
                } else {
                    r.event is None
                },
                None => r.event is None,
            },
            Incoming::ToolExecutionStart { tool_name, args } => r.reply is None && (
            r.event matches Some(Event::Tool { name, args: a }) && name@ == match tool_name {
                Some(n) => n@,
                None => "?"@,
            } && a == match args {
                Some(v) => v,
                None => JsonValue::Other,
            }),
            Incoming::AgentSettled => r.reply is None && r.event matches Some(Event::Settled),
            Incoming::ExtensionUiRequest { id, method } => r.event is None && if is_dialog(method@) {
                r.reply matches Some(t) && t@ == cancel_reply_text(id@)
            } else {
                r.reply is None
            },
            Incoming::Other => r.event is None && r.reply is None,
        },
{
    match incoming {
        Incoming::Response { command, success, error } => {
            if success {
                if command == "prompt".to_owned() {
                    return Translated { event: Some(Event::Acked), reply: None };
                }
                return Translated { event: None, reply: None };
            }
            let mut m = "pi rejected ".to_owned();
            m.append(command.as_str());
            m.append(": ");
            match &error {
                Some(e) => m.append(e.as_str()),
                None => m.append("no error given"),
            }
            Translated { event: Some(Event::Failed(m)), reply: None }
        },
        Incoming::MessageEnd { message } => {
            let m = match message {
                Some(m) => m,
                None => return Translated { event: None, reply: None },
            };
            if !kind_is(&m.role, "assistant") {
                return Translated { event: None, reply: None };
            }
            let text = m.text();
            if !blank(text.as_str()) {
                return Translated { event: Some(Event::Text(text)), reply: None };
            }
            match m.error_message {
                Some(e) => Translated { event: Some(Event::Error(e)), reply: None },
                None => Translated { event: None, reply: None },
            }
        },
        Incoming::MessageUpdate { event } => match event {
            Some(d) => if kind_is(&d.kind, "thinking_start") {
                Translated { event: Some(Event::Thinking), reply: None }
            } else {
                Translated { event: None, reply: None }
            },
            None => Translated { event: None, reply: None },
        },
        Incoming::ToolExecutionStart { tool_name, args } => {
            let name = match tool_name {
                Some(n) => n,
                None => "?".to_owned(),
            };
            let args = match args {
                Some(v) => v,
                None => JsonValue::Other,
            };
            Translated { event: Some(Event::Tool { name, args }), reply: None }
        },
        Incoming::AgentSettled => Translated { event: Some(Event::Settled), reply: None },
        Incoming::ExtensionUiRequest { id, method } => {
            let dialog = method == "select".to_owned() || method == "confirm".to_owned() || method
                == "input".to_owned() || method == "editor".to_owned();
            if dialog {
                Translated { event: None, reply: Some(cancel_reply(id.as_str())) }
            } else {
                Translated { event: None, reply: None }
            }
        },
        Incoming::Other => Translated { event: None, reply: None },
    }
}

/// Exactly the four dialog requests get an answer, and the answer cancels
/// the request it answers: a `select`, `confirm`, `input` or `editor` request
/// is cancelled under its own id, so no extension can block the handler,
/// and any other request (a notification) is left unanswered.
pub proof fn lemma_dialogs_are_cancelled(id: Seq<char>, method: Seq<char>)
    ensures
        is_dialog(method) <==> (method == "select"@ || method == "confirm"@ || method == "input"@ || method
            == "editor"@),
        cancel_reply_text(id) == "{\"cancelled\":true,\"id\":\""@ + json_escaped(id)
            + "\",\"type\":\"extension_ui_response\"}"@,
{
    assert(cancel_reply_text(id) =~= "{\"cancelled\":true,\"id\":\""@ + json_escaped(id)
        + "\",\"type\":\"extension_ui_response\"}"@) by {
        reveal_strlit("{\"cancelled\":true,\"id\":");
        reveal_strlit("{\"cancelled\":true,\"id\":\"");
        reveal_strlit(",\"type\":\"extension_ui_response\"}");
        reveal_strlit("\",\"type\":\"extension_ui_response\"}");
    }
}

/// pi is started with every setting, each independently of the others: rpc
/// mode, no context files, the session file as the system holds its path,
/// the system prompt; then `--model` and the model whenever one is set,
/// `--thinking` and the level whenever one is set, and last the extra
/// arguments, in order and unchanged.
pub proof fn lemma_pi_gets_every_setting(config: Config, session_file: Seq<u8>, system_prompt: Seq<char>)
    ensures
        ({
            let args = pi_arguments_of(config, session_file, system_prompt);
            let model: int = if config.model is Some { 2 } else { 0 };
            let thinking: int = if config.thinking is Some { 2 } else { 0 };
            &&& args.len() == 7 + model + thinking + config.pi_args@.len()
            &&& args[0] == utf8("--mode"@)
            &&& args[1] == utf8("rpc"@)
            &&& args[2] == utf8("--no-context-files"@)
            &&& args[3] == utf8("--session"@)
            &&& args[4] == session_file
            &&& args[5] == utf8("--append-system-prompt"@)
            &&& args[6] == utf8(system_prompt)
            &&& (config.model matches Some(m) ==> args[7] == utf8("--model"@) && args[8] == utf8(m@))
            &&& (config.thinking matches Some(t) ==> args[7 + model] == utf8("--thinking"@) && args[8 + model]
                == utf8(t@))
            &&& forall|i: int|
                0 <= i < config.pi_args@.len() ==> #[trigger] args[7 + model + thinking + i] == utf8(
                    config.pi_args@[i]@,
                )
        }),
{
    let opts = pi_options_of(config, system_prompt);
    let args = pi_arguments_of(config, session_file, system_prompt);
    let head = utf8_args(seq!["--mode"@, "rpc"@, "--no-context-files"@, "--session"@]).push(session_file);
    assert(head.len() == 5);
    assert(args.len() == 5 + opts.len());
    assert forall|i: int| 0 <= i < opts.len() implies #[trigger] args[5 + i] == utf8(opts[i]) by {}
    let model: int = if config.model is Some { 2 } else { 0 };
    let thinking: int = if config.thinking is Some { 2 } else { 0 };
    let fixed = seq!["--append-system-prompt"@, system_prompt];
    let with_model = fixed + opt_args("--model"@, config.model);
    let with_thinking = with_model + opt_args("--thinking"@, config.thinking);
    assert(opts == with_thinking + strings_view(config.pi_args@));
    assert(with_model.len() == 2 + model);
    assert(with_thinking.len() == 2 + model + thinking);
    assert(opts[0] == "--append-system-prompt"@);
    assert(opts[1] == system_prompt);
    assert(args[5] == utf8(opts[0]));
    assert(args[6] == utf8(opts[1]));
    if config.model is Some {
        assert(opts[2] == with_model[2]);
        assert(opts[3] == with_model[3]);
        assert(args[7] == utf8(opts[2]));
        assert(args[8] == utf8(opts[3]));
    }
    if config.thinking is Some {
        assert(opts[2 + model] == with_thinking[2 + model]);
        assert(opts[3 + model] == with_thinking[3 + model]);
        assert(args[7 + model] == utf8(opts[2 + model]));
        assert(args[8 + model] == utf8(opts[3 + model]));
    }
    assert forall|i: int| 0 <= i < config.pi_args@.len() implies #[trigger] args[7 + model + thinking + i] == utf8(
        config.pi_args@[i]@,
    ) by {
        assert(opts[2 + model + thinking + i] == strings_view(config.pi_args@)[i]);
        assert(args[5 + (2 + model + thinking + i)] == utf8(opts[2 + model + thinking + i]));
    }
}

proof fn lemma_parts_text_concat(a: Seq<Content>, b: Seq<Content>)
    ensures
        parts_text(a + b) == parts_text(a) + parts_text(b),
    decreases b.len(),
{
    if b.len() == 0 {
        assert(a + b =~= a);
        assert(parts_text(a) + parts_text(b) =~= parts_text(a));
    } else {
        lemma_parts_text_concat(a, b.drop_last());
        assert((a + b).drop_last() =~= a + b.drop_last());
        assert((a + b).last() == b.last());
    }
}

/// A message's text is the texts of its text parts, in order: the text of
/// two runs of parts is the text of the first then that of the second; a
/// text part gives its text (none if it has none) and any other part, a
/// thinking block or a tool call, gives nothing.
pub proof fn lemma_message_text_keeps_the_text_parts(a: Seq<Content>, b: Seq<Content>, p: Content)
    ensures
        parts_text(a + b) == parts_text(a) + parts_text(b),
        (p.kind matches Some(k) && k@ == "text"@) ==> parts_text(seq![p]) == match p.text {
            Some(t) => t@,
            None => Seq::<char>::empty(),
        },
        !(p.kind matches Some(k) && k@ == "text"@) ==> parts_text(seq![p]) == Seq::<char>::empty(),
{
    lemma_parts_text_concat(a, b);
    assert(seq![p].drop_last() =~= Seq::<Content>::empty());
    assert(seq![p].last() == p);
    assert(parts_text(seq![p]) =~= parts_text(Seq::<Content>::empty()) + part_text(p));
}

/// A kind matches a name exactly when it is given and is that name: an
/// `assistant` message is read, a `user` one or one without a role is not.
pub proof fn lemma_kind_is_the_given_name(kind: Option<String>, name: Seq<char>)
    ensures
        is_kind(kind, name) <==> (kind matches Some(k) && k@ == name),
{
}

} // verus!
