//! Shell words for the logged input, and what a finished call hands the shell.

use vstd::prelude::*;

use crate::text::{
    blank, char_is_alphanumeric, is_alphanumeric, is_blank, join_with, strings_view, to_chars,
};

verus! {

/// Characters a word may hold and still be pasted back unquoted.
pub open spec fn plain_char(c: char) -> bool {
    char_is_alphanumeric(c) || c == '-' || c == '_' || c == '.' || c == '/' || c == ':' || c == '@'
        || c == '%' || c == '+' || c == '='
}

pub open spec fn is_plain(s: Seq<char>) -> bool {
    s.len() > 0 && forall|i: int| 0 <= i < s.len() ==> plain_char(#[trigger] s[i])
}

/// What one character becomes inside single quotes: a quote closes the
/// quotes, is escaped, and opens them again.
pub open spec fn escape_char(c: char) -> Seq<char> {
    if c == '\'' {
        seq!['\'', '\\', '\'', '\'']
    } else {
        seq![c]
    }
}

pub open spec fn escaped(s: Seq<char>) -> Seq<char>
    decreases s.len(),
{
    if s.len() == 0 {
        Seq::empty()
    } else {
        escaped(s.drop_last()) + escape_char(s.last())
    }
}

/// A word as the shell reads it back: unchanged when every character is
/// plain, otherwise in single quotes.
pub open spec fn quoted(s: Seq<char>) -> Seq<char> {
    if is_plain(s) {
        s
    } else {
        seq!['\''] + escaped(s) + seq!['\'']
    }
}

fn plain_word(c: &Vec<char>) -> (r: bool)
    ensures
        r == is_plain(c@),
{
    if c.len() == 0 {
        return false;
    }
    for i in 0..c.len()
        invariant
            forall|j: int| 0 <= j < i ==> plain_char(#[trigger] c@[j]),
    {
        let ch = c[i];
        let ok = is_alphanumeric(ch) || ch == '-' || ch == '_' || ch == '.' || ch == '/' || ch == ':'
            || ch == '@' || ch == '%' || ch == '+' || ch == '=';
        if !ok {
            return false;
        }
    }
    true
}

/// Shell-quote one word so the logged input can be pasted back.
pub fn quote(arg: &str) -> (r: String)
    ensures
        r@ == quoted(arg@),
{
    let c = to_chars(arg);
    if plain_word(&c) {
        return arg.to_owned();
    }
    let mut out = String::new();
    out.push('\'');
    for i in 0..c.len()
        invariant
            c@ == arg@,
            out@ == seq!['\''] + escaped(arg@.take(i as int)),
    {
        assert(arg@.take(i + 1).drop_last() =~= arg@.take(i as int));
        if c[i] == '\'' {
            out.push('\'');
            out.push('\\');
            out.push('\'');
            out.push('\'');
        } else {
            out.push(c[i]);
        }
        assert(out@ =~= seq!['\''] + escaped(arg@.take(i + 1)));
    }
    assert(arg@.take(c.len() as int) =~= arg@);
    out.push('\'');
    out
}

pub open spec fn quoted_words(args: Seq<Seq<char>>) -> Seq<Seq<char>> {
    args.map_values(|a: Seq<char>| quoted(a))
}

/// The typed command line: each word quoted, separated by spaces.
pub fn command_line(args: &[String]) -> (r: String)
    ensures
        r@ == join_with(quoted_words(strings_view(args@)), " "@),
{
    let ghost words = quoted_words(strings_view(args@));
    let mut quoted_args: Vec<String> = Vec::new();
    for i in 0..args.len()
        invariant
            words == quoted_words(strings_view(args@)),
            strings_view(quoted_args@) == words.take(i as int),
    {
        let ghost before = quoted_args@;
        let q = quote(args[i].as_str());
        assert(words[i as int] == quoted(args@[i as int]@));
        quoted_args.push(q);
        assert(strings_view(quoted_args@) =~= strings_view(before).push(q@));
        assert(strings_view(quoted_args@) =~= words.take(i + 1));
    }
    assert(words.take(args.len() as int) =~= words);
    crate::text::join_texts(quoted_args.as_slice(), " ")
}

/// What a call with an answer ends in: its exit status, the code printed
/// on stdout for the shell to source, and whether a blank line separates
/// the note from the announcement.
#[derive(Debug)]
pub struct Delivery {
    pub status: u8,
    pub source: Option<String>,
    pub gap: bool,
}

/// After the note: a Ctrl-C wins and nothing reaches the shell; an empty
/// answer ends the call; otherwise the code is handed over unchanged.
pub fn deliver(note: &str, source: &str, interrupted: bool) -> (r: Delivery)
    ensures
        interrupted ==> r.status == 130 && r.source is None && !r.gap,
        !interrupted ==> r.status == 0,
        !interrupted && is_blank(source@) ==> r.source is None && !r.gap,
        !interrupted && !is_blank(source@) ==> (r.source matches Some(s) && s@ == source@),
        r.gap == (!interrupted && !is_blank(source@) && !is_blank(note@)),
{
    if interrupted {
        return Delivery { status: 130, source: None, gap: false };
    }
    if blank(source) {
        return Delivery { status: 0, source: None, gap: false };
    }
    Delivery { status: 0, source: Some(source.to_owned()), gap: !blank(note) }
}

/// The exit status a status code becomes, clamped into `0 ..= 255`.
pub fn exit_status(status: i32) -> (r: u8)
    ensures
        r == if status < 0 { 0 } else if status > 255 { 255 } else { status },
{
    if status < 0 {
        0
    } else if status > 255 {
        255
    } else {
        status as u8
    }
}

/// Characters a POSIX shell gives a meaning of their own outside quotes:
/// the blanks that separate words, and the operator, quoting, expansion,
/// glob, comment and history characters.
pub open spec fn shell_special(c: char) -> bool {
    c == ' ' || c == '\t' || c == '\n' || c == '\'' || c == '"' || c == '\\' || c == '$' || c == '`' || c == '*'
        || c == '?' || c == '[' || c == ']' || c == '#' || c == '~' || c == ';' || c == '&' || c == '|'
        || c == '<' || c == '>' || c == '(' || c == ')' || c == '{' || c == '}' || c == '!'
}

pub open spec fn prepend(c: char, r: Option<Seq<char>>) -> Option<Seq<char>> {
    match r {
        Some(t) => Some(seq![c] + t),
        None => None,
    }
}

/// How a shell reads one word made of ordinary characters, single-quoted
/// runs and backslash escapes (`None` for anything else), starting inside
/// or outside single quotes.
pub open spec fn read_word(s: Seq<char>, in_quotes: bool) -> Option<Seq<char>>
    decreases s.len(),
{
    if s.len() == 0 {
        if in_quotes { None } else { Some(Seq::empty()) }
    } else if in_quotes {
        if s[0] == '\'' {
            read_word(s.drop_first(), false)
        } else {
            prepend(s[0], read_word(s.drop_first(), true))
        }
    } else if s[0] == '\'' {
        read_word(s.drop_first(), true)
    } else if s[0] == '\\' {
        if s.len() >= 2 {
            prepend(s[1], read_word(s.skip(2), false))
        } else {
            None
        }
    } else if shell_special(s[0]) {
        None
    } else {
        prepend(s[0], read_word(s.drop_first(), false))
    }
}

proof fn lemma_escaped_concat(a: Seq<char>, b: Seq<char>)
    ensures
        escaped(a + b) == escaped(a) + escaped(b),
    decreases b.len(),
{
    if b.len() == 0 {
        assert(a + b =~= a);
        assert(escaped(a) + escaped(b) =~= escaped(a));
    } else {
        lemma_escaped_concat(a, b.drop_last());
        assert((a + b).drop_last() =~= a + b.drop_last());
        assert(escaped(a + b) =~= escaped(a) + escaped(b));
    }
}

proof fn lemma_escaped_front(c: char, t: Seq<char>)
    ensures
        escaped(seq![c] + t) == escape_char(c) + escaped(t),
{
    lemma_escaped_concat(seq![c], t);
    assert(seq![c].drop_last() =~= Seq::<char>::empty());
    assert(seq![c].last() == c);
    assert(escaped(Seq::<char>::empty()) =~= Seq::<char>::empty());
    assert(escaped(seq![c]) == escaped(Seq::<char>::empty()) + escape_char(c));
    assert(escaped(seq![c]) =~= escape_char(c));
}

proof fn lemma_read_escaped(t: Seq<char>)
    ensures
        read_word(escaped(t) + seq!['\''], true) == Some(t),
    decreases t.len(),
{
    if t.len() == 0 {
        assert(escaped(t) + seq!['\''] =~= seq!['\'']);
        assert(seq!['\''].drop_first() =~= Seq::<char>::empty());
        assert(t =~= Seq::<char>::empty());
        assert(read_word(seq!['\''], true) == read_word(Seq::<char>::empty(), false));
    } else {
        let c = t[0];
        let rest = t.drop_first();
        assert(t =~= seq![c] + rest);
        lemma_escaped_front(c, rest);
        lemma_read_escaped(rest);
        let tail = escaped(rest) + seq!['\''];
        if c == '\'' {
            let w = seq!['\'', '\\', '\'', '\''] + tail;
            let w1 = seq!['\\', '\'', '\''] + tail;
            let w2 = seq!['\''] + tail;
            assert(escaped(t) + seq!['\''] =~= w);
            assert(w.drop_first() =~= w1);
            assert(w1.skip(2) =~= w2);
            assert(w2.drop_first() =~= tail);
            assert(read_word(w2, false) == read_word(tail, true));
            assert(read_word(w1, false) == prepend('\'', read_word(w2, false)));
            assert(read_word(w, true) == read_word(w1, false));
            assert(read_word(w, true) == Some(seq![c] + rest));
        } else {
            let w = seq![c] + tail;
            assert(escaped(t) + seq!['\''] =~= w);
            assert(w.drop_first() =~= tail);
            assert(read_word(w, true) == prepend(c, read_word(tail, true)));
            assert(read_word(w, true) == Some(seq![c] + rest));
        }
    }
}

proof fn lemma_read_plain(s: Seq<char>)
    requires
        forall|i: int| 0 <= i < s.len() ==> !shell_special(#[trigger] s[i]),
    ensures
        read_word(s, false) == Some(s),
    decreases s.len(),
{
    if s.len() > 0 {
        lemma_read_plain(s.drop_first());
        assert(seq![s[0]] + s.drop_first() =~= s);
    }
}

/// The logged input can be pasted back: a shell reads every quoted word as
/// the word itself.
pub proof fn lemma_quote_reads_back(s: Seq<char>)
    ensures
        read_word(quoted(s), false) == Some(s),
{
    if is_plain(s) {
        assert forall|i: int| 0 <= i < s.len() implies !shell_special(#[trigger] s[i]) by {
            assert(plain_char(s[i]));
        }
        lemma_read_plain(s);
    } else {
        lemma_read_escaped(s);
        let w = seq!['\''] + escaped(s) + seq!['\''];
        assert(w.drop_first() =~= escaped(s) + seq!['\'']);
    }
}

/// The status of a call that produced no answer: 130 after a Ctrl-C, 1
/// otherwise.
pub fn failure_status(interrupted: bool) -> (r: u8)
    ensures
        r == if interrupted { 130u8 } else { 1u8 },
{
    if interrupted { 130 } else { 1 }
}

} // verus!
