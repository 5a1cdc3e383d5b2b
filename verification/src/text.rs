//! Character classes and small string operations shared by the modules.

use vstd::prelude::*;

verus! {

/// The Unicode `White_Space` property, which `char::is_whitespace` tests:
/// the ASCII tab, line feed, vertical tab, form feed, carriage return and
/// space, and U+0085, U+00A0, U+1680, U+2000..=U+200A, U+2028, U+2029,
/// U+202F, U+205F and U+3000.
pub open spec fn char_is_whitespace(c: char) -> bool {
    ('\u{9}' <= c <= '\u{d}') || c == ' ' || c == '\u{85}' || c == '\u{a0}' || c == '\u{1680}' || (
    '\u{2000}' <= c <= '\u{200a}') || c == '\u{2028}' || c == '\u{2029}' || c == '\u{202f}' || c
        == '\u{205f}' || c == '\u{3000}'
}

/// The general category `Cc`, which `char::is_control` tests: U+0000..=U+001F
/// and U+007F..=U+009F.
pub open spec fn char_is_control(c: char) -> bool {
    c <= '\u{1f}' || ('\u{7f}' <= c <= '\u{9f}')
}

/// Whether `char::is_alphanumeric` holds of a character that is neither
/// ASCII nor whitespace nor a control character: the Unicode `Alphabetic`
/// property or a numeric general category (`Nd`, `Nl`, `No`).
pub uninterp spec fn unicode_alphanumeric(c: char) -> bool;

/// Whether `char::is_alphanumeric` holds of a character: among ASCII
/// characters exactly the letters and digits; never a whitespace or control
/// character; otherwise the Unicode property.
pub open spec fn char_is_alphanumeric(c: char) -> bool {
    if c <= '\u{7f}' {
        ('a' <= c <= 'z') || ('A' <= c <= 'Z') || ('0' <= c <= '9')
    } else {
        !char_is_whitespace(c) && !char_is_control(c) && unicode_alphanumeric(c)
    }
}

/// `char::is_whitespace`.
pub fn is_whitespace(c: char) -> (r: bool)
    ensures
        r == char_is_whitespace(c),
{
    ('\u{9}' <= c && c <= '\u{d}') || c == ' ' || c == '\u{85}' || c == '\u{a0}' || c == '\u{1680}'
        || ('\u{2000}' <= c && c <= '\u{200a}') || c == '\u{2028}' || c == '\u{2029}' || c
        == '\u{202f}' || c == '\u{205f}' || c == '\u{3000}'
}

/// `char::is_control`.
pub fn is_control(c: char) -> (r: bool)
    ensures
        r == char_is_control(c),
{
    c <= '\u{1f}' || ('\u{7f}' <= c && c <= '\u{9f}')
}

/// Calls `char::is_alphanumeric`. Among ASCII characters exactly the
/// letters and digits are `Alphabetic` or numeric. No whitespace or control
/// character is either: those are in the categories `Cc`, `Zs`, `Zl` and
/// `Zp`, which neither `Alphabetic` nor the numeric categories include.
/// Beyond that the Unicode property is named, not written out.
#[verifier::external_body]
pub(crate) fn is_alphanumeric(c: char) -> (r: bool)
    ensures
        r == char_is_alphanumeric(c),
        c > '\u{7f}' && !char_is_whitespace(c) && !char_is_control(c) ==> r == unicode_alphanumeric(c),
{
    c.is_alphanumeric()
}

/// `String::push` appends one character.
pub assume_specification[ String::push ](s: &mut String, ch: char)
    ensures
        final(s)@ == old(s)@.push(ch),
;

/// The characters of a string, in order.
pub fn to_chars(s: &str) -> (r: Vec<char>)
    ensures
        r@ == s@,
{
    let mut out: Vec<char> = Vec::new();
    for c in it: s.chars()
        invariant
            out@ == it.seq().take(it.index() as int),
            it.seq() == s@,
    {
        out.push(c);
    }
    out
}

/// The characters of `s` as an owned string.
pub fn from_chars(s: &[char]) -> (r: String)
    ensures
        r@ == s@,
{
    let mut out = String::new();
    for i in 0..s.len()
        invariant
            out@ == s@.take(i as int),
    {
        out.push(s[i]);
        assert(out@ =~= s@.take(i + 1));
    }
    assert(s@.take(s@.len() as int) =~= s@);
    out
}

/// `Path::join` of a relative or absolute name onto a directory, for paths
/// separated by `sep`: an absolute name replaces the directory, and a
/// separator is added unless the directory is empty or already ends in one.
pub open spec fn joined_path<A>(dir: Seq<A>, name: Seq<A>, sep: A) -> Seq<A> {
    if name.len() > 0 && name[0] == sep {
        name
    } else if dir.len() == 0 || dir.last() == sep {
        dir + name
    } else {
        dir + seq![sep] + name
    }
}

/// `Path::join` on paths written as text.
pub open spec fn path_join(dir: Seq<char>, name: Seq<char>) -> Seq<char> {
    joined_path(dir, name, '/')
}

/// `Path::join` on paths as the bytes the system holds them in.
pub open spec fn byte_path_join(dir: Seq<u8>, name: Seq<u8>) -> Seq<u8> {
    joined_path(dir, name, 47u8)
}

pub fn join_bytes(dir: &[u8], name: &[u8]) -> (r: Vec<u8>)
    ensures
        r@ == byte_path_join(dir@, name@),
{
    let mut out: Vec<u8> = Vec::new();
    if name.len() > 0 && name[0] == 47u8 {
        for i in 0..name.len()
            invariant
                out@ == name@.take(i as int),
        {
            out.push(name[i]);
            assert(out@ =~= name@.take(i + 1));
        }
        assert(name@.take(name.len() as int) =~= name@);
        return out;
    }
    for i in 0..dir.len()
        invariant
            out@ == dir@.take(i as int),
    {
        out.push(dir[i]);
        assert(out@ =~= dir@.take(i + 1));
    }
    assert(dir@.take(dir.len() as int) =~= dir@);
    if dir.len() > 0 && dir[dir.len() - 1] != 47u8 {
        out.push(47u8);
    }
    let ghost head = out@;
    for i in 0..name.len()
        invariant
            out@ == head + name@.take(i as int),
    {
        out.push(name[i]);
        assert(out@ =~= head + name@.take(i + 1));
    }
    assert(name@.take(name.len() as int) =~= name@);
    assert(out@ =~= byte_path_join(dir@, name@));
    out
}

/// The UTF-8 encoding of one character.
pub open spec fn utf8_char(c: char) -> Seq<u8> {
    let n = c as int;
    if n < 0x80 {
        seq![n as u8]
    } else if n < 0x800 {
        seq![(0xc0 + n / 64) as u8, (0x80 + n % 64) as u8]
    } else if n < 0x10000 {
        seq![(0xe0 + n / 4096) as u8, (0x80 + (n / 64) % 64) as u8, (0x80 + n % 64) as u8]
    } else {
        seq![
            (0xf0 + n / 262144) as u8,
            (0x80 + (n / 4096) % 64) as u8,
            (0x80 + (n / 64) % 64) as u8,
            (0x80 + n % 64) as u8,
        ]
    }
}

/// The UTF-8 encoding of a text.
pub open spec fn utf8(s: Seq<char>) -> Seq<u8>
    decreases s.len(),
{
    if s.len() == 0 {
        Seq::empty()
    } else {
        utf8(s.drop_last()) + utf8_char(s.last())
    }
}

/// Calls `str::as_bytes`: a `str` is always UTF-8, and these are its bytes.
#[verifier::external_body]
pub(crate) fn utf8_bytes(s: &str) -> (r: &[u8])
    ensures
        r@ == utf8(s@),
{
    s.as_bytes()
}

pub fn join(dir: &str, name: &str) -> (r: String)
    ensures
        r@ == path_join(dir@, name@),
{
    let d = to_chars(dir);
    let n = to_chars(name);
    if n.len() > 0 && n[0] == '/' {
        return name.to_owned();
    }
    let mut out = dir.to_owned();
    if d.len() > 0 && d[d.len() - 1] != '/' {
        out.push('/');
    }
    out.append(name);
    out
}

/// Whether every character is whitespace (so `str::trim` would leave nothing).
pub open spec fn is_blank(s: Seq<char>) -> bool {
    forall|i: int| 0 <= i < s.len() ==> char_is_whitespace(#[trigger] s[i])
}

pub fn blank(s: &str) -> (r: bool)
    ensures
        r == is_blank(s@),
{
    let c = to_chars(s);
    for i in 0..c.len()
        invariant
            c@ == s@,
            forall|j: int| 0 <= j < i ==> char_is_whitespace(#[trigger] s@[j]),
    {
        if !is_whitespace(c[i]) {
            return false;
        }
    }
    true
}

/// Length of `s` without its trailing whitespace.
pub open spec fn trimmed_len(s: Seq<char>) -> int
    decreases s.len(),
{
    if s.len() == 0 {
        0
    } else if char_is_whitespace(s.last()) {
        trimmed_len(s.drop_last())
    } else {
        s.len() as int
    }
}

/// `str::trim_end`: `s` without its trailing whitespace.
pub open spec fn trim_end_text(s: Seq<char>) -> Seq<char> {
    s.take(trimmed_len(s))
}

proof fn lemma_trimmed_len(s: Seq<char>, k: int)
    requires
        0 <= k <= s.len(),
        forall|j: int| k <= j < s.len() ==> char_is_whitespace(#[trigger] s[j]),
    ensures
        trimmed_len(s) == trimmed_len(s.take(k)),
    decreases s.len() - k,
{
    if k < s.len() {
        assert(s.drop_last().take(k) =~= s.take(k));
        lemma_trimmed_len(s.drop_last(), k);
    } else {
        assert(s.take(k) =~= s);
    }
}

pub fn trim_end(s: &str) -> (r: String)
    ensures
        r@ == trim_end_text(s@),
        0 <= trimmed_len(s@) <= s@.len(),
{
    let c = to_chars(s);
    let mut k = c.len();
    while k > 0 && is_whitespace(c[k - 1])
        invariant
            c@ == s@,
            k <= c.len(),
            forall|j: int| k <= j < s@.len() ==> char_is_whitespace(#[trigger] s@[j]),
        decreases k,
    {
        k = k - 1;
    }
    proof {
        lemma_trimmed_len(s@, k as int);
        if k > 0 {
            assert(s@.take(k as int).last() == s@[k - 1]);
        }
        assert(trimmed_len(s@.take(k as int)) == k);
    }
    from_chars(&c.as_slice()[0..k])
}

pub open spec fn digit(k: int) -> char {
    (48 + k) as char
}

/// The decimal digits of a number.
pub open spec fn decimal_text(n: nat) -> Seq<char>
    decreases n,
{
    if n < 10 {
        seq![digit(n as int)]
    } else {
        decimal_text(n / 10).push(digit((n % 10) as int))
    }
}

pub fn push_decimal(out: &mut String, n: u64)
    ensures
        final(out)@ == old(out)@ + decimal_text(n as nat),
    decreases n,
{
    if n >= 10 {
        push_decimal(out, n / 10);
    }
    let d: u8 = (n % 10) as u8;
    out.push((48u8 + d) as char);
    assert(final(out)@ =~= old(out)@ + decimal_text(n as nat));
}

/// `n` zero characters.
pub open spec fn zeros(n: int) -> Seq<char> {
    Seq::new(if n > 0 { n as nat } else { 0 }, |i: int| '0')
}

/// `format!("{:0w$}", n)`: the sign, then the digits padded with zeros to
/// a total width of at least `w`.
pub open spec fn zero_padded(n: int, w: int) -> Seq<char> {
    if n < 0 {
        let digits = decimal_text((-n) as nat);
        seq!['-'] + zeros(w - 1 - digits.len()) + digits
    } else {
        let digits = decimal_text(n as nat);
        zeros(w - digits.len()) + digits
    }
}

pub fn push_padded(out: &mut String, n: i64, w: usize)
    ensures
        final(out)@ == old(out)@ + zero_padded(n as int, w as int),
{
    let magnitude: u64 = if n < 0 { (0i128 - n as i128) as u64 } else { n as u64 };
    let mut digits = String::new();
    push_decimal(&mut digits, magnitude);
    let len = to_chars(digits.as_str()).len();
    let mut room: usize = if n < 0 { if w >= 1 { w - 1 } else { 0 } } else { w };
    if n < 0 {
        out.push('-');
    }
    let ghost before = out@;
    let ghost pad: int = room - len;
    while room > len
        invariant
            out@ == before + zeros(pad - (room - len)),
            pad >= room - len,
            room < len ==> room - len == pad,
        decreases room,
    {
        out.push('0');
        room = room - 1;
        assert(out@ =~= before + zeros(pad - (room - len)));
    }
    assert(zeros(pad - (room - len)) =~= zeros(pad));
    out.append(digits.as_str());
    assert(final(out)@ =~= old(out)@ + zero_padded(n as int, w as int));
}

/// The texts of a list of strings.
pub open spec fn strings_view(ts: Seq<String>) -> Seq<Seq<char>> {
    ts.map_values(|t: String| t@)
}

/// `str::split` on a character, as far as the first `n` characters: the
/// pieces finished so far and the piece being read.
pub open spec fn split_state(s: Seq<char>, sep: char) -> (Seq<Seq<char>>, Seq<char>)
    decreases s.len(),
{
    if s.len() == 0 {
        (Seq::empty(), Seq::empty())
    } else {
        let before = split_state(s.drop_last(), sep);
        if s.last() == sep {
            (before.0.push(before.1), Seq::empty())
        } else {
            (before.0, before.1.push(s.last()))
        }
    }
}

/// `str::split` on a character: the pieces between the separators, empty
/// ones included, so a text with `k` separators gives `k + 1` pieces.
pub open spec fn split_text(s: Seq<char>, sep: char) -> Seq<Seq<char>> {
    let st = split_state(s, sep);
    st.0.push(st.1)
}

pub fn split(s: &str, sep: char) -> (r: Vec<String>)
    ensures
        strings_view(r@) == split_text(s@, sep),
{
    let c = to_chars(s);
    let mut done: Vec<String> = Vec::new();
    let mut current = String::new();
    for i in 0..c.len()
        invariant
            c@ == s@,
            (strings_view(done@), current@) == split_state(s@.take(i as int), sep),
    {
        assert(s@.take(i + 1).drop_last() =~= s@.take(i as int));
        let ghost before = done@;
        if c[i] == sep {
            let piece = current;
            current = String::new();
            done.push(piece);
            assert(strings_view(done@) =~= strings_view(before).push(piece@));
        } else {
            current.push(c[i]);
        }
    }
    assert(s@.take(c.len() as int) =~= s@);
    let ghost before = done@;
    done.push(current);
    assert(strings_view(done@) =~= strings_view(before).push(current@));
    done
}

/// The texts joined with a separator between each two.
pub open spec fn join_with(ts: Seq<Seq<char>>, sep: Seq<char>) -> Seq<char>
    decreases ts.len(),
{
    if ts.len() == 0 {
        Seq::empty()
    } else if ts.len() == 1 {
        ts[0]
    } else {
        join_with(ts.drop_last(), sep) + sep + ts.last()
    }
}

pub fn join_texts(ts: &[String], sep: &str) -> (r: String)
    ensures
        r@ == join_with(strings_view(ts@), sep@),
{
    let ghost v = strings_view(ts@);
    let mut out = String::new();
    for i in 0..ts.len()
        invariant
            v == strings_view(ts@),
            out@ == join_with(v.take(i as int), sep@),
    {
        assert(v.take(i + 1).drop_last() =~= v.take(i as int));
        if i > 0 {
            out.append(sep);
        }
        out.append(ts[i].as_str());
        assert(v[i as int] == ts@[i as int]@);
        assert(out@ =~= join_with(v.take(i + 1), sep@));
    }
    assert(v.take(ts.len() as int) =~= v);
    out
}

/// One more element through `filter` and `map_values`.
pub proof fn lemma_filter_map_step<A, B>(s: Seq<A>, i: int, pred: spec_fn(A) -> bool, f: spec_fn(A) -> B)
    requires
        0 <= i < s.len(),
    ensures
        s.take(i + 1).filter(pred).map_values(f) == if pred(s[i]) {
            s.take(i).filter(pred).map_values(f).push(f(s[i]))
        } else {
            s.take(i).filter(pred).map_values(f)
        },
{
    reveal(Seq::filter);
    assert(s.take(i + 1).drop_last() =~= s.take(i));
    assert(s.take(i + 1).last() == s[i]);
    if pred(s[i]) {
        assert(s.take(i + 1).filter(pred) == s.take(i).filter(pred).push(s[i]));
        assert(s.take(i + 1).filter(pred).map_values(f) =~= s.take(i).filter(pred).map_values(f).push(f(s[i])));
    } else {
        assert(s.take(i + 1).filter(pred) == s.take(i).filter(pred));
    }
}

/// `str::split_whitespace` as far as it has read: the words finished so far
/// and the word being read.
pub open spec fn words_state(s: Seq<char>) -> (Seq<Seq<char>>, Seq<char>)
    decreases s.len(),
{
    if s.len() == 0 {
        (Seq::empty(), Seq::empty())
    } else {
        let before = words_state(s.drop_last());
        if char_is_whitespace(s.last()) {
            if before.1.len() > 0 {
                (before.0.push(before.1), Seq::empty())
            } else {
                before
            }
        } else {
            (before.0, before.1.push(s.last()))
        }
    }
}

/// `str::split_whitespace`: the maximal runs of non-whitespace characters.
pub open spec fn words(s: Seq<char>) -> Seq<Seq<char>> {
    let st = words_state(s);
    if st.1.len() > 0 { st.0.push(st.1) } else { st.0 }
}

/// The words of a text joined by single spaces.
pub open spec fn squeezed(s: Seq<char>) -> Seq<char> {
    join_with(words(s), " "@)
}

pub fn squeeze(s: &str) -> (r: String)
    ensures
        r@ == squeezed(s@),
{
    let c = to_chars(s);
    let mut done: Vec<String> = Vec::new();
    let mut current = String::new();
    let mut current_len: usize = 0;
    for i in 0..c.len()
        invariant
            c@ == s@,
            current_len == current@.len(),
            current_len <= i,
            (strings_view(done@), current@) == words_state(s@.take(i as int)),
    {
        assert(s@.take(i + 1).drop_last() =~= s@.take(i as int));
        let ghost before = done@;
        if is_whitespace(c[i]) {
            if current_len > 0 {
                let word = current;
                current = String::new();
                current_len = 0;
                done.push(word);
                assert(strings_view(done@) =~= strings_view(before).push(word@));
            }
        } else {
            current.push(c[i]);
            current_len = current_len + 1;
        }
    }
    assert(s@.take(c.len() as int) =~= s@);
    if current_len > 0 {
        let ghost before = done@;
        done.push(current);
        assert(strings_view(done@) =~= strings_view(before).push(current@));
    }
    join_texts(done.as_slice(), " ")
}

proof fn lemma_join_push(ts: Seq<Seq<char>>, t: Seq<char>, sep: Seq<char>)
    ensures
        join_with(ts.push(t), sep) == if ts.len() == 0 { t } else { join_with(ts, sep) + sep + t },
{
    assert(ts.push(t).drop_last() =~= ts);
}

/// Splitting a list variable and joining the items with the separator
/// gives the variable back: no item is lost, and none is invented.
pub proof fn lemma_split_then_join(s: Seq<char>, sep: char)
    ensures
        join_with(split_text(s, sep), seq![sep]) == s,
    decreases s.len(),
{
    if s.len() > 0 {
        let init = s.drop_last();
        lemma_split_then_join(init, sep);
        let st = split_state(init, sep);
        lemma_join_push(st.0, st.1, seq![sep]);
        if s.last() == sep {
            lemma_join_push(st.0.push(st.1), Seq::empty(), seq![sep]);
        } else {
            lemma_join_push(st.0, st.1.push(s.last()), seq![sep]);
        }
        assert(s =~= init.push(s.last()));
    } else {
        assert(split_text(s, sep) =~= seq![Seq::<char>::empty()]);
    }
}

pub open spec fn no_whitespace(s: Seq<char>) -> bool {
    forall|i: int| 0 <= i < s.len() ==> !char_is_whitespace(#[trigger] s[i])
}

proof fn lemma_words_of_word(p: Seq<char>, t: Seq<char>)
    requires
        no_whitespace(t),
    ensures
        words_state(p + t) == (words_state(p).0, words_state(p).1 + t),
    decreases t.len(),
{
    if t.len() == 0 {
        assert(p + t =~= p);
        assert(words_state(p).1 + t =~= words_state(p).1);
    } else {
        let init = t.drop_last();
        assert(no_whitespace(init)) by {
            assert forall|i: int| 0 <= i < init.len() implies !char_is_whitespace(#[trigger] init[i]) by {
                assert(init[i] == t[i]);
            }
        }
        lemma_words_of_word(p, init);
        assert((p + t).drop_last() =~= p + init);
        assert((p + t).last() == t[t.len() - 1]);
        assert(words_state(p).1 + init.push(t.last()) =~= words_state(p).1 + t);
    }
}

proof fn lemma_words_of_gap(p: Seq<char>, w: Seq<char>)
    requires
        w.len() > 0,
        is_blank(w),
    ensures
        words_state(p + w) == if words_state(p).1.len() > 0 {
            (words_state(p).0.push(words_state(p).1), Seq::<char>::empty())
        } else {
            words_state(p)
        },
    decreases w.len(),
{
    let init = w.drop_last();
    assert((p + w).drop_last() =~= p + init);
    assert((p + w).last() == w[w.len() - 1]);
    if init.len() == 0 {
        assert(p + init =~= p);
    } else {
        assert(is_blank(init)) by {
            assert forall|i: int| 0 <= i < init.len() implies char_is_whitespace(#[trigger] init[i]) by {
                assert(init[i] == w[i]);
            }
        }
        lemma_words_of_gap(p, init);
    }
}

/// Squeezing whitespace keeps a word as it is, and a run of whitespace
/// between two words, however long and of whatever kind, becomes one space;
/// whitespace before or after the words is dropped.
pub proof fn lemma_squeeze_words(a: Seq<char>, gap: Seq<char>, b: Seq<char>, edge: Seq<char>)
    requires
        a.len() > 0,
        b.len() > 0,
        no_whitespace(a),
        no_whitespace(b),
        gap.len() > 0,
        is_blank(gap),
        is_blank(edge),
    ensures
        squeezed(a) == a,
        squeezed(a + gap + b) == a + seq![' '] + b,
        squeezed(edge + a) == a,
        squeezed(a + edge) == a,
{
    let e: Seq<char> = Seq::empty();
    assert(e + a =~= a);
    lemma_words_of_word(e, a);
    assert(words_state(a) == (Seq::<Seq<char>>::empty(), a));
    assert(words(a) =~= seq![a]);
    assert(join_with(seq![a], " "@) == a);
    lemma_words_of_gap(a, gap);
    assert(words_state(a + gap) == (seq![a], e));
    lemma_words_of_word(a + gap, b);
    assert(words_state(a + gap + b) == (seq![a], e + b));
    assert(e + b =~= b);
    assert(words(a + gap + b) =~= seq![a, b]);
    assert(seq![a, b].drop_last() =~= seq![a]);
    reveal_strlit(" ");
    assert(join_with(seq![a, b], " "@) =~= a + seq![' '] + b);
    if edge.len() > 0 {
        lemma_words_of_gap(e, edge);
        assert(e + edge =~= edge);
        assert(words_state(edge).1.len() == 0);
        lemma_words_of_word(edge, a);
        assert(words_state(edge).1 + a =~= a);
        lemma_words_of_gap(a, edge);
        assert(words(edge + a) =~= words(a)) by {
            assert(words_state(edge).0 =~= Seq::<Seq<char>>::empty()) by {
                assert(words_state(e) == (Seq::<Seq<char>>::empty(), e));
            }
        }
    } else {
        assert(edge + a =~= a);
        assert(a + edge =~= a);
    }
}

} // verus!
