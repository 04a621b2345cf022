//! The small pieces of JSON this library reads and writes itself: string
//! literals for outgoing messages, the `"text"` field of a reply, and the
//! removal of the model's quoting tokens.
use vstd::prelude::*;

use crate::text::{
    chars_of, contains_seq, last_occurrence, occurs_at, replace_all, replace_chars, rfind_chars,
    string_of,
};

verus! {

// ---------------------------------------------------------------------------
// Encoding a string as a JSON string literal
// ---------------------------------------------------------------------------

/// The lower-case hexadecimal digits, by value.
pub open spec fn hex_digits() -> Seq<char> {
    seq!['0', '1', '2', '3', '4', '5', '6', '7', '8', '9', 'a', 'b', 'c', 'd', 'e', 'f']
}

/// `\u` followed by the code `n` in four lower-case hex digits (`{:04x}`, for `n < 0x10000`).
pub open spec fn unicode_escape(n: int) -> Seq<char> {
    seq![
        '\\',
        'u',
        hex_digits()[(n / 4096) % 16],
        hex_digits()[(n / 256) % 16],
        hex_digits()[(n / 16) % 16],
        hex_digits()[n % 16],
    ]
}

/// How one character is written inside a JSON string literal.
pub open spec fn escape_char(c: char) -> Seq<char> {
    if c == '"' {
        seq!['\\', '"']
    } else if c == '\\' {
        seq!['\\', '\\']
    } else if c == '\n' {
        seq!['\\', 'n']
    } else if c == '\r' {
        seq!['\\', 'r']
    } else if c == '\t' {
        seq!['\\', 't']
    } else if (c as u32) < 0x20 {
        unicode_escape(c as int)
    } else {
        seq![c]
    }
}

/// The characters of `s`, each escaped.
pub open spec fn escape_seq(s: Seq<char>) -> Seq<char>
    decreases s.len(),
{
    if s.len() == 0 {
        Seq::empty()
    } else {
        escape_seq(s.drop_last()) + escape_char(s.last())
    }
}

/// `s` as a JSON string literal, with its surrounding quotes.
pub open spec fn json_string_literal(s: Seq<char>) -> Seq<char> {
    seq!['"'] + escape_seq(s) + seq!['"']
}

fn hex_char(d: u32) -> (res: char)
    requires
        d < 16,
    ensures
        res == hex_digits()[d as int],
{
    if d == 0 {
        '0'
    } else if d == 1 {
        '1'
    } else if d == 2 {
        '2'
    } else if d == 3 {
        '3'
    } else if d == 4 {
        '4'
    } else if d == 5 {
        '5'
    } else if d == 6 {
        '6'
    } else if d == 7 {
        '7'
    } else if d == 8 {
        '8'
    } else if d == 9 {
        '9'
    } else if d == 10 {
        'a'
    } else if d == 11 {
        'b'
    } else if d == 12 {
        'c'
    } else if d == 13 {
        'd'
    } else if d == 14 {
        'e'
    } else {
        'f'
    }
}

fn push_all(out: &mut Vec<char>, add: &[char])
    ensures
        final(out)@ == old(out)@ + add@,
{
    let ghost before = out@;
    for i in 0..add.len()
        invariant
            out@ == before + add@.take(i as int),
    {
        out.push(add[i]);
        assert(add@.take(i + 1) == add@.take(i as int).push(add@[i as int]));
    }
    assert(add@.take(add.len() as int) == add@);
}

fn push_escaped(out: &mut Vec<char>, c: char)
    ensures
        final(out)@ == old(out)@ + escape_char(c),
{
    if c == '"' {
        push_all(out, &vec!['\\', '"']);
    } else if c == '\\' {
        push_all(out, &vec!['\\', '\\']);
    } else if c == '\n' {
        push_all(out, &vec!['\\', 'n']);
    } else if c == '\r' {
        push_all(out, &vec!['\\', 'r']);
    } else if c == '\t' {
        push_all(out, &vec!['\\', 't']);
    } else if (c as u32) < 0x20 {
        let n: u32 = c as u32;
        let digits = vec![
            '\\',
            'u',
            hex_char((n / 4096) % 16),
            hex_char((n / 256) % 16),
            hex_char((n / 16) % 16),
            hex_char(n % 16),
        ];
        assert(digits@ == unicode_escape(n as int));
        push_all(out, &digits);
    } else {
        out.push(c);
    }
}

/// Encodes `s` as a JSON string literal, surrounding quotes included.
pub fn json_encode_string(s: &str) -> (res: String)
    ensures
        res@ == json_string_literal(s@),
        json_string_value(res@) == Some(s@),
{
    proof {
        law_json_string_round_trip(s@);
    }
    let chars = chars_of(s);
    let mut out: Vec<char> = Vec::new();
    out.push('"');
    for i in 0..chars.len()
        invariant
            chars@ == s@,
            out@ == seq!['"'] + escape_seq(s@.take(i as int)),
    {
        push_escaped(&mut out, chars[i]);
        assert(s@.take(i + 1).drop_last() == s@.take(i as int));
    }
    assert(s@.take(chars.len() as int) == s@);
    out.push('"');
    string_of(&out)
}

// ---------------------------------------------------------------------------
// Reading the "text" field of a reply
// ---------------------------------------------------------------------------

/// `"text":"`, the key whose last occurrence starts the reply's text.
pub open spec fn text_key() -> Seq<char> {
    seq!['"', 't', 'e', 'x', 't', '"', ':', '"']
}

/// Where the scan for the end of the text stops, from index `j` of `t`: a
/// backslash skips itself and the next character, a quote ends the text.
/// A backslash in last place sends the scan one past the end.
pub open spec fn text_end(t: Seq<char>, j: int) -> int
    decreases t.len() - j,
{
    if j < 0 || j >= t.len() {
        j
    } else if t[j] == '\\' {
        if j + 1 >= t.len() {
            j + 2
        } else {
            text_end(t, j + 2)
        }
    } else if t[j] == '"' {
        j
    } else {
        text_end(t, j + 1)
    }
}

/// What follows the last `"text":"` of `json`, if it occurs.
pub open spec fn text_tail(json: Seq<char>) -> Option<Seq<char>> {
    match last_occurrence(json, text_key()) {
        Some(p) => Some(json.skip(p + text_key().len())),
        None => None,
    }
}

/// The text field runs into a backslash in last place, so that the scan for
/// its end overruns the reply.
pub open spec fn text_scan_overruns(json: Seq<char>) -> bool {
    text_tail(json) matches Some(t) && text_end(t, 0) > t.len()
}

/// The character that the two-character escape `\x` stands for, for the
/// escapes that the reply's text is read with: `\n`, `\r`, `\t`, `\"` and `\\`.
pub open spec fn short_escape(x: char) -> Option<char> {
    if x == 'n' {
        Some('\n')
    } else if x == 'r' {
        Some('\r')
    } else if x == 't' {
        Some('\t')
    } else if x == '"' {
        Some('"')
    } else if x == '\\' {
        Some('\\')
    } else {
        None
    }
}

/// `e` read left to right, each of the escapes `\n`, `\r`, `\t`, `\"` and
/// `\\` turned into its character; any other character is kept as it is.
pub open spec fn unescape_text(e: Seq<char>) -> Seq<char>
    decreases e.len(),
{
    if e.len() == 0 {
        Seq::empty()
    } else if e.len() >= 2 && e[0] == '\\' && short_escape(e[1]) is Some {
        seq![short_escape(e[1])->0] + unescape_text(e.skip(2))
    } else {
        seq![e[0]] + unescape_text(e.skip(1))
    }
}

/// The text of the last `{"type":"text","text":"..."}` of `json`: the
/// characters up to the closing quote, escapes cleaned; empty where `json`
/// holds no `"text":"`.
pub open spec fn extracted_text(json: Seq<char>) -> Seq<char> {
    match text_tail(json) {
        Some(t) => unescape_text(t.take(text_end(t, 0))),
        None => Seq::empty(),
    }
}

/// The end of the text that starts at `start` in `v`, relative to `start`;
/// `None` where the scan overruns the end of `v`.
fn scan_text_end(v: &[char], start: usize) -> (res: Option<usize>)
    requires
        start <= v.len(),
    ensures
        match res {
            Some(e) => e == text_end(v@.skip(start as int), 0) && e <= v.len() - start,
            None => text_end(v@.skip(start as int), 0) > v.len() - start,
        },
{
    let ghost t = v@.skip(start as int);
    let len: usize = v.len() - start;
    let mut e: usize = 0;
    while e < len
        invariant
            len == t.len(),
            t == v@.skip(start as int),
            start + len == v.len(),
            e <= len,
            text_end(t, 0) == text_end(t, e as int),
        decreases len - e,
    {
        if v[start + e] == '\\' {
            if e + 1 >= len {
                return None;
            }
            e = e + 2;
        } else if v[start + e] == '"' {
            return Some(e);
        } else {
            e = e + 1;
        }
    }
    Some(e)
}

fn sub_chars(v: &[char], from: usize, to: usize) -> (res: Vec<char>)
    requires
        from <= to <= v.len(),
    ensures
        res@ == v@.subrange(from as int, to as int),
{
    let mut res: Vec<char> = Vec::new();
    for i in from..to
        invariant
            from <= to <= v.len(),
            res@ == v@.subrange(from as int, i as int),
    {
        res.push(v[i]);
        assert(v@.subrange(from as int, i + 1) == v@.subrange(from as int, i as int).push(
            v@[i as int],
        ));
    }
    res
}

fn text_key_chars() -> (res: Vec<char>)
    ensures
        res@ == text_key(),
{
    vec!['"', 't', 'e', 'x', 't', '"', ':', '"']
}

fn short_escape_char(x: char) -> (res: Option<char>)
    ensures
        res == short_escape(x),
{
    if x == 'n' {
        Some('\n')
    } else if x == 'r' {
        Some('\r')
    } else if x == 't' {
        Some('\t')
    } else if x == '"' {
        Some('"')
    } else if x == '\\' {
        Some('\\')
    } else {
        None
    }
}

fn unescape_chars(e: &[char]) -> (res: Vec<char>)
    ensures
        res@ == unescape_text(e@),
{
    let mut res: Vec<char> = Vec::new();
    let mut i: usize = 0;
    assert(e@.skip(0) == e@);
    while i < e.len()
        invariant
            i <= e.len(),
            unescape_text(e@) == res@ + unescape_text(e@.skip(i as int)),
        decreases e.len() - i,
    {
        let ghost rest = e@.skip(i as int);
        let mut step: usize = 1;
        let mut out: char = e[i];
        if e[i] == '\\' && i + 1 < e.len() {
            if let Some(c) = short_escape_char(e[i + 1]) {
                out = c;
                step = 2;
            }
        }
        assert(rest[0] == e@[i as int]);
        assert(rest.len() >= 2 ==> rest[1] == e@[i + 1]);
        assert(rest.skip(step as int) =~= e@.skip(i + step));
        assert(unescape_text(rest) == seq![out] + unescape_text(rest.skip(step as int)));
        res.push(out);
        assert(res@ + unescape_text(e@.skip(i + step)) =~= (res@.drop_last() + seq![out])
            + unescape_text(e@.skip(i + step)));
        i = i + step;
    }
    res
}

/// Extracts the `"text"` value of the last `{"type":"text","text":"..."}` in a
/// JSON reply, without a JSON parser; empty where there is none.
pub fn extract_json_text_field(json: &str) -> (res: String)
    requires
        !text_scan_overruns(json@),
    ensures
        res@ == extracted_text(json@),
{
    let v = chars_of(json);
    let key = text_key_chars();
    match rfind_chars(&v, &key) {
        Some(pos) => {
            proof {
                crate::text::lemma_last_occurrence(v@, key@);
                assert(occurs_at(v@, key@, pos as int));
                assert(pos + key@.len() <= v@.len());
            }
            assert(pos + key.len() <= v.len());
            let start: usize = pos + key.len();
            match scan_text_end(&v, start) {
                Some(end) => {
                    let escaped = sub_chars(&v, start, start + end);
                    assert(escaped@ == v@.skip(start as int).take(end as int));
                    let text = unescape_chars(&escaped);
                    string_of(&text)
                },
                None => String::new(),
            }
        },
        None => String::new(),
    }
}

/// Whether the scan for the end of the text of `json` overruns it.
pub fn text_field_overruns(json: &str) -> (res: bool)
    ensures
        res == text_scan_overruns(json@),
{
    let v = chars_of(json);
    let key = text_key_chars();
    match rfind_chars(&v, &key) {
        Some(pos) => {
            proof {
                crate::text::lemma_last_occurrence(v@, key@);
            }
            assert(pos + key.len() <= v.len());
            scan_text_end(&v, pos + key.len()).is_none()
        },
        None => false,
    }
}

// ---------------------------------------------------------------------------
// The model's quoting tokens
// ---------------------------------------------------------------------------

/// `<|\"|>`: the quoting token as it stands inside a JSON string value.
pub open spec fn escaped_quote_token() -> Seq<char> {
    seq!['<', '|', '\\', '"', '|', '>']
}

/// `<|"|>`: the quoting token as the model writes it.
pub open spec fn quote_token() -> Seq<char> {
    seq!['<', '|', '"', '|', '>']
}

/// `json` with the escaped form of the token removed, then the plain form.
pub open spec fn stripped(json: Seq<char>) -> Seq<char> {
    replace_all(replace_all(json, escaped_quote_token(), Seq::empty()), quote_token(), Seq::empty())
}

/// A reply that holds neither form of the quoting token is kept as it is.
pub proof fn law_strip_keeps_clean_reply(json: Seq<char>)
    requires
        !contains_seq(json, escaped_quote_token()),
        !contains_seq(json, quote_token()),
    ensures
        stripped(json) == json,
{
    crate::text::lemma_replace_absent(json, escaped_quote_token(), Seq::empty());
    crate::text::lemma_replace_absent(json, quote_token(), Seq::empty());
}

/// Stripping leaves no quoting token, and no `<` at all, in a reply whose
/// every `<` starts a quoting token in one form or the other.
pub proof fn law_strip_removes_every_token(json: Seq<char>)
    requires
        forall|i: int|
            0 <= i < json.len() && json[i] == '<' ==> occurs_at(json, escaped_quote_token(), i)
                || occurs_at(json, quote_token(), i),
    ensures
        forall|i: int| 0 <= i < stripped(json).len() ==> stripped(json)[i] != '<',
        !contains_seq(stripped(json), escaped_quote_token()),
        !contains_seq(stripped(json), quote_token()),
{
    let p = escaped_quote_token();
    let q = quote_token();
    assert(crate::text::led_by(p, '<'));
    assert(crate::text::led_by(q, '<'));
    assert(crate::text::each_starts(json, '<', p, q));
    crate::text::lemma_remove_first_form(json, '<', p, q);
    let once = replace_all(json, p, Seq::empty());
    crate::text::lemma_remove_second_form(once, '<', q);
    let r = stripped(json);
    assert forall|i: int| !occurs_at(r, p, i) && !occurs_at(r, q, i) by {
        if occurs_at(r, p, i) {
            assert(r.subrange(i, i + p.len())[0] == r[i]);
        }
        if occurs_at(r, q, i) {
            assert(r.subrange(i, i + q.len())[0] == r[i]);
        }
    }
}

proof fn lemma_no_angle_prefix(a: Seq<char>, u: Seq<char>)
    requires
        forall|k: int| 0 <= k < a.len() ==> a[k] != '<',
    ensures
        stripped(a + u) == a + stripped(u),
{
    crate::text::lemma_replace_prefix_without(a, u, escaped_quote_token(), Seq::empty());
    let once = replace_all(u, escaped_quote_token(), Seq::empty());
    crate::text::lemma_replace_prefix_without(a, once, quote_token(), Seq::empty());
}

/// Text before the first `<` of a reply is kept as it is: stripping works on
/// what follows it alone.
pub proof fn law_strip_keeps_text_before_angle(a: Seq<char>, u: Seq<char>)
    requires
        forall|k: int| 0 <= k < a.len() ==> a[k] != '<',
    ensures
        stripped(a + u) == a + stripped(u),
{
    lemma_no_angle_prefix(a, u);
}

/// A quoting token in its escaped form, `<|\"|>`, is removed wherever it
/// starts what is left to strip.
pub proof fn law_strip_drops_escaped_token(u: Seq<char>)
    ensures
        stripped(escaped_quote_token() + u) == stripped(u),
{
    let t = escaped_quote_token() + u;
    assert(t.subrange(0, 6) =~= escaped_quote_token());
    assert(t.skip(6) =~= u);
}

/// A quoting token in its plain form, `<|"|>`, is removed wherever it starts
/// what is left to strip.
pub proof fn law_strip_drops_plain_token(u: Seq<char>)
    ensures
        stripped(quote_token() + u) == stripped(u),
{
    let p = escaped_quote_token();
    let q = quote_token();
    let t = q + u;
    assert(!occurs_at(t, p, 0)) by {
        if occurs_at(t, p, 0) {
            assert(t.subrange(0, 6)[2] == t[2]);
        }
    }
    assert(t.skip(1) =~= q.skip(1) + u);
    crate::text::lemma_replace_prefix_without(q.skip(1), u, p, Seq::empty());
    let once = replace_all(u, p, Seq::empty());
    assert(replace_all(t, p, Seq::empty()) == seq![t[0]] + (q.skip(1) + once));
    let w = q + once;
    assert(seq![t[0]] + (q.skip(1) + once) =~= w);
    assert(w.subrange(0, 5) =~= q);
    assert(w.skip(5) =~= once);
}

/// A `<` that starts no quoting token is kept: where what follows it is
/// empty, or neither starts with `|` nor with an escaped token, stripping
/// keeps the `<` and goes on after it.
pub proof fn law_strip_keeps_other_angle(u: Seq<char>)
    requires
        u.len() == 0 || (u[0] != '|' && !occurs_at(u, escaped_quote_token(), 0)),
    ensures
        stripped(seq!['<'] + u) == seq!['<'] + stripped(u),
{
    let p = escaped_quote_token();
    let q = quote_token();
    let t = seq!['<'] + u;
    assert(t.skip(1) =~= u);
    assert(!occurs_at(t, p, 0)) by {
        if occurs_at(t, p, 0) {
            assert(t.subrange(0, 6)[1] == t[1]);
        }
    }
    let once = replace_all(u, p, Seq::empty());
    assert(replace_all(t, p, Seq::empty()) == seq!['<'] + once);
    if u.len() > 0 {
        lemma_first_kept(u, p);
    }
    let w = seq!['<'] + once;
    assert(!occurs_at(w, q, 0)) by {
        if occurs_at(w, q, 0) {
            assert(w.subrange(0, 5)[1] == w[1]);
            assert(w[1] == once[0]);
        }
    }
    assert(w.skip(1) =~= once);
}

proof fn lemma_first_kept(u: Seq<char>, p: Seq<char>)
    requires
        u.len() > 0,
        p.len() > 0,
        !occurs_at(u, p, 0),
    ensures
        replace_all(u, p, Seq::empty()).len() > 0,
        replace_all(u, p, Seq::empty())[0] == u[0],
{
    assert(replace_all(u, p, Seq::empty()) == seq![u[0]] + replace_all(u.skip(1), p, Seq::empty()));
}

/// Strips the model's `<|"|>` string-quoting tokens from a JSON reply, in
/// their escaped form `<|\"|>` first and then in their plain form.
pub fn strip_gemma_quote_tokens(json: &str) -> (res: String)
    ensures
        res@ == stripped(json@),
{
    let v = chars_of(json);
    let escaped_token = vec!['<', '|', '\\', '"', '|', '>'];
    let token = vec!['<', '|', '"', '|', '>'];
    let nothing: Vec<char> = Vec::new();
    assert(escaped_token@ =~= escaped_quote_token());
    assert(token@ =~= quote_token());
    let once = replace_chars(&v, &escaped_token, &nothing);
    let twice = replace_chars(&once, &token, &nothing);
    string_of(&twice)
}


// ---------------------------------------------------------------------------
// Reading a JSON string literal back (RFC 8259), for the laws below
// ---------------------------------------------------------------------------

/// The value of a hexadecimal digit, either case.
pub open spec fn hex_value(c: char) -> Option<int> {
    let n: u32 = c as u32;
    if 0x30 <= n <= 0x39 {
        Some(n - 0x30)
    } else if 0x61 <= n <= 0x66 {
        Some(n - 0x61 + 10)
    } else if 0x41 <= n <= 0x46 {
        Some(n - 0x41 + 10)
    } else {
        None
    }
}

/// The value of the four hex digits `t[0..4]`.
pub open spec fn hex4_value(t: Seq<char>) -> Option<int> {
    match (hex_value(t[0]), hex_value(t[1]), hex_value(t[2]), hex_value(t[3])) {
        (Some(a), Some(b), Some(c), Some(d)) => Some(a * 4096 + b * 256 + c * 16 + d),
        _ => None,
    }
}

/// How many characters the escape sequence at the start of `t` spans.
pub open spec fn escape_width(t: Seq<char>) -> int {
    if t.len() >= 2 && t[1] == 'u' {
        6
    } else {
        2
    }
}

/// The character that the escape sequence at the start of `t` stands for;
/// `None` where it is no JSON escape. Surrogate halves, which need a pair of
/// escapes, are not read.
pub open spec fn escaped_char(t: Seq<char>) -> Option<char> {
    let e = t[1];
    if e == '"' {
        Some('"')
    } else if e == '\\' {
        Some('\\')
    } else if e == '/' {
        Some('/')
    } else if e == 'b' {
        Some('\x08')
    } else if e == 'f' {
        Some('\x0c')
    } else if e == 'n' {
        Some('\n')
    } else if e == 'r' {
        Some('\r')
    } else if e == 't' {
        Some('\t')
    } else if e == 'u' {
        match hex4_value(t.subrange(2, 6)) {
            Some(v) => if v < 0xd800 || 0xdfff < v {
                Some(v as char)
            } else {
                None
            },
            None => None,
        }
    } else {
        None
    }
}

/// The characters that the inside of a JSON string literal stands for; `None`
/// where it is not valid JSON (a bare quote or control character, or a bad escape).
pub open spec fn json_unescape(t: Seq<char>) -> Option<Seq<char>>
    decreases t.len(),
{
    if t.len() == 0 {
        Some(Seq::empty())
    } else if t[0] == '\\' {
        if t.len() >= escape_width(t) {
            match (escaped_char(t), json_unescape(t.skip(escape_width(t)))) {
                (Some(c), Some(rest)) => Some(seq![c] + rest),
                _ => None,
            }
        } else {
            None
        }
    } else if t[0] == '"' || (t[0] as u32) < 0x20 {
        None
    } else {
        match json_unescape(t.skip(1)) {
            Some(rest) => Some(seq![t[0]] + rest),
            None => None,
        }
    }
}

/// The string that a JSON string literal (quotes included) stands for.
pub open spec fn json_string_value(lit: Seq<char>) -> Option<Seq<char>> {
    if lit.len() >= 2 && lit[0] == '"' && lit.last() == '"' {
        json_unescape(lit.subrange(1, lit.len() - 1))
    } else {
        None
    }
}

proof fn lemma_escape_seq_prepend(c: char, s: Seq<char>)
    ensures
        escape_seq(seq![c] + s) == escape_char(c) + escape_seq(s),
    decreases s.len(),
{
    if s.len() == 0 {
        assert(seq![c] + s =~= seq![c]);
        assert(seq![c].drop_last() =~= Seq::<char>::empty());
        assert(escape_seq(Seq::<char>::empty()) =~= Seq::<char>::empty());
        assert(escape_seq(seq![c]) =~= escape_char(c));
        assert(escape_char(c) + escape_seq(s) =~= escape_char(c));
    } else {
        let t = seq![c] + s;
        assert(t.drop_last() =~= seq![c] + s.drop_last());
        assert(t.last() == s.last());
        lemma_escape_seq_prepend(c, s.drop_last());
        assert(escape_seq(t) =~= escape_char(c) + escape_seq(s));
    }
}

proof fn lemma_hex_digit_value(d: int)
    requires
        0 <= d < 16,
    ensures
        hex_value(hex_digits()[d]) == Some(d),
{
}

proof fn lemma_unescape_char(c: char, rest: Seq<char>)
    ensures
        json_unescape(escape_char(c) + rest) == match json_unescape(rest) {
            Some(r) => Some(seq![c] + r),
            None => None::<Seq<char>>,
        },
{
    let t = escape_char(c) + rest;
    let w: int = escape_char(c).len() as int;
    assert(t.skip(w) =~= rest);
    if (c as u32) < 0x20 && c != '\n' && c != '\r' && c != '\t' {
        let n: int = c as int;
        lemma_hex_digit_value(0);
        lemma_hex_digit_value(n / 16);
        lemma_hex_digit_value(n % 16);
        assert(t.subrange(2, 6) =~= seq![
            hex_digits()[0],
            hex_digits()[0],
            hex_digits()[n / 16],
            hex_digits()[n % 16],
        ]);
        assert(hex4_value(t.subrange(2, 6)) == Some(n));
        assert((n as char) == c);
    }
}

proof fn lemma_unescape_escape_seq(s: Seq<char>)
    ensures
        json_unescape(escape_seq(s)) == Some(s),
    decreases s.len(),
{
    if s.len() == 0 {
    } else {
        let rest = s.skip(1);
        assert(s =~= seq![s[0]] + rest);
        lemma_escape_seq_prepend(s[0], rest);
        lemma_unescape_escape_seq(rest);
        lemma_unescape_char(s[0], escape_seq(rest));
    }
}

/// Every string survives `json_encode_string`: the JSON string literal it
/// writes stands for the string itself.
pub proof fn law_json_string_round_trip(s: Seq<char>)
    ensures
        json_string_value(json_string_literal(s)) == Some(s),
{
    let lit = json_string_literal(s);
    assert(lit.subrange(1, lit.len() - 1) =~= escape_seq(s));
    lemma_unescape_escape_seq(s);
}


// ---------------------------------------------------------------------------
// Reading back a text field that the encoder wrote
// ---------------------------------------------------------------------------

/// A character that the text field is read back as: anything but a control
/// character other than `\n`, `\r` and `\t` (those are written as `\u` escapes,
/// which the text field is not read with).
pub open spec fn plain_text_char(c: char) -> bool {
    0x20 <= (c as u32) || c == '\n' || c == '\r' || c == '\t'
}

/// How a plain character is written: itself, or a backslash and the letter
/// that `short_escape` reads back as it.
proof fn lemma_plain_piece(c: char)
    requires
        plain_text_char(c),
    ensures
        escape_char(c) == seq![c] && c != '\\' && c != '"' || escape_char(c).len() == 2
            && escape_char(c)[0] == '\\' && short_escape(escape_char(c)[1]) == Some(c),
{
    if c == '"' {
        assert(escape_char(c) =~= seq!['\\', '"']);
    } else if c == '\\' {
        assert(escape_char(c) =~= seq!['\\', '\\']);
    } else if c == '\n' {
        assert(escape_char(c) =~= seq!['\\', 'n']);
    } else if c == '\r' {
        assert(escape_char(c) =~= seq!['\\', 'r']);
    } else if c == '\t' {
        assert(escape_char(c) =~= seq!['\\', 't']);
    } else {
        assert(escape_char(c) =~= seq![c]);
    }
}

proof fn lemma_unescape_plain(s: Seq<char>)
    requires
        forall|i: int| 0 <= i < s.len() ==> plain_text_char(#[trigger] s[i]),
    ensures
        unescape_text(escape_seq(s)) == s,
    decreases s.len(),
{
    if s.len() == 0 {
        assert(escape_seq(s) =~= Seq::<char>::empty());
    } else {
        let rest = s.skip(1);
        assert(s =~= seq![s[0]] + rest);
        lemma_escape_seq_prepend(s[0], rest);
        assert forall|i: int| 0 <= i < rest.len() implies plain_text_char(#[trigger] rest[i]) by {
            assert(rest[i] == s[i + 1]);
        }
        lemma_unescape_plain(rest);
        lemma_plain_piece(s[0]);
        let p = escape_char(s[0]);
        let t = p + escape_seq(rest);
        assert(t.skip(p.len() as int) =~= escape_seq(rest));
        if p.len() == 1 {
            assert(t[0] == s[0]);
        } else {
            assert(t[0] == '\\' && t[1] == p[1]);
        }
    }
}

proof fn lemma_text_end_shift(t: Seq<char>, j: int, k: int)
    requires
        0 <= j <= t.len(),
        0 <= k,
    ensures
        text_end(t, j + k) == j + text_end(t.skip(j), k),
    decreases t.len() - (j + k),
{
    let u = t.skip(j);
    if j + k < t.len() {
        assert(t[j + k] == u[k]);
        if t[j + k] == '\\' {
            if j + k + 1 < t.len() {
                lemma_text_end_shift(t, j, k + 2);
            }
        } else if t[j + k] != '"' {
            lemma_text_end_shift(t, j, k + 1);
        }
    }
}

proof fn lemma_text_end_escaped(s: Seq<char>, r: Seq<char>)
    requires
        forall|i: int| 0 <= i < s.len() ==> plain_text_char(#[trigger] s[i]),
    ensures
        text_end(escape_seq(s) + r, 0) == escape_seq(s).len() + text_end(r, 0),
    decreases s.len(),
{
    if s.len() == 0 {
        assert(escape_seq(s) + r =~= r);
    } else {
        let rest = s.skip(1);
        assert(s =~= seq![s[0]] + rest);
        lemma_escape_seq_prepend(s[0], rest);
        assert forall|i: int| 0 <= i < rest.len() implies plain_text_char(#[trigger] rest[i]) by {
            assert(rest[i] == s[i + 1]);
        }
        lemma_text_end_escaped(rest, r);
        let p = escape_char(s[0]);
        let t = escape_seq(s) + r;
        assert(t =~= p + (escape_seq(rest) + r));
        let w: int = p.len() as int;
        lemma_plain_piece(s[0]);
        assert(text_end(t, 0) == text_end(t, w)) by {
            if w == 1 {
                assert(t[0] == p[0]);
                assert(p =~= seq![s[0]]);
            } else {
                assert(t[0] == '\\');
            }
        }
        lemma_text_end_shift(t, w, 0);
        assert(t.skip(w) =~= escape_seq(rest) + r);
    }
}

proof fn lemma_escaped_quotes(s: Seq<char>, i: int)
    requires
        forall|k: int| 0 <= k < s.len() ==> plain_text_char(#[trigger] s[k]),
        0 <= i < escape_seq(s).len(),
        escape_seq(s)[i] == '"',
    ensures
        i >= 1,
        escape_seq(s)[i - 1] == '\\',
    decreases s.len(),
{
    let last = s.last();
    let init = s.drop_last();
    assert forall|k: int| 0 <= k < init.len() implies plain_text_char(#[trigger] init[k]) by {
        assert(init[k] == s[k]);
    }
    let e = escape_seq(init);
    let p = escape_char(last);
    assert(escape_seq(s) == e + p);
    assert(plain_text_char(s[s.len() - 1]));
    if i < e.len() {
        assert(escape_seq(s)[i] == e[i]);
        lemma_escaped_quotes(init, i);
        assert(escape_seq(s)[i - 1] == e[i - 1]);
    } else {
        if last == '"' {
            assert(p =~= seq!['\\', '"']);
        } else if last == '\\' {
            assert(p =~= seq!['\\', '\\']);
        } else if last == '\n' {
            assert(p =~= seq!['\\', 'n']);
        } else if last == '\r' {
            assert(p =~= seq!['\\', 'r']);
        } else if last == '\t' {
            assert(p =~= seq!['\\', 't']);
        } else {
            assert(p =~= seq![last]);
        }
    }
}

/// `"text":`, the key of a text field and its colon.
pub open spec fn text_field_key() -> Seq<char> {
    seq!['"', 't', 'e', 'x', 't', '"', ':']
}

/// A JSON reply with the text field holding the literal for `s`.
spec fn reply_with_text(pre: Seq<char>, s: Seq<char>, post: Seq<char>) -> Seq<char> {
    pre + text_field_key() + json_string_literal(s) + post
}

proof fn lemma_no_later_key_at(pre: Seq<char>, s: Seq<char>, post: Seq<char>, j: int)
    requires
        forall|i: int| 0 <= i < s.len() ==> plain_text_char(#[trigger] s[i]),
        post.len() == 0 || post[0] != ':',
        !contains_seq(seq!['"'] + post, text_key()),
        pre.len() < j,
    ensures
        !occurs_at(reply_with_text(pre, s, post), text_key(), j),
{
    let k = text_key();
    let e = escape_seq(s);
    let q = seq!['"'] + post;
    let json = reply_with_text(pre, s, post);
    let p: int = pre.len() as int;
    let base: int = p + 8;
    let c: int = base + e.len();
    assert(json =~= pre + k + e + q);
    if occurs_at(json, k, j) {
        let m = json.subrange(j, j + 8);
        assert(m == k);
        assert(json[j + 4] == 't');
        assert(json[j + 5] == '"');
        assert(json[j + 6] == ':');
        assert(json[c] == '"');
        if j + 5 < base {
            assert(json[p + 6] == ':');
            assert(json[p + 7] == '"');
        } else if j + 5 < c {
            assert(json[j + 5] == e[j + 5 - base]);
            lemma_escaped_quotes(s, j + 5 - base);
            assert(json[j + 4] == e[j + 4 - base]);
        } else if j + 5 == c {
            assert(json[j + 6] == post[0]);
        } else if j < c {
            assert(json[c] == m[c - j]);
        } else {
            let i: int = j - c;
            assert(q.subrange(i, i + 8) =~= m);
            assert(occurs_at(q, k, i));
        }
    }
}

proof fn lemma_key_found(pre: Seq<char>, s: Seq<char>, post: Seq<char>)
    requires
        forall|i: int| 0 <= i < s.len() ==> plain_text_char(#[trigger] s[i]),
        post.len() == 0 || post[0] != ':',
        !contains_seq(seq!['"'] + post, text_key()),
    ensures
        last_occurrence(reply_with_text(pre, s, post), text_key()) == Some(pre.len() as int),
{
    let k = text_key();
    let json = reply_with_text(pre, s, post);
    let p: int = pre.len() as int;
    assert(json =~= pre + k + escape_seq(s) + (seq!['"'] + post));
    assert(json.subrange(p, p + 8) =~= k);
    assert(occurs_at(json, k, p));
    crate::text::lemma_last_occurrence(json, k);
    match last_occurrence(json, k) {
        Some(l) => {
            if l < p {
                assert(!occurs_at(json, k, p));
            } else if l > p {
                lemma_no_later_key_at(pre, s, post, l);
            }
        },
        None => {
            assert(contains_seq(json, k));
        },
    }
}

/// The text written by `json_encode_string` into a `"text"` field is read back
/// exactly, where it holds no control character but a newline, carriage
/// return or tab, and where what follows its closing quote
/// neither starts with a colon nor holds another `"text":"`.
pub proof fn law_text_field_round_trip(pre: Seq<char>, s: Seq<char>, post: Seq<char>)
    requires
        forall|i: int| 0 <= i < s.len() ==> plain_text_char(#[trigger] s[i]),
        post.len() == 0 || post[0] != ':',
        !contains_seq(seq!['"'] + post, text_key()),
    ensures
        !text_scan_overruns(pre + text_field_key() + json_string_literal(s) + post),
        extracted_text(pre + text_field_key() + json_string_literal(s) + post) == s,
{
    let e = escape_seq(s);
    let q = seq!['"'] + post;
    let json = reply_with_text(pre, s, post);
    lemma_key_found(pre, s, post);
    let tail = json.skip(pre.len() + 8int);
    assert(tail =~= e + q);
    assert(text_tail(json) == Some(tail));
    lemma_text_end_escaped(s, q);
    assert(text_end(q, 0) == 0);
    assert(tail.take(e.len() as int) =~= e);
    lemma_unescape_plain(s);
}

}
