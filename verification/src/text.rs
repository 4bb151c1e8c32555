//! Text building blocks of the canonical form: string literals and decimal
//! numbers.

use vstd::prelude::*;
use vstd::string::*;

verus! {

/// `String::push` appends one character at the end and touches nothing
/// else.
pub assume_specification[ String::push ](s: &mut String, c: char)
    ensures
        final(s)@ == old(s)@.push(c),
;

/// Lower-case hexadecimal digit for a value below sixteen.
pub open spec fn hex_digit(v: int) -> char {
    if v < 10 {
        ((0x30 + v) as u8) as char
    } else {
        ((0x61 + v - 10) as u8) as char
    }
}

/// A backslash followed by `c`.
pub open spec fn short_escape(c: char) -> Seq<char> {
    seq!['\\', c]
}

/// `\u00` followed by the two hexadecimal digits of `v`, for `v < 256`.
pub open spec fn unicode_escape(v: int) -> Seq<char> {
    seq!['\\', 'u', '0', '0', hex_digit(v / 16), hex_digit(v % 16)]
}

/// How a plain JSON writer renders one character inside a string literal:
/// the quote, the backslash and the control characters are escaped, all
/// other characters stand for themselves.
pub open spec fn json_escape_char(c: char) -> Seq<char> {
    if c == '"' {
        short_escape('"')
    } else if c == '\\' {
        short_escape('\\')
    } else if c == '\u{08}' {
        short_escape('b')
    } else if c == '\u{0c}' {
        short_escape('f')
    } else if c == '\n' {
        short_escape('n')
    } else if c == '\r' {
        short_escape('r')
    } else if c == '\t' {
        short_escape('t')
    } else if (c as u32) < 0x20 {
        unicode_escape(c as int)
    } else {
        seq![c]
    }
}

/// [`json_escape_char`] as a function value.
pub open spec fn json_escaper() -> spec_fn(char) -> Seq<char> {
    |c: char| json_escape_char(c)
}

/// The JSON string literal of `s` as a plain JSON writer renders it.
pub open spec fn json_string_literal(s: Seq<char>) -> Seq<char> {
    seq!['"'] + s.flat_map(json_escaper()) + seq!['"']
}

/// True for the three characters that the canonical form never shows bare.
pub open spec fn is_html_sensitive(c: char) -> bool {
    c == '<' || c == '>' || c == '&'
}

/// One character with the HTML-sensitive ones replaced by their `\u00XX`
/// form.
pub open spec fn html_escape_char(c: char) -> Seq<char> {
    if is_html_sensitive(c) {
        unicode_escape(c as int)
    } else {
        seq![c]
    }
}

/// [`html_escape_char`] as a function value.
pub open spec fn html_escaper() -> spec_fn(char) -> Seq<char> {
    |c: char| html_escape_char(c)
}

/// `s` with every `<`, `>` and `&` replaced by its `\u00XX` form.
pub open spec fn html_escape(s: Seq<char>) -> Seq<char> {
    s.flat_map(html_escaper())
}

/// How the canonical form renders one character inside a string literal.
pub open spec fn canonical_escape_char(c: char) -> Seq<char> {
    if is_html_sensitive(c) {
        unicode_escape(c as int)
    } else {
        json_escape_char(c)
    }
}

/// [`canonical_escape_char`] as a function value.
pub open spec fn canonical_escaper() -> spec_fn(char) -> Seq<char> {
    |c: char| canonical_escape_char(c)
}

/// The canonical string literal of `s`: quoted, escaped as JSON, and with
/// `<`, `>`, `&` written in their `\u00XX` form.
pub open spec fn canonical_string(s: Seq<char>) -> Seq<char> {
    seq!['"'] + s.flat_map(canonical_escaper()) + seq!['"']
}

/// The decimal digit for a value below ten.
pub open spec fn digit_char(d: nat) -> char {
    ((0x30 + d) as u8) as char
}

/// Plain decimal digits of `n`: no sign, no leading zero.
pub open spec fn decimal(n: nat) -> Seq<char>
    decreases n,
{
    if n < 10 {
        seq![digit_char(n)]
    } else {
        decimal(n / 10).push(digit_char(n % 10))
    }
}

/// True for the ten decimal digits.
pub open spec fn is_digit(c: char) -> bool {
    '0' <= c <= '9'
}

/// A number is written with one digit or more, with digits only, and without
/// a leading zero unless it is zero.
pub proof fn law_decimal_plain(n: nat)
    ensures
        decimal(n).len() >= 1,
        forall|i: int| 0 <= i < decimal(n).len() ==> is_digit(#[trigger] decimal(n)[i]),
        decimal(n)[0] == '0' ==> n == 0,
    decreases n,
{
    if n >= 10 {
        law_decimal_plain(n / 10);
        assert(decimal(n)[0] == decimal(n / 10)[0]);
    }
}

/// Calls `serde_json::to_string` on a string slice. That function writes an
/// opening quote, then each byte of the input either unchanged or, where its
/// escape table marks it (the quote, the backslash, and the bytes below
/// 0x20), as `\"`, `\\`, `\b`, `\t`, `\n`, `\f`, `\r` or `\u00XX` with
/// lower-case hexadecimal digits, then a closing quote. Its writer is a
/// vector in memory, so it does not fail. The marked bytes are all ASCII, so
/// the rule reads the same character by character.
#[verifier::external_body]
fn json_quote(s: &str) -> (quoted: String)
    ensures
        quoted@ == json_string_literal(s@),
{
    serde_json::to_string(s).unwrap_or_default()
}

/// flat_map unfolds at the front.
pub proof fn lemma_flat_map_first(s: Seq<char>, f: spec_fn(char) -> Seq<char>)
    requires
        s.len() > 0,
    ensures
        s.flat_map(f) == f(s[0]) + s.drop_first().flat_map(f),
{
    assert(s.map_values(f).drop_first() =~= s.drop_first().map_values(f));
}

/// flat_map of a concatenation is the concatenation of the flat_maps.
pub proof fn lemma_flat_map_concat(a: Seq<char>, b: Seq<char>, f: spec_fn(char) -> Seq<char>)
    ensures
        (a + b).flat_map(f) == a.flat_map(f) + b.flat_map(f),
    decreases a.len(),
{
    if a.len() == 0 {
        assert(a + b =~= b);
        assert(a.flat_map(f) =~= Seq::<char>::empty());
        assert(a.flat_map(f) + b.flat_map(f) =~= b.flat_map(f));
    } else {
        lemma_flat_map_first(a, f);
        lemma_flat_map_first(a + b, f);
        assert((a + b).drop_first() =~= a.drop_first() + b);
        lemma_flat_map_concat(a.drop_first(), b, f);
        assert(f(a[0]) + (a.drop_first().flat_map(f) + b.flat_map(f)) =~= (f(a[0])
            + a.drop_first().flat_map(f)) + b.flat_map(f));
    }
}

/// No character of a JSON escape is HTML-sensitive, so escaping for HTML
/// after escaping for JSON gives the canonical escape.
proof fn lemma_html_escape_of_json_escape(c: char)
    ensures
        html_escape(json_escape_char(c)) == canonical_escape_char(c),
{
    let e = json_escape_char(c);
    let h = html_escaper();
    if is_html_sensitive(c) {
        assert(e =~= seq![c]);
        e.lemma_flat_map_singleton(h);
    } else if e.len() == 1 {
        e.lemma_flat_map_singleton(h);
    } else if e.len() == 2 {
        let a = seq![e[0]];
        let b = seq![e[1]];
        assert(e =~= a + b);
        lemma_flat_map_concat(a, b, h);
        a.lemma_flat_map_singleton(h);
        b.lemma_flat_map_singleton(h);
        assert(h(e[0]) + h(e[1]) =~= e);
    } else {
        let v = c as int;
        assert(e == unicode_escape(v));
        assert(0 <= v < 0x20);
        assert(!is_html_sensitive(hex_digit(v / 16)));
        assert(!is_html_sensitive(hex_digit(v % 16)));
        let head = seq![e[0], e[1], e[2], e[3]];
        let a = seq![e[4]];
        let b = seq![e[5]];
        assert(e =~= head + a + b);
        lemma_html_escape_plain(head);
        lemma_flat_map_concat(head + a, b, h);
        lemma_flat_map_concat(head, a, h);
        a.lemma_flat_map_singleton(h);
        b.lemma_flat_map_singleton(h);
        assert(head + h(e[4]) + h(e[5]) =~= e);
    }
}

/// Text without HTML-sensitive characters is left as it is.
proof fn lemma_html_escape_plain(s: Seq<char>)
    requires
        forall|i: int| 0 <= i < s.len() ==> !is_html_sensitive(#[trigger] s[i]),
    ensures
        html_escape(s) == s,
    decreases s.len(),
{
    let h = html_escaper();
    if s.len() == 0 {
        assert(s.flat_map(h) =~= s);
    } else {
        lemma_flat_map_first(s, h);
        lemma_html_escape_plain(s.drop_first());
        assert(seq![s[0]] + s.drop_first() =~= s);
    }
}

/// Escaping for HTML after escaping for JSON, over a whole text.
proof fn lemma_html_escape_of_json_escaped(s: Seq<char>)
    ensures
        html_escape(s.flat_map(json_escaper())) == s.flat_map(canonical_escaper()),
    decreases s.len(),
{
    let j = json_escaper();
    let k = canonical_escaper();
    if s.len() == 0 {
        assert(s.flat_map(j) =~= Seq::<char>::empty());
        assert(s.flat_map(k) =~= Seq::<char>::empty());
        assert(Seq::<char>::empty().flat_map(html_escaper()) =~= Seq::<char>::empty());
    } else {
        lemma_flat_map_first(s, j);
        lemma_flat_map_first(s, k);
        lemma_flat_map_concat(j(s[0]), s.drop_first().flat_map(j), html_escaper());
        lemma_html_escape_of_json_escape(s[0]);
        lemma_html_escape_of_json_escaped(s.drop_first());
    }
}

/// The canonical string literal is the JSON literal escaped for HTML.
pub proof fn lemma_canonical_string_is_html_escaped_json(s: Seq<char>)
    ensures
        html_escape(json_string_literal(s)) == canonical_string(s),
{
    let q = seq!['"'];
    let body = s.flat_map(json_escaper());
    let h = html_escaper();
    lemma_flat_map_concat(q + body, q, h);
    lemma_flat_map_concat(q, body, h);
    q.lemma_flat_map_singleton(h);
    lemma_html_escape_of_json_escaped(s);
}

/// A text in which none of `<`, `>`, `&` occurs.
pub open spec fn html_safe(t: Seq<char>) -> bool {
    forall|i: int| 0 <= i < t.len() ==> !is_html_sensitive(#[trigger] t[i])
}

/// Joining two texts without HTML-sensitive characters gives such a text.
pub proof fn lemma_html_safe_concat(a: Seq<char>, b: Seq<char>)
    requires
        html_safe(a),
        html_safe(b),
    ensures
        html_safe(a + b),
{
    assert forall|i: int| 0 <= i < (a + b).len() implies !is_html_sensitive(
        #[trigger] (a + b)[i],
    ) by {
        if i < a.len() {
            assert((a + b)[i] == a[i]);
        } else {
            assert((a + b)[i] == b[i - a.len()]);
        }
    }
}

/// No canonical escape holds a bare `<`, `>` or `&`.
proof fn lemma_canonical_escape_html_safe(c: char)
    ensures
        html_safe(canonical_escape_char(c)),
{
}

/// No escaped text holds a bare `<`, `>` or `&`.
proof fn lemma_canonical_escaped_html_safe(s: Seq<char>)
    ensures
        html_safe(s.flat_map(canonical_escaper())),
    decreases s.len(),
{
    let k = canonical_escaper();
    if s.len() == 0 {
        assert(s.flat_map(k) =~= Seq::<char>::empty());
    } else {
        lemma_flat_map_first(s, k);
        lemma_canonical_escape_html_safe(s[0]);
        lemma_canonical_escaped_html_safe(s.drop_first());
        lemma_html_safe_concat(canonical_escape_char(s[0]), s.drop_first().flat_map(k));
    }
}

/// Whatever the string, its canonical literal holds no bare `<`, `>` or
/// `&`: each is written in its `\u00XX` form.
pub proof fn law_canonical_string_html_safe(s: Seq<char>)
    ensures
        html_safe(canonical_string(s)),
{
    let q = seq!['"'];
    let body = s.flat_map(canonical_escaper());
    lemma_canonical_escaped_html_safe(s);
    lemma_html_safe_concat(q, body);
    lemma_html_safe_concat(q + body, q);
}

/// A decimal number holds digits only.
pub proof fn lemma_decimal_html_safe(n: nat)
    ensures
        html_safe(decimal(n)),
    decreases n,
{
    if n >= 10 {
        lemma_decimal_html_safe(n / 10);
    }
}

/// Appends `s` to `out` with `<`, `>` and `&` replaced by their `\u00XX`
/// form.
pub fn push_html_escaped(out: &mut String, s: &str)
    ensures
        final(out)@ == old(out)@ + html_escape(s@),
{
    broadcast use vstd::string::group_string_axioms;

    let ghost h = html_escaper();
    let chars = s.chars();
    assert(out@ + s@.take(0).flat_map(h) =~= out@);
    for c in it: chars
        invariant
            it.seq() == s@,
            h == html_escaper(),
            out@ == old(out)@ + s@.take(it.index()).flat_map(h),
    {
        let ghost before = out@;
        proof {
            reveal_strlit("\\u003c");
            reveal_strlit("\\u003e");
            reveal_strlit("\\u0026");
            s@.lemma_flat_map_take_append(h, it.index());
        }
        if c == '<' {
            out.append("\\u003c");
        } else if c == '>' {
            out.append("\\u003e");
        } else if c == '&' {
            out.append("\\u0026");
        } else {
            out.push(c);
        }
        assert(out@ =~= before + html_escape_char(c));
    }
    assert(s@.take(s@.len() as int) == s@);
}

/// Appends the canonical string literal of `s` to `out`.
pub fn push_canonical_string(out: &mut String, s: &str)
    ensures
        final(out)@ == old(out)@ + canonical_string(s@),
{
    let quoted = json_quote(s);
    push_html_escaped(out, quoted.as_str());
    proof {
        lemma_canonical_string_is_html_escaped_json(s@);
    }
}

/// The canonical string literal of `s`.
pub fn canonical_string_of(s: &str) -> (literal: String)
    ensures
        literal@ == canonical_string(s@),
{
    let mut literal = String::new();
    push_canonical_string(&mut literal, s);
    assert(Seq::<char>::empty() + canonical_string(s@) =~= canonical_string(s@));
    literal
}

/// Appends the decimal digits of `n` to `out`.
pub fn push_decimal(out: &mut String, n: u64)
    ensures
        final(out)@ == old(out)@ + decimal(n as nat),
    decreases n,
{
    if n >= 10 {
        push_decimal(out, n / 10);
    }
    let d: u8 = (n % 10) as u8;
    out.push((0x30u8 + d) as char);
    assert(out@ =~= old(out)@ + decimal(n as nat));
}

} // verus!
