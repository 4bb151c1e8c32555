//! The canonical form can be read in one way only: two records with the same
//! canonical bytes agree in every field that the bytes cover.

use vstd::prelude::*;
use vstd::utf8::encode_utf8_decode_utf8;
use crate::canonical::{
    canonical_bytes, canonical_file, canonical_files, canonical_parent, canonical_strings,
    canonical_text, comma_separated,
};
use crate::record::{FileEntryView, SnapshotView};
use crate::text::{
    canonical_escape_char, canonical_escaper, canonical_string, decimal, digit_char, hex_digit,
    is_digit, law_decimal_plain, lemma_flat_map_first,
};

verus! {

/// Equal texts that start with the same piece continue equally.
pub proof fn lemma_cancel_prefix(a: Seq<char>, x: Seq<char>, y: Seq<char>)
    requires
        a + x == a + y,
    ensures
        x == y,
{
    assert(x =~= (a + x).skip(a.len() as int));
    assert(y =~= (a + y).skip(a.len() as int));
}

/// Equal texts split at the same place have equal parts.
pub proof fn lemma_split_at_same_length(a: Seq<char>, b: Seq<char>, x: Seq<char>, y: Seq<char>)
    requires
        a + x == b + y,
        a.len() == b.len(),
    ensures
        a == b,
        x == y,
{
    assert(a =~= (a + x).take(a.len() as int));
    assert(b =~= (b + y).take(b.len() as int));
    assert(x =~= (a + x).skip(a.len() as int));
    assert(y =~= (b + y).skip(b.len() as int));
}

/// Different values below sixteen have different hexadecimal digits.
proof fn lemma_hex_digit_injective(a: int, b: int)
    requires
        0 <= a < 16,
        0 <= b < 16,
        hex_digit(a) == hex_digit(b),
    ensures
        a == b,
{
}

/// The escape of a character never starts with a quote, and tells the
/// character: no escape is the start of another character's escape.
proof fn lemma_escape_prefix_free(c1: char, c2: char, x: Seq<char>, y: Seq<char>)
    requires
        canonical_escape_char(c1) + x == canonical_escape_char(c2) + y,
    ensures
        c1 == c2,
{
    let e1 = canonical_escape_char(c1);
    let e2 = canonical_escape_char(c2);
    let l = e1 + x;
    let r = e2 + y;
    assert(l[0] == r[0]);
    assert(e1[0] == e2[0]);
    if e1[0] == '\\' {
        assert(l[1] == r[1]);
        assert(e1[1] == e2[1]);
        if e1[1] == 'u' {
            assert(l[4] == r[4]);
            assert(l[5] == r[5]);
            let v1 = c1 as int;
            let v2 = c2 as int;
            lemma_hex_digit_injective(v1 / 16, v2 / 16);
            lemma_hex_digit_injective(v1 % 16, v2 % 16);
        }
    }
}

/// A string body is read up to its closing quote in one way only.
proof fn lemma_string_body_unique(s1: Seq<char>, s2: Seq<char>, x: Seq<char>, y: Seq<char>)
    requires
        s1.flat_map(canonical_escaper()) + seq!['"'] + x == s2.flat_map(canonical_escaper())
            + seq!['"'] + y,
    ensures
        s1 == s2,
        x == y,
    decreases s1.len(),
{
    let k = canonical_escaper();
    let q = seq!['"'];
    let f1 = s1.flat_map(k);
    let f2 = s2.flat_map(k);
    let l = f1 + q + x;
    let r = f2 + q + y;
    if s1.len() == 0 {
        assert(f1 =~= Seq::<char>::empty());
        assert(l =~= q + x);
        assert(l[0] == '"');
        if s2.len() > 0 {
            lemma_flat_map_first(s2, k);
            assert(r[0] == canonical_escape_char(s2[0])[0]);
            assert(false);
        }
        assert(f2 =~= Seq::<char>::empty());
        assert(r =~= q + y);
        lemma_cancel_prefix(q, x, y);
        assert(s1 =~= s2);
    } else {
        lemma_flat_map_first(s1, k);
        let e1 = canonical_escape_char(s1[0]);
        let t1 = s1.drop_first().flat_map(k) + q + x;
        assert(l =~= e1 + t1);
        if s2.len() == 0 {
            assert(f2 =~= Seq::<char>::empty());
            assert(r =~= q + y);
            assert(r[0] == '"');
            assert(l[0] == e1[0]);
            assert(false);
        }
        lemma_flat_map_first(s2, k);
        let e2 = canonical_escape_char(s2[0]);
        let t2 = s2.drop_first().flat_map(k) + q + y;
        assert(r =~= e2 + t2);
        lemma_escape_prefix_free(s1[0], s2[0], t1, t2);
        lemma_cancel_prefix(e1, t1, t2);
        lemma_string_body_unique(s1.drop_first(), s2.drop_first(), x, y);
        assert(s1 =~= seq![s1[0]] + s1.drop_first());
        assert(s2 =~= seq![s2[0]] + s2.drop_first());
    }
}

/// A canonical string literal at the start of a text is read in one way
/// only: it tells the string, and where the rest begins.
pub proof fn lemma_string_unique(s1: Seq<char>, s2: Seq<char>, x: Seq<char>, y: Seq<char>)
    requires
        canonical_string(s1) + x == canonical_string(s2) + y,
    ensures
        s1 == s2,
        x == y,
{
    let k = canonical_escaper();
    let q = seq!['"'];
    let t1 = s1.flat_map(k) + q + x;
    let t2 = s2.flat_map(k) + q + y;
    assert(canonical_string(s1) + x =~= q + t1);
    assert(canonical_string(s2) + y =~= q + t2);
    lemma_cancel_prefix(q, t1, t2);
    lemma_string_body_unique(s1, s2, x, y);
}

/// Different values below ten have different digits.
proof fn lemma_digit_char_injective(a: nat, b: nat)
    requires
        a < 10,
        b < 10,
        digit_char(a) == digit_char(b),
    ensures
        a == b,
{
    assert(digit_char(a) as int == 0x30 + a);
    assert(digit_char(b) as int == 0x30 + b);
}

/// Different numbers have different digits.
proof fn lemma_decimal_injective(a: nat, b: nat)
    requires
        decimal(a) == decimal(b),
    ensures
        a == b,
    decreases a,
{
    law_decimal_plain(a / 10);
    law_decimal_plain(b / 10);
    if a < 10 {
        assert(decimal(a) == seq![digit_char(a)]);
        if b >= 10 {
            assert(decimal(b) == decimal(b / 10).push(digit_char(b % 10)));
            assert(false);
        }
        assert(decimal(b) == seq![digit_char(b)]);
        assert(decimal(a)[0] == digit_char(a));
        assert(decimal(b)[0] == digit_char(b));
        lemma_digit_char_injective(a, b);
    } else {
        let da = decimal(a / 10);
        assert(decimal(a) == da.push(digit_char(a % 10)));
        if b < 10 {
            assert(decimal(b) == seq![digit_char(b)]);
            assert(false);
        }
        let db = decimal(b / 10);
        assert(decimal(b) == db.push(digit_char(b % 10)));
        assert(da =~= decimal(a).drop_last());
        assert(db =~= decimal(b).drop_last());
        assert(decimal(a).last() == digit_char(a % 10));
        assert(decimal(b).last() == digit_char(b % 10));
        lemma_decimal_injective(a / 10, b / 10);
        lemma_digit_char_injective(a % 10, b % 10);
    }
}

/// A decimal number followed by something that is no digit is read in one
/// way only.
pub proof fn lemma_decimal_unique(a: nat, b: nat, x: Seq<char>, y: Seq<char>)
    requires
        decimal(a) + x == decimal(b) + y,
        x.len() > 0 && !is_digit(x[0]),
        y.len() > 0 && !is_digit(y[0]),
    ensures
        a == b,
        x == y,
{
    let da = decimal(a);
    let db = decimal(b);
    law_decimal_plain(a);
    law_decimal_plain(b);
    if da.len() < db.len() {
        assert((da + x)[da.len() as int] == x[0]);
        assert((db + y)[da.len() as int] == db[da.len() as int]);
        assert(false);
    }
    if db.len() < da.len() {
        assert((db + y)[db.len() as int] == y[0]);
        assert((da + x)[db.len() as int] == da[db.len() as int]);
        assert(false);
    }
    lemma_split_at_same_length(da, db, x, y);
    lemma_decimal_injective(a, b);
}

/// A comma-separated list, its closing bracket, and what follows.
pub open spec fn list_then(items: Seq<Seq<char>>, rest: Seq<char>) -> Seq<char> {
    comma_separated(items) + seq![']'] + rest
}

/// Whichever texts follow `a` and `b`, the results are equal only if `a`
/// and `b` are.
pub open spec fn told_apart(a: Seq<char>, b: Seq<char>) -> bool {
    forall|x: Seq<char>, y: Seq<char>| #![trigger a + x, b + y] a + x == b + y ==> a == b
}

/// A text that cannot be mistaken for the end of a list.
pub open spec fn opens_item(a: Seq<char>) -> bool {
    a.len() > 0 && a[0] != ']'
}

/// What follows the first item of a list.
spec fn after_first(items: Seq<Seq<char>>, rest: Seq<char>) -> Seq<char> {
    if items.len() == 1 {
        seq![']'] + rest
    } else {
        seq![','] + list_then(items.drop_first(), rest)
    }
}

/// A list that is not empty starts with its first item.
proof fn lemma_list_then_first(items: Seq<Seq<char>>, rest: Seq<char>)
    requires
        items.len() > 0,
    ensures
        list_then(items, rest) == items[0] + after_first(items, rest),
{
    assert(list_then(items, rest) =~= items[0] + after_first(items, rest));
}

/// A list of items that can be told apart, followed by its closing bracket,
/// is read in one way only.
pub proof fn lemma_list_unique(
    r1: Seq<Seq<char>>,
    r2: Seq<Seq<char>>,
    x: Seq<char>,
    y: Seq<char>,
)
    requires
        list_then(r1, x) == list_then(r2, y),
        forall|i: int, j: int|
            0 <= i < r1.len() && 0 <= j < r2.len() ==> told_apart(#[trigger] r1[i], #[trigger] r2[j]),
        forall|i: int| 0 <= i < r1.len() ==> opens_item(#[trigger] r1[i]),
        forall|j: int| 0 <= j < r2.len() ==> opens_item(#[trigger] r2[j]),
    ensures
        r1 == r2,
        x == y,
    decreases r1.len(),
{
    let close = seq![']'];
    if r1.len() == 0 {
        assert(list_then(r1, x) =~= close + x);
        if r2.len() > 0 {
            lemma_list_then_first(r2, y);
            assert(opens_item(r2[0]));
            assert(list_then(r2, y)[0] == r2[0][0]);
            assert(list_then(r1, x)[0] == ']');
            assert(false);
        }
        assert(list_then(r2, y) =~= close + y);
        lemma_cancel_prefix(close, x, y);
        assert(r1 =~= r2);
    } else {
        lemma_list_then_first(r1, x);
        assert(opens_item(r1[0]));
        if r2.len() == 0 {
            assert(list_then(r2, y) =~= close + y);
            assert(list_then(r2, y)[0] == ']');
            assert(list_then(r1, x)[0] == r1[0][0]);
            assert(false);
        }
        lemma_list_then_first(r2, y);
        let a1 = after_first(r1, x);
        let a2 = after_first(r2, y);
        assert(told_apart(r1[0], r2[0]));
        assert(r1[0] + a1 == r2[0] + a2);
        assert(r1[0] == r2[0]);
        lemma_cancel_prefix(r1[0], a1, a2);
        assert(a1[0] == a2[0]);
        if r1.len() == 1 {
            assert(r2.len() == 1);
            lemma_cancel_prefix(close, x, y);
            assert(r1 =~= r2);
        } else {
            assert(r2.len() > 1);
            let sep = seq![','];
            lemma_cancel_prefix(sep, list_then(r1.drop_first(), x), list_then(r2.drop_first(), y));
            assert forall|i: int, j: int|
                0 <= i < r1.drop_first().len() && 0 <= j < r2.drop_first().len() implies told_apart(
                #[trigger] r1.drop_first()[i],
                #[trigger] r2.drop_first()[j],
            ) by {
                assert(r1.drop_first()[i] == r1[i + 1]);
                assert(r2.drop_first()[j] == r2[j + 1]);
            }
            assert forall|i: int| 0 <= i < r1.drop_first().len() implies opens_item(
                #[trigger] r1.drop_first()[i],
            ) by {
                assert(r1.drop_first()[i] == r1[i + 1]);
            }
            assert forall|j: int| 0 <= j < r2.drop_first().len() implies opens_item(
                #[trigger] r2.drop_first()[j],
            ) by {
                assert(r2.drop_first()[j] == r2[j + 1]);
            }
            lemma_list_unique(r1.drop_first(), r2.drop_first(), x, y);
            assert(r1 =~= seq![r1[0]] + r1.drop_first());
            assert(r2 =~= seq![r2[0]] + r2.drop_first());
        }
    }
}

/// A canonical string literal starts with a quote.
proof fn lemma_string_opens(s: Seq<char>)
    ensures
        canonical_string(s).len() > 0,
        canonical_string(s)[0] == '"',
{
    let q = seq!['"'];
    let body = s.flat_map(canonical_escaper());
    assert(canonical_string(s) =~= q + (body + q));
}

/// A list of canonical string literals, followed by its closing bracket,
/// is read in one way only.
pub proof fn lemma_string_list_unique(
    h1: Seq<Seq<char>>,
    h2: Seq<Seq<char>>,
    x: Seq<char>,
    y: Seq<char>,
)
    requires
        list_then(canonical_strings(h1), x) == list_then(canonical_strings(h2), y),
    ensures
        h1 == h2,
        x == y,
{
    let r1 = canonical_strings(h1);
    let r2 = canonical_strings(h2);
    assert forall|i: int, j: int| 0 <= i < r1.len() && 0 <= j < r2.len() implies told_apart(
        #[trigger] r1[i],
        #[trigger] r2[j],
    ) by {
        assert forall|u: Seq<char>, v: Seq<char>| #![trigger r1[i] + u, r2[j] + v]
            r1[i] + u == r2[j] + v implies r1[i] == r2[j] by {
            lemma_string_unique(h1[i], h2[j], u, v);
        }
    }
    assert forall|i: int| 0 <= i < r1.len() implies opens_item(#[trigger] r1[i]) by {
        lemma_string_opens(h1[i]);
    }
    assert forall|j: int| 0 <= j < r2.len() implies opens_item(#[trigger] r2[j]) by {
        lemma_string_opens(h2[j]);
    }
    lemma_list_unique(r1, r2, x, y);
    assert(h1.len() == h2.len());
    assert forall|i: int| 0 <= i < h1.len() implies h1[i] == h2[i] by {
        let e = Seq::<char>::empty();
        assert(r1[i] == r2[i]);
        assert(canonical_string(h1[i]) + e == canonical_string(h2[i]) + e);
        lemma_string_unique(h1[i], h2[i], e, e);
    }
    assert(h1 =~= h2);
}

/// What follows the opening of a file object.
spec fn file_after_path_key(f: FileEntryView, rest: Seq<char>) -> Seq<char> {
    canonical_string(f.path) + (",\"mode\":"@ + file_after_mode_key(f, rest))
}

/// What follows the `mode` key of a file object.
spec fn file_after_mode_key(f: FileEntryView, rest: Seq<char>) -> Seq<char> {
    decimal(f.mode as nat) + (",\"mod_time\":"@ + file_after_mod_time_key(f, rest))
}

/// What follows the `mod_time` key of a file object.
spec fn file_after_mod_time_key(f: FileEntryView, rest: Seq<char>) -> Seq<char> {
    canonical_string(f.mod_time) + (",\"size\":"@ + file_after_size_key(f, rest))
}

/// What follows the `size` key of a file object.
spec fn file_after_size_key(f: FileEntryView, rest: Seq<char>) -> Seq<char> {
    decimal(f.size as nat) + (",\"chunk_hashes\":["@ + list_then(
        canonical_strings(f.chunk_hashes),
        seq!['}'] + rest,
    ))
}

/// Concatenation may be regrouped.
proof fn lemma_regroup(a: Seq<char>, b: Seq<char>, c: Seq<char>)
    ensures
        (a + b) + c == a + (b + c),
{
    assert((a + b) + c =~= a + (b + c));
}

/// A file object and what follows it, piece by piece from the left.
proof fn lemma_file_layout(f: FileEntryView, rest: Seq<char>)
    ensures
        canonical_file(f) + rest == "{\"path\":"@ + file_after_path_key(f, rest),
{
    let path = canonical_string(f.path);
    let mode = decimal(f.mode as nat);
    let mod_time = canonical_string(f.mod_time);
    let size = decimal(f.size as nat);
    let list = comma_separated(canonical_strings(f.chunk_hashes));
    let a1 = "{\"path\":"@ + path;
    let a2 = a1 + ",\"mode\":"@;
    let a3 = a2 + mode;
    let a4 = a3 + ",\"mod_time\":"@;
    let a5 = a4 + mod_time;
    let a6 = a5 + ",\"size\":"@;
    let a7 = a6 + size;
    let a8 = a7 + ",\"chunk_hashes\":["@;
    let a9 = a8 + list;
    assert(canonical_file(f) == a9 + "]}"@);
    let t9 = list_then(canonical_strings(f.chunk_hashes), seq!['}'] + rest);
    assert(list + ("]}"@ + rest) == t9) by {
        reveal_strlit("]}");
        assert("]}"@ =~= seq![']'] + seq!['}']);
        assert(list + ("]}"@ + rest) =~= t9);
    }
    lemma_regroup(a9, "]}"@, rest);
    lemma_regroup(a8, list, "]}"@ + rest);
    let t8 = ",\"chunk_hashes\":["@ + t9;
    lemma_regroup(a7, ",\"chunk_hashes\":["@, t9);
    let t7 = size + t8;
    lemma_regroup(a6, size, t8);
    let t6 = ",\"size\":"@ + t7;
    lemma_regroup(a5, ",\"size\":"@, t7);
    let t5 = mod_time + t6;
    lemma_regroup(a4, mod_time, t6);
    let t4 = ",\"mod_time\":"@ + t5;
    lemma_regroup(a3, ",\"mod_time\":"@, t5);
    let t3 = mode + t4;
    lemma_regroup(a2, mode, t4);
    let t2 = ",\"mode\":"@ + t3;
    lemma_regroup(a1, ",\"mode\":"@, t3);
    lemma_regroup("{\"path\":"@, path, t2);
}

/// A canonical file object at the start of a text is read in one way only.
pub proof fn lemma_file_unique(f: FileEntryView, g: FileEntryView, x: Seq<char>, y: Seq<char>)
    requires
        canonical_file(f) + x == canonical_file(g) + y,
    ensures
        f == g,
        x == y,
{
    reveal_strlit(",\"mod_time\":");
    reveal_strlit(",\"chunk_hashes\":[");
    lemma_file_layout(f, x);
    lemma_file_layout(g, y);
    lemma_cancel_prefix("{\"path\":"@, file_after_path_key(f, x), file_after_path_key(g, y));
    lemma_string_unique(
        f.path,
        g.path,
        ",\"mode\":"@ + file_after_mode_key(f, x),
        ",\"mode\":"@ + file_after_mode_key(g, y),
    );
    lemma_cancel_prefix(",\"mode\":"@, file_after_mode_key(f, x), file_after_mode_key(g, y));
    let m1 = ",\"mod_time\":"@ + file_after_mod_time_key(f, x);
    let m2 = ",\"mod_time\":"@ + file_after_mod_time_key(g, y);
    assert(m1[0] == ',' && m2[0] == ',');
    lemma_decimal_unique(f.mode as nat, g.mode as nat, m1, m2);
    lemma_cancel_prefix(
        ",\"mod_time\":"@,
        file_after_mod_time_key(f, x),
        file_after_mod_time_key(g, y),
    );
    lemma_string_unique(
        f.mod_time,
        g.mod_time,
        ",\"size\":"@ + file_after_size_key(f, x),
        ",\"size\":"@ + file_after_size_key(g, y),
    );
    lemma_cancel_prefix(",\"size\":"@, file_after_size_key(f, x), file_after_size_key(g, y));
    let c1 = ",\"chunk_hashes\":["@ + list_then(canonical_strings(f.chunk_hashes), seq!['}'] + x);
    let c2 = ",\"chunk_hashes\":["@ + list_then(canonical_strings(g.chunk_hashes), seq!['}'] + y);
    assert(c1[0] == ',' && c2[0] == ',');
    lemma_decimal_unique(f.size as nat, g.size as nat, c1, c2);
    lemma_cancel_prefix(
        ",\"chunk_hashes\":["@,
        list_then(canonical_strings(f.chunk_hashes), seq!['}'] + x),
        list_then(canonical_strings(g.chunk_hashes), seq!['}'] + y),
    );
    lemma_string_list_unique(f.chunk_hashes, g.chunk_hashes, seq!['}'] + x, seq!['}'] + y);
    lemma_cancel_prefix(seq!['}'], x, y);
}

/// A canonical file object starts with a brace.
proof fn lemma_file_opens(f: FileEntryView)
    ensures
        canonical_file(f).len() > 0,
        canonical_file(f)[0] == '{',
{
    reveal_strlit("{\"path\":");
    let e = Seq::<char>::empty();
    lemma_file_layout(f, e);
    assert(canonical_file(f) + e =~= canonical_file(f));
}

/// A list of canonical file objects, followed by its closing bracket, is
/// read in one way only.
pub proof fn lemma_file_list_unique(
    f1: Seq<FileEntryView>,
    f2: Seq<FileEntryView>,
    x: Seq<char>,
    y: Seq<char>,
)
    requires
        list_then(canonical_files(f1), x) == list_then(canonical_files(f2), y),
    ensures
        f1 == f2,
        x == y,
{
    let r1 = canonical_files(f1);
    let r2 = canonical_files(f2);
    assert forall|i: int, j: int| 0 <= i < r1.len() && 0 <= j < r2.len() implies told_apart(
        #[trigger] r1[i],
        #[trigger] r2[j],
    ) by {
        assert forall|u: Seq<char>, v: Seq<char>| #![trigger r1[i] + u, r2[j] + v]
            r1[i] + u == r2[j] + v implies r1[i] == r2[j] by {
            lemma_file_unique(f1[i], f2[j], u, v);
        }
    }
    assert forall|i: int| 0 <= i < r1.len() implies opens_item(#[trigger] r1[i]) by {
        lemma_file_opens(f1[i]);
    }
    assert forall|j: int| 0 <= j < r2.len() implies opens_item(#[trigger] r2[j]) by {
        lemma_file_opens(f2[j]);
    }
    lemma_list_unique(r1, r2, x, y);
    assert(f1.len() == f2.len());
    assert forall|i: int| 0 <= i < f1.len() implies f1[i] == f2[i] by {
        let e = Seq::<char>::empty();
        assert(r1[i] == r2[i]);
        assert(canonical_file(f1[i]) + e == canonical_file(f2[i]) + e);
        lemma_file_unique(f1[i], f2[i], e, e);
    }
    assert(f1 =~= f2);
}

/// The value of the `parent` field at the start of a text is read in one way
/// only.
pub proof fn lemma_parent_unique(
    a: Option<Seq<char>>,
    b: Option<Seq<char>>,
    x: Seq<char>,
    y: Seq<char>,
)
    requires
        canonical_parent(a) + x == canonical_parent(b) + y,
    ensures
        a == b,
        x == y,
{
    reveal_strlit("null");
    let l = canonical_parent(a) + x;
    let r = canonical_parent(b) + y;
    assert(l[0] == r[0]);
    match (a, b) {
        (Some(p), Some(q)) => {
            lemma_string_unique(p, q, x, y);
        },
        (None, None) => {
            lemma_cancel_prefix("null"@, x, y);
        },
        (Some(p), None) => {
            lemma_string_opens(p);
            assert(l[0] == '"');
            assert(r[0] == 'n');
        },
        (None, Some(q)) => {
            lemma_string_opens(q);
            assert(r[0] == '"');
            assert(l[0] == 'n');
        },
    }
}

/// What follows the opening of a snapshot object.
spec fn snapshot_after_id_key(s: SnapshotView) -> Seq<char> {
    canonical_string(s.id) + (",\"parent\":"@ + snapshot_after_parent_key(s))
}

/// What follows the `parent` key of a snapshot object.
spec fn snapshot_after_parent_key(s: SnapshotView) -> Seq<char> {
    canonical_parent(s.parent) + (",\"timestamp\":"@ + snapshot_after_timestamp_key(s))
}

/// What follows the `timestamp` key of a snapshot object.
spec fn snapshot_after_timestamp_key(s: SnapshotView) -> Seq<char> {
    canonical_string(s.timestamp) + (",\"root\":"@ + snapshot_after_root_key(s))
}

/// What follows the `root` key of a snapshot object.
spec fn snapshot_after_root_key(s: SnapshotView) -> Seq<char> {
    canonical_string(s.root) + (",\"files\":["@ + list_then(
        canonical_files(s.files),
        snapshot_after_files(s),
    ))
}

/// What follows the closing bracket of the file list.
spec fn snapshot_after_files(s: SnapshotView) -> Seq<char> {
    ",\"signer_pub\":"@ + (canonical_string(s.signer_pub) + "}"@)
}

/// A snapshot object, piece by piece from the left.
proof fn lemma_snapshot_layout(s: SnapshotView)
    ensures
        canonical_text(s) == "{\"id\":"@ + snapshot_after_id_key(s),
{
    let id = canonical_string(s.id);
    let parent = canonical_parent(s.parent);
    let timestamp = canonical_string(s.timestamp);
    let root = canonical_string(s.root);
    let list = comma_separated(canonical_files(s.files));
    let signer = canonical_string(s.signer_pub);
    let a1 = "{\"id\":"@ + id;
    let a2 = a1 + ",\"parent\":"@;
    let a3 = a2 + parent;
    let a4 = a3 + ",\"timestamp\":"@;
    let a5 = a4 + timestamp;
    let a6 = a5 + ",\"root\":"@;
    let a7 = a6 + root;
    let a8 = a7 + ",\"files\":["@;
    let a9 = a8 + list;
    let a10 = a9 + "],\"signer_pub\":"@;
    let a11 = a10 + signer;
    assert(canonical_text(s) == a11 + "}"@);
    let t11 = signer + "}"@;
    lemma_regroup(a10, signer, "}"@);
    lemma_regroup(a9, "],\"signer_pub\":"@, t11);
    lemma_regroup(a8, list, "],\"signer_pub\":"@ + t11);
    let t9 = list_then(canonical_files(s.files), snapshot_after_files(s));
    assert(list + ("],\"signer_pub\":"@ + t11) == t9) by {
        reveal_strlit("],\"signer_pub\":");
        reveal_strlit(",\"signer_pub\":");
        assert("],\"signer_pub\":"@ =~= seq![']'] + ",\"signer_pub\":"@);
        assert(list + ("],\"signer_pub\":"@ + t11) =~= t9);
    }
    let t8 = ",\"files\":["@ + t9;
    lemma_regroup(a7, ",\"files\":["@, t9);
    let t7 = root + t8;
    lemma_regroup(a6, root, t8);
    let t6 = ",\"root\":"@ + t7;
    lemma_regroup(a5, ",\"root\":"@, t7);
    let t5 = timestamp + t6;
    lemma_regroup(a4, timestamp, t6);
    let t4 = ",\"timestamp\":"@ + t5;
    lemma_regroup(a3, ",\"timestamp\":"@, t5);
    let t3 = parent + t4;
    lemma_regroup(a2, parent, t4);
    let t2 = ",\"parent\":"@ + t3;
    lemma_regroup(a1, ",\"parent\":"@, t3);
    lemma_regroup("{\"id\":"@, id, t2);
}

/// The canonical text tells every field it covers.
pub proof fn lemma_canonical_text_unique(a: SnapshotView, b: SnapshotView)
    requires
        canonical_text(a) == canonical_text(b),
    ensures
        a.id == b.id,
        a.parent == b.parent,
        a.timestamp == b.timestamp,
        a.root == b.root,
        a.files == b.files,
        a.signer_pub == b.signer_pub,
{
    lemma_snapshot_layout(a);
    lemma_snapshot_layout(b);
    lemma_cancel_prefix("{\"id\":"@, snapshot_after_id_key(a), snapshot_after_id_key(b));
    lemma_string_unique(
        a.id,
        b.id,
        ",\"parent\":"@ + snapshot_after_parent_key(a),
        ",\"parent\":"@ + snapshot_after_parent_key(b),
    );
    lemma_cancel_prefix(
        ",\"parent\":"@,
        snapshot_after_parent_key(a),
        snapshot_after_parent_key(b),
    );
    lemma_parent_unique(
        a.parent,
        b.parent,
        ",\"timestamp\":"@ + snapshot_after_timestamp_key(a),
        ",\"timestamp\":"@ + snapshot_after_timestamp_key(b),
    );
    lemma_cancel_prefix(
        ",\"timestamp\":"@,
        snapshot_after_timestamp_key(a),
        snapshot_after_timestamp_key(b),
    );
    lemma_string_unique(
        a.timestamp,
        b.timestamp,
        ",\"root\":"@ + snapshot_after_root_key(a),
        ",\"root\":"@ + snapshot_after_root_key(b),
    );
    lemma_cancel_prefix(",\"root\":"@, snapshot_after_root_key(a), snapshot_after_root_key(b));
    lemma_string_unique(
        a.root,
        b.root,
        ",\"files\":["@ + list_then(canonical_files(a.files), snapshot_after_files(a)),
        ",\"files\":["@ + list_then(canonical_files(b.files), snapshot_after_files(b)),
    );
    lemma_cancel_prefix(
        ",\"files\":["@,
        list_then(canonical_files(a.files), snapshot_after_files(a)),
        list_then(canonical_files(b.files), snapshot_after_files(b)),
    );
    lemma_file_list_unique(a.files, b.files, snapshot_after_files(a), snapshot_after_files(b));
    lemma_cancel_prefix(
        ",\"signer_pub\":"@,
        canonical_string(a.signer_pub) + "}"@,
        canonical_string(b.signer_pub) + "}"@,
    );
    lemma_string_unique(a.signer_pub, b.signer_pub, "}"@, "}"@);
}

/// Two snapshots agree in every field that the canonical form covers: all
/// but the signature.
pub open spec fn same_signed_content(a: SnapshotView, b: SnapshotView) -> bool {
    &&& a.id == b.id
    &&& a.parent == b.parent
    &&& a.timestamp == b.timestamp
    &&& a.root == b.root
    &&& a.files == b.files
    &&& a.signer_pub == b.signer_pub
}

/// The canonical bytes are a function of the signed content: snapshots that
/// agree in it have the same canonical bytes, whatever their signatures.
pub proof fn law_canonical_bytes_deterministic(a: SnapshotView, b: SnapshotView)
    requires
        same_signed_content(a, b),
    ensures
        canonical_bytes(a) == canonical_bytes(b),
{
}

/// The canonical bytes tell the signed content: snapshots with the same
/// canonical bytes agree in every signed field, in the order of their files
/// and in the order of each file's chunk hashes.
pub proof fn law_canonical_bytes_unique(a: SnapshotView, b: SnapshotView)
    requires
        canonical_bytes(a) == canonical_bytes(b),
    ensures
        same_signed_content(a, b),
{
    encode_utf8_decode_utf8(canonical_text(a));
    encode_utf8_decode_utf8(canonical_text(b));
    lemma_canonical_text_unique(a, b);
}

/// Changing any signed field changes the canonical bytes, so that a
/// signature made before the change is a signature of other bytes.
pub proof fn law_change_changes_bytes(a: SnapshotView, b: SnapshotView)
    requires
        !same_signed_content(a, b),
    ensures
        canonical_bytes(a) != canonical_bytes(b),
{
    if canonical_bytes(a) == canonical_bytes(b) {
        law_canonical_bytes_unique(a, b);
    }
}

/// Changing the files, their order, or the order of the chunk hashes of any
/// file changes the canonical bytes.
pub proof fn law_order_sensitive(a: SnapshotView, b: SnapshotView)
    requires
        a.files != b.files,
    ensures
        canonical_bytes(a) != canonical_bytes(b),
{
    if canonical_bytes(a) == canonical_bytes(b) {
        law_canonical_bytes_unique(a, b);
    }
}

} // verus!
