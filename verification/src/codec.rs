//! The stored document's format: a bracketed list of task objects, each
//! with quoted `id`, `todo` and `status` fields, quotes, backslashes and
//! control characters escaped. The encoder writes one canonical form;
//! the parser also accepts the other standard string escapes, and
//! parsing inverts encoding, which makes saving and reloading lossless.

use vstd::prelude::*;
use crate::chars::{chars_to_string, str_to_chars};
use crate::todo::{Status, Todo, TodoView, views};

verus! {

/// The lowercase hexadecimal digit of `d`.
pub open spec fn hex_char(d: nat) -> char {
    if d < 10 {
        ((48 + d) as u8) as char
    } else {
        ((97 + (d - 10)) as u8) as char
    }
}

/// Whether `c` is a hexadecimal digit of either case.
pub open spec fn is_hex(c: char) -> bool {
    (48 <= c as u32 <= 57) || (97 <= c as u32 <= 102) || (65 <= c as u32 <= 70)
}

/// The value of a hexadecimal digit.
pub open spec fn hex_val(c: char) -> nat {
    if 48 <= c as u32 <= 57 {
        (c as u32 - 48) as nat
    } else if 97 <= c as u32 <= 102 {
        (c as u32 - 97 + 10) as nat
    } else {
        (c as u32 - 65 + 10) as nat
    }
}

/// The value of four hexadecimal digits.
pub open spec fn hex4(a: char, b: char, c: char, d: char) -> nat {
    ((hex_val(a) * 16 + hex_val(b)) * 16 + hex_val(c)) * 16 + hex_val(d)
}

proof fn lemma_hex_char(d: nat)
    requires
        d < 16,
    ensures
        is_hex(hex_char(d)),
        hex_val(hex_char(d)) == d,
{
}

/// The escape of one character: quotes and backslashes get a backslash,
/// control characters a four-digit escape, anything else stands itself.
pub open spec fn esc_char(c: char) -> Seq<char> {
    if c == '"' {
        seq!['\\', '"']
    } else if c == '\\' {
        seq!['\\', '\\']
    } else if (c as u32) < 32 {
        seq!['\\', 'u', '0', '0', hex_char((c as u32 / 16) as nat), hex_char(
            (c as u32 % 16) as nat,
        )]
    } else {
        seq![c]
    }
}

/// The escape of a whole string.
pub open spec fn esc(s: Seq<char>) -> Seq<char>
    decreases s.len(),
{
    if s.len() == 0 {
        Seq::empty()
    } else {
        esc_char(s[0]) + esc(s.drop_first())
    }
}

/// Escaping distributes over appending one character.
proof fn lemma_esc_push(s: Seq<char>, c: char)
    ensures
        esc(s.push(c)) == esc(s) + esc_char(c),
    decreases s.len(),
{
    if s.len() == 0 {
        assert(s.push(c)[0] == c);
        assert(s.push(c).drop_first() =~= Seq::<char>::empty());
        assert(esc(Seq::<char>::empty()) == Seq::<char>::empty());
        assert(esc(s.push(c)) =~= esc_char(c));
        assert(esc(s) + esc_char(c) =~= esc_char(c));
    } else {
        assert(s.push(c)[0] == s[0]);
        assert(s.push(c).drop_first() =~= s.drop_first().push(c));
        lemma_esc_push(s.drop_first(), c);
        assert(esc(s.push(c)) =~= esc(s) + esc_char(c));
    }
}

/// The character with code `n`, for a Unicode scalar value `n`.
pub open spec fn char_of(n: nat) -> char {
    (n as u32) as char
}

/// A character is recovered from its code.
proof fn lemma_char_of_code(c: char)
    requires
        (c as u32) < 0xD800 || (0xE000 <= (c as u32) && (c as u32) <= 0x10FFFF),
    ensures
        c == char_of(((c as u32) as nat)),
{
}

/// Whether `c` is one of the short string-escape letters.
pub open spec fn is_short_esc(c: char) -> bool {
    c == 'b' || c == 'f' || c == 'n' || c == 'r' || c == 't'
}

/// The control character a short escape letter denotes.
pub open spec fn short_esc_char(c: char) -> char {
    if c == 'b' {
        '\u{0008}'
    } else if c == 'f' {
        '\u{000C}'
    } else if c == 'n' {
        '\n'
    } else if c == 'r' {
        '\r'
    } else {
        '\t'
    }
}

/// Whether the code `n` of a four-digit escape is a Unicode scalar
/// value, that is, not a surrogate.
pub open spec fn is_scalar4(n: nat) -> bool {
    !(0xD800 <= n && n <= 0xDFFF)
}

/// Relies on `char::from_u32`: `Some` exactly for Unicode scalar values
/// (codes up to 0x10FFFF that are not surrogates), returning the
/// character with that code.
pub assume_specification[ char::from_u32 ](v: u32) -> (r: Option<char>)
    ensures
        (v < 0xD800 || (0xE000 <= v <= 0x10FFFF)) <==> r is Some,
        r matches Some(c) ==> c as u32 == v,
;

/// Parses a string body up to its closing quote: the decoded content and
/// what follows the quote. The standard string escapes are accepted —
/// `\"`, `\\`, `\/`, the short letters, and `\uXXXX` for any scalar
/// value in either hexadecimal case; a raw control character is not.
pub open spec fn p_unesc(s: Seq<char>) -> Option<(Seq<char>, Seq<char>)>
    decreases s.len(),
{
    if s.len() == 0 {
        None
    } else if s[0] == '"' {
        Some((Seq::empty(), s.drop_first()))
    } else if s[0] == '\\' {
        if s.len() >= 2 && (s[1] == '"' || s[1] == '\\' || s[1] == '/') {
            match p_unesc(s.skip(2)) {
                Some((c, r)) => Some((seq![s[1]] + c, r)),
                None => None,
            }
        } else if s.len() >= 2 && is_short_esc(s[1]) {
            match p_unesc(s.skip(2)) {
                Some((c, r)) => Some((seq![short_esc_char(s[1])] + c, r)),
                None => None,
            }
        } else if s.len() >= 6 && s[1] == 'u' && is_hex(s[2]) && is_hex(s[3]) && is_hex(s[4])
            && is_hex(s[5]) && is_scalar4(hex4(s[2], s[3], s[4], s[5])) {
            match p_unesc(s.skip(6)) {
                Some((c, r)) => Some((seq![char_of(hex4(s[2], s[3], s[4], s[5]))] + c, r)),
                None => None,
            }
        } else {
            None
        }
    } else if (s[0] as u32) >= 32 {
        match p_unesc(s.drop_first()) {
            Some((c, r)) => Some((seq![s[0]] + c, r)),
            None => None,
        }
    } else {
        None
    }
}

/// Parsing inverts escaping: the escaped string, a quote, and anything
/// after parse back to the string and that remainder.
proof fn lemma_unesc_esc(s: Seq<char>, rest: Seq<char>)
    ensures
        p_unesc(esc(s) + seq!['"'] + rest) == Some((s, rest)),
    decreases s.len(),
{
    let input = esc(s) + seq!['"'] + rest;
    if s.len() == 0 {
        assert(input =~= seq!['"'] + rest);
        assert(input[0] == '"');
        assert(input.drop_first() =~= rest);
        assert(s =~= Seq::<char>::empty());
    } else {
        let c = s[0];
        let s2 = s.drop_first();
        let tail = esc(s2) + seq!['"'] + rest;
        assert(input =~= esc_char(c) + tail);
        lemma_unesc_esc(s2, rest);
        if c == '"' {
            assert(input[0] == '\\' && input[1] == '"');
            assert(input.skip(2) =~= tail);
            assert(seq![input[1]] + s2 =~= s);
        } else if c == '\\' {
            assert(input[0] == '\\' && input[1] == '\\');
            assert(input.skip(2) =~= tail);
            assert(seq![input[1]] + s2 =~= s);
        } else if (c as u32) < 32 {
            let hi = (c as u32 / 16) as nat;
            let lo = (c as u32 % 16) as nat;
            lemma_hex_char(hi);
            lemma_hex_char(lo);
            assert(input[0] == '\\' && input[1] == 'u' && input[2] == '0' && input[3] == '0');
            assert(input[4] == hex_char(hi) && input[5] == hex_char(lo));
            assert(!is_short_esc(input[1]));
            assert(is_hex('0') && hex_val('0') == 0);
            let n: nat = c as u32 as nat;
            assert(hex4(input[2], input[3], input[4], input[5]) == n);
            assert(is_scalar4(n));
            lemma_char_of_code(c);
            assert(char_of(n) == c);
            assert(input.skip(6) =~= tail);
            assert(seq![char_of(hex4(input[2], input[3], input[4], input[5]))] + s2 =~= s);
        } else {
            assert(input[0] == c);
            assert(input[0] != '"' && input[0] != '\\' && (input[0] as u32) >= 32);
            assert(input.drop_first() =~= tail);
            assert(seq![input[0]] + s2 =~= s);
        }
    }
}

/// The opening of a task object up to its `id` value's quote.
pub open spec fn lit_obj_id() -> Seq<char> {
    seq!['{', '"', 'i', 'd', '"', ':', '"']
}

/// Between the `id` value and the `todo` value.
pub open spec fn lit_todo() -> Seq<char> {
    seq![',', '"', 't', 'o', 'd', 'o', '"', ':', '"']
}

/// Between the `todo` value and the status tag.
pub open spec fn lit_status() -> Seq<char> {
    seq![',', '"', 's', 't', 'a', 't', 'u', 's', '"', ':', '"']
}

/// The incomplete status tag and the object's close.
pub open spec fn lit_incomplete_end() -> Seq<char> {
    seq!['I', 'n', 'c', 'o', 'm', 'p', 'l', 'e', 't', 'e', '"', '}']
}

/// The done status tag and the object's close.
pub open spec fn lit_done_end() -> Seq<char> {
    seq!['D', 'o', 'n', 'e', '"', '}']
}

/// The encoding of one task object.
pub open spec fn enc_todo(t: TodoView) -> Seq<char> {
    lit_obj_id() + esc(t.id) + seq!['"'] + lit_todo() + esc(t.text) + seq!['"'] + lit_status() + (
    if t.status is Incomplete {
        lit_incomplete_end()
    } else {
        lit_done_end()
    })
}

/// The encodings of the tasks from index `i` on, each preceded by a
/// separating comma.
pub open spec fn enc_rest(ts: Seq<TodoView>, i: int) -> Seq<char>
    decreases ts.len() - i,
{
    if i < 0 || i >= ts.len() {
        Seq::empty()
    } else {
        seq![','] + enc_todo(ts[i]) + enc_rest(ts, i + 1)
    }
}

/// The encoding of a whole collection: a bracketed, comma-separated list
/// of task objects.
pub open spec fn spec_encode(ts: Seq<TodoView>) -> Seq<char> {
    if ts.len() == 0 {
        seq!['[', ']']
    } else {
        seq!['['] + enc_todo(ts[0]) + enc_rest(ts, 1) + seq![']']
    }
}

/// Whether `p` is a prefix of `s`.
pub open spec fn starts_with(s: Seq<char>, p: Seq<char>) -> bool {
    p.len() <= s.len() && s.take(p.len() as int) == p
}

/// Parses one task object and returns it with what follows.
pub open spec fn p_todo(s: Seq<char>) -> Option<(TodoView, Seq<char>)> {
    if starts_with(s, lit_obj_id()) {
        match p_unesc(s.skip(7)) {
            Some((id, r1)) => if starts_with(r1, lit_todo()) {
                match p_unesc(r1.skip(9)) {
                    Some((text, r2)) => if starts_with(r2, lit_status()) {
                        let r3 = r2.skip(11);
                        if starts_with(r3, lit_incomplete_end()) {
                            Some(
                                (
                                    TodoView { id, text, status: Status::Incomplete },
                                    r3.skip(12),
                                ),
                            )
                        } else if starts_with(r3, lit_done_end()) {
                            Some((TodoView { id, text, status: Status::Done }, r3.skip(6)))
                        } else {
                            None
                        }
                    } else {
                        None
                    },
                    None => None,
                }
            } else {
                None
            },
            None => None,
        }
    } else {
        None
    }
}

/// A parsed string body leaves a strictly shorter remainder.
proof fn lemma_p_unesc_len(s: Seq<char>)
    ensures
        p_unesc(s) matches Some(p) ==> p.1.len() < s.len(),
    decreases s.len(),
{
    if s.len() == 0 {
    } else if s[0] == '"' {
    } else if s[0] == '\\' {
        if s.len() >= 2 && (s[1] == '"' || s[1] == '\\' || s[1] == '/') {
            lemma_p_unesc_len(s.skip(2));
        } else if s.len() >= 2 && is_short_esc(s[1]) {
            lemma_p_unesc_len(s.skip(2));
        } else if s.len() >= 6 && s[1] == 'u' && is_hex(s[2]) && is_hex(s[3]) && is_hex(s[4])
            && is_hex(s[5]) && is_scalar4(hex4(s[2], s[3], s[4], s[5])) {
            lemma_p_unesc_len(s.skip(6));
        }
    } else if (s[0] as u32) >= 32 {
        lemma_p_unesc_len(s.drop_first());
    }
}

/// A parsed task object leaves a strictly shorter remainder.
proof fn lemma_p_todo_len(s: Seq<char>)
    ensures
        p_todo(s) matches Some(p) ==> p.1.len() < s.len(),
{
    if starts_with(s, lit_obj_id()) {
        lemma_p_unesc_len(s.skip(7));
        match p_unesc(s.skip(7)) {
            Some((id, r1)) => {
                lemma_p_unesc_len(r1.skip(9));
            },
            None => {},
        }
    }
}

/// Parses a non-empty, comma-separated list of task objects.
pub open spec fn p_items(s: Seq<char>) -> Option<(Seq<TodoView>, Seq<char>)>
    decreases s.len(),
    via p_items_decreases
{
    match p_todo(s) {
        Some((t, r)) => if r.len() > 0 && r[0] == ',' {
            match p_items(r.drop_first()) {
                Some((ts, r2)) => Some((seq![t] + ts, r2)),
                None => None,
            }
        } else {
            Some((seq![t], r))
        },
        None => None,
    }
}

#[via_fn]
proof fn p_items_decreases(s: Seq<char>) {
    lemma_p_todo_len(s);
}

/// Parses a whole document; anything but a canonical encoding is
/// rejected.
pub open spec fn spec_decode(s: Seq<char>) -> Option<Seq<TodoView>> {
    if s.len() >= 2 && s[0] == '[' {
        if s.len() == 2 && s[1] == ']' {
            Some(Seq::empty())
        } else {
            match p_items(s.drop_first()) {
                Some((ts, r)) => if r.len() == 1 && r[0] == ']' {
                    Some(ts)
                } else {
                    None
                },
                None => None,
            }
        }
    } else {
        None
    }
}

/// A concatenation starts with its first part, and skipping that part
/// leaves the second.
proof fn lemma_prefix(p: Seq<char>, x: Seq<char>)
    ensures
        starts_with(p + x, p),
        (p + x).skip(p.len() as int) == x,
{
    assert((p + x).take(p.len() as int) =~= p);
    assert((p + x).skip(p.len() as int) =~= x);
}

/// Parsing inverts the encoding of one task object.
proof fn lemma_p_todo_enc(t: TodoView, rest: Seq<char>)
    ensures
        p_todo(enc_todo(t) + rest) == Some((t, rest)),
{
    let s = enc_todo(t) + rest;
    let et = if t.status is Incomplete {
        lit_incomplete_end()
    } else {
        lit_done_end()
    };
    let r3e = et + rest;
    let r2e = lit_status() + r3e;
    let r1e = lit_todo() + (esc(t.text) + seq!['"'] + r2e);
    assert(s =~= lit_obj_id() + (esc(t.id) + seq!['"'] + r1e));
    lemma_prefix(lit_obj_id(), esc(t.id) + seq!['"'] + r1e);
    assert(s.skip(7) == esc(t.id) + seq!['"'] + r1e);
    lemma_unesc_esc(t.id, r1e);
    assert(p_unesc(s.skip(7)) == Some((t.id, r1e)));
    lemma_prefix(lit_todo(), esc(t.text) + seq!['"'] + r2e);
    assert(r1e.skip(9) == esc(t.text) + seq!['"'] + r2e);
    lemma_unesc_esc(t.text, r2e);
    assert(p_unesc(r1e.skip(9)) == Some((t.text, r2e)));
    lemma_prefix(lit_status(), r3e);
    assert(r2e.skip(11) == r3e);
    lemma_prefix(et, rest);
    if t.status is Incomplete {
        assert(starts_with(r3e, lit_incomplete_end()));
        assert(r3e.skip(12) == rest);
        assert((TodoView { id: t.id, text: t.text, status: Status::Incomplete }) == t);
    } else {
        assert(r3e[0] == 'D');
        if starts_with(r3e, lit_incomplete_end()) {
            assert(r3e.take(12)[0] == 'I');
            assert(false);
        }
        assert(starts_with(r3e, lit_done_end()));
        assert(r3e.skip(6) == rest);
        assert((TodoView { id: t.id, text: t.text, status: Status::Done }) == t);
    }
}

/// Parsing inverts the encoding of the items from index `i` on, up to
/// the closing bracket.
proof fn lemma_p_items_enc(ts: Seq<TodoView>, i: int)
    requires
        0 <= i < ts.len(),
    ensures
        p_items(enc_todo(ts[i]) + enc_rest(ts, i + 1) + seq![']']) == Some(
            (ts.skip(i), seq![']']),
        ),
    decreases ts.len() - i,
{
    let s = enc_todo(ts[i]) + enc_rest(ts, i + 1) + seq![']'];
    let r = enc_rest(ts, i + 1) + seq![']'];
    assert(s =~= enc_todo(ts[i]) + r);
    lemma_p_todo_enc(ts[i], r);
    assert(p_todo(s) == Some((ts[i], r)));
    if i + 1 >= ts.len() {
        assert(r =~= seq![']']);
        assert(r[0] == ']');
        assert(seq![ts[i]] =~= ts.skip(i));
        assert(p_items(s) == Some((ts.skip(i), seq![']'])));
    } else {
        assert(r =~= seq![','] + (enc_todo(ts[i + 1]) + enc_rest(ts, i + 2) + seq![']']));
        assert(r[0] == ',');
        assert(r.drop_first() =~= enc_todo(ts[i + 1]) + enc_rest(ts, i + 2) + seq![']']);
        lemma_p_items_enc(ts, i + 1);
        assert(p_items(r.drop_first()) == Some((ts.skip(i + 1), seq![']'])));
        assert(seq![ts[i]] + ts.skip(i + 1) =~= ts.skip(i));
        assert(p_items(s) == Some((ts.skip(i), seq![']'])));
    }
}

/// Saving is idempotent: encoding what was decoded from an encoding
/// yields the same stored text, byte for byte.
pub proof fn lemma_save_twice_identical(ts: Seq<TodoView>)
    ensures
        (match spec_decode(spec_encode(ts)) {
            Some(loaded) => spec_encode(loaded) == spec_encode(ts),
            None => false,
        }),
{
    lemma_round_trip(ts);
}

/// Decoding inverts encoding: a collection saved and reloaded is the
/// same collection.
pub proof fn lemma_round_trip(ts: Seq<TodoView>)
    ensures
        spec_decode(spec_encode(ts)) == Some(ts),
{
    let s = spec_encode(ts);
    if ts.len() == 0 {
        assert(s[0] == '[' && s[1] == ']' && s.len() == 2);
        assert(ts =~= Seq::<TodoView>::empty());
    } else {
        assert(s =~= seq!['['] + (enc_todo(ts[0]) + enc_rest(ts, 1) + seq![']']));
        assert(s[0] == '[');
        assert(enc_todo(ts[0]).len() >= 7) by {
            assert(lit_obj_id().len() == 7);
        }
        assert(s.len() > 2);
        assert(s.drop_first() =~= enc_todo(ts[0]) + enc_rest(ts, 1) + seq![']']);
        lemma_p_items_enc(ts, 0);
        assert(p_items(s.drop_first()) == Some((ts.skip(0), seq![']'])));
        assert(ts.skip(0) =~= ts);
    }
}

fn hex_char_exec(d: u8) -> (r: char)
    requires
        d < 16,
    ensures
        r == hex_char(d as nat),
{
    if d < 10 {
        (48 + d) as char
    } else {
        (97 + (d - 10)) as char
    }
}

fn is_hex_exec(c: char) -> (r: bool)
    ensures
        r == is_hex(c),
{
    let u = c as u32;
    (48 <= u && u <= 57) || (97 <= u && u <= 102) || (65 <= u && u <= 70)
}

fn hex_val_exec(c: char) -> (r: u8)
    requires
        is_hex(c),
    ensures
        r as nat == hex_val(c),
        r < 16,
{
    let u = c as u32;
    if u <= 57 {
        (u - 48) as u8
    } else if u >= 97 {
        (u - 97 + 10) as u8
    } else {
        (u - 65 + 10) as u8
    }
}

fn short_esc_char_exec(e: char) -> (r: char)
    requires
        is_short_esc(e),
    ensures
        r == short_esc_char(e),
{
    if e == 'b' {
        '\u{0008}'
    } else if e == 'f' {
        '\u{000C}'
    } else if e == 'n' {
        '\n'
    } else if e == 'r' {
        '\r'
    } else {
        '\t'
    }
}

/// Appends the escape of `s` to `out`.
fn push_esc_str(out: &mut Vec<char>, s: &str)
    ensures
        final(out)@ == old(out)@ + esc(s@),
{
    let n = s.unicode_len();
    let mut i: usize = 0;
    proof {
        assert(s@.take(0) =~= Seq::<char>::empty());
        assert(out@ =~= old(out)@ + esc(s@.take(0)));
    }
    while i < n
        invariant
            n == s@.len(),
            0 <= i <= n,
            out@ == old(out)@ + esc(s@.take(i as int)),
        decreases n - i,
    {
        let c = s.get_char(i);
        let ghost pre = out@;
        if c == '"' {
            out.push('\\');
            out.push('"');
        } else if c == '\\' {
            out.push('\\');
            out.push('\\');
        } else {
            let u = c as u32;
            if u < 32 {
                out.push('\\');
                out.push('u');
                out.push('0');
                out.push('0');
                out.push(hex_char_exec((u / 16) as u8));
                out.push(hex_char_exec((u % 16) as u8));
            } else {
                out.push(c);
            }
        }
        proof {
            assert(out@ =~= pre + esc_char(s@[i as int]));
            assert(s@.take(i + 1) =~= s@.take(i as int).push(s@[i as int]));
            lemma_esc_push(s@.take(i as int), s@[i as int]);
            assert(out@ =~= old(out)@ + esc(s@.take(i + 1)));
        }
        i += 1;
    }
    proof {
        assert(s@.take(n as int) =~= s@);
    }
}

fn lit_obj_id_vec() -> (r: Vec<char>)
    ensures
        r@ == lit_obj_id(),
{
    let mut v: Vec<char> = Vec::new();
    v.push('{');
    v.push('"');
    v.push('i');
    v.push('d');
    v.push('"');
    v.push(':');
    v.push('"');
    proof {
        assert(v@ =~= lit_obj_id());
    }
    v
}

fn lit_todo_vec() -> (r: Vec<char>)
    ensures
        r@ == lit_todo(),
{
    let mut v: Vec<char> = Vec::new();
    v.push(',');
    v.push('"');
    v.push('t');
    v.push('o');
    v.push('d');
    v.push('o');
    v.push('"');
    v.push(':');
    v.push('"');
    proof {
        assert(v@ =~= lit_todo());
    }
    v
}

fn lit_status_vec() -> (r: Vec<char>)
    ensures
        r@ == lit_status(),
{
    let mut v: Vec<char> = Vec::new();
    v.push(',');
    v.push('"');
    v.push('s');
    v.push('t');
    v.push('a');
    v.push('t');
    v.push('u');
    v.push('s');
    v.push('"');
    v.push(':');
    v.push('"');
    proof {
        assert(v@ =~= lit_status());
    }
    v
}

fn lit_incomplete_end_vec() -> (r: Vec<char>)
    ensures
        r@ == lit_incomplete_end(),
{
    let mut v: Vec<char> = Vec::new();
    v.push('I');
    v.push('n');
    v.push('c');
    v.push('o');
    v.push('m');
    v.push('p');
    v.push('l');
    v.push('e');
    v.push('t');
    v.push('e');
    v.push('"');
    v.push('}');
    proof {
        assert(v@ =~= lit_incomplete_end());
    }
    v
}

fn lit_done_end_vec() -> (r: Vec<char>)
    ensures
        r@ == lit_done_end(),
{
    let mut v: Vec<char> = Vec::new();
    v.push('D');
    v.push('o');
    v.push('n');
    v.push('e');
    v.push('"');
    v.push('}');
    proof {
        assert(v@ =~= lit_done_end());
    }
    v
}

/// Appends the encoding of one task to `out`.
fn push_todo_enc(out: &mut Vec<char>, t: &Todo)
    ensures
        final(out)@ == old(out)@ + enc_todo(t@),
{
    let lid = lit_obj_id_vec();
    let lt = lit_todo_vec();
    let ls = lit_status_vec();
    let mut k: usize = 0;
    let n1 = lid.len();
    while k < n1
        invariant
            n1 == lid@.len(),
            0 <= k <= n1,
            lid@ == lit_obj_id(),
            out@ == old(out)@ + lid@.take(k as int),
        decreases n1 - k,
    {
        out.push(lid[k]);
        proof {
            assert(out@ =~= old(out)@ + lid@.take(k + 1));
        }
        k += 1;
    }
    proof {
        assert(lid@.take(n1 as int) =~= lid@);
    }
    push_esc_str(out, t.id.as_str());
    out.push('"');
    let ghost mark1 = old(out)@ + lit_obj_id() + esc(t@.id) + seq!['"'];
    proof {
        assert(out@ =~= mark1);
    }
    let mut k2: usize = 0;
    let n2 = lt.len();
    while k2 < n2
        invariant
            n2 == lt@.len(),
            0 <= k2 <= n2,
            lt@ == lit_todo(),
            out@ == mark1 + lt@.take(k2 as int),
        decreases n2 - k2,
    {
        out.push(lt[k2]);
        proof {
            assert(out@ =~= mark1 + lt@.take(k2 + 1));
        }
        k2 += 1;
    }
    proof {
        assert(lt@.take(n2 as int) =~= lt@);
    }
    push_esc_str(out, t.todo.as_str());
    out.push('"');
    let ghost mark2 = mark1 + lit_todo() + esc(t@.text) + seq!['"'];
    proof {
        assert(out@ =~= mark2);
    }
    let mut k3: usize = 0;
    let n3 = ls.len();
    while k3 < n3
        invariant
            n3 == ls@.len(),
            0 <= k3 <= n3,
            ls@ == lit_status(),
            out@ == mark2 + ls@.take(k3 as int),
        decreases n3 - k3,
    {
        out.push(ls[k3]);
        proof {
            assert(out@ =~= mark2 + ls@.take(k3 + 1));
        }
        k3 += 1;
    }
    proof {
        assert(ls@.take(n3 as int) =~= ls@);
    }
    let le = match t.status {
        Status::Incomplete => lit_incomplete_end_vec(),
        Status::Done => lit_done_end_vec(),
    };
    let ghost mark3 = mark2 + lit_status();
    let mut k4: usize = 0;
    let n4 = le.len();
    while k4 < n4
        invariant
            n4 == le@.len(),
            0 <= k4 <= n4,
            le@ == (if t@.status is Incomplete {
                lit_incomplete_end()
            } else {
                lit_done_end()
            }),
            out@ == mark3 + le@.take(k4 as int),
        decreases n4 - k4,
    {
        out.push(le[k4]);
        proof {
            assert(out@ =~= mark3 + le@.take(k4 + 1));
        }
        k4 += 1;
    }
    proof {
        assert(le@.take(n4 as int) =~= le@);
        assert(out@ =~= old(out)@ + enc_todo(t@));
    }
}

/// Encodes a whole collection as the stored document.
pub fn encode_todos(todos: &Vec<Todo>) -> (r: String)
    ensures
        r@ == spec_encode(views(todos@)),
{
    let ghost vs = views(todos@);
    let mut buf: Vec<char> = Vec::new();
    buf.push('[');
    let n = todos.len();
    let mut i: usize = 0;
    while i < n
        invariant
            n == todos@.len(),
            0 <= i <= n,
            vs == views(todos@),
            vs.len() == n,
            i == 0 ==> buf@ == seq!['['],
            i >= 1 ==> buf@ + (enc_rest(vs, i as int) + seq![']']) == spec_encode(vs),
        decreases n - i,
    {
        let ghost pre = buf@;
        if i > 0 {
            buf.push(',');
        }
        push_todo_enc(&mut buf, &todos[i]);
        proof {
            if i == 0 {
                assert(buf@ =~= seq!['['] + enc_todo(vs[0]));
                assert(buf@ + (enc_rest(vs, 1) + seq![']']) =~= spec_encode(vs));
            } else {
                assert(buf@ =~= pre + (seq![','] + enc_todo(vs[i as int])));
                assert(enc_rest(vs, i as int) == seq![','] + enc_todo(vs[i as int]) + enc_rest(
                    vs,
                    i + 1,
                ));
                assert(buf@ + (enc_rest(vs, i + 1) + seq![']']) =~= pre + (enc_rest(vs, i as int)
                    + seq![']']));
            }
        }
        i += 1;
    }
    buf.push(']');
    proof {
        if n == 0 {
            assert(buf@ =~= spec_encode(vs));
        } else {
            assert(enc_rest(vs, n as int) == Seq::<char>::empty());
            assert(buf@ =~= spec_encode(vs));
        }
    }
    chars_to_string(buf)
}

/// Parses a string body starting at `i`, mirroring `p_unesc`.
fn px_unesc(v: &Vec<char>, i: usize) -> (r: Option<(Vec<char>, usize)>)
    requires
        i <= v@.len(),
    ensures
        match r {
            Some(p) => i < p.1 <= v@.len() && p_unesc(v@.skip(i as int)) == Some(
                (p.0@, v@.skip(p.1 as int)),
            ),
            None => p_unesc(v@.skip(i as int)) is None,
        },
    decreases v@.len() - i,
{
    let ghost s = v@.skip(i as int);
    if i >= v.len() {
        return None;
    }
    let c = v[i];
    proof {
        assert(c == s[0]);
    }
    if c == '"' {
        proof {
            assert(s.drop_first() =~= v@.skip(i + 1));
        }
        return Some((Vec::new(), i + 1));
    }
    if c == '\\' {
        if i + 1 < v.len() {
            let e = v[i + 1];
            proof {
                assert(e == s[1]);
            }
            if e == '"' || e == '\\' || e == '/' {
                proof {
                    assert(s.skip(2) =~= v@.skip(i + 2));
                }
                match px_unesc(v, i + 2) {
                    Some((mut cs, j)) => {
                        let ghost prev = cs@;
                        cs.insert(0, e);
                        proof {
                            assert(cs@ =~= seq![s[1]] + prev);
                        }
                        Some((cs, j))
                    },
                    None => None,
                }
            } else if e == 'b' || e == 'f' || e == 'n' || e == 'r' || e == 't' {
                proof {
                    assert(s.skip(2) =~= v@.skip(i + 2));
                }
                match px_unesc(v, i + 2) {
                    Some((mut cs, j)) => {
                        let ghost prev = cs@;
                        cs.insert(0, short_esc_char_exec(e));
                        proof {
                            assert(cs@ =~= seq![short_esc_char(s[1])] + prev);
                        }
                        Some((cs, j))
                    },
                    None => None,
                }
            } else if e == 'u' {
                if v.len() - i > 5 {
                    let c2 = v[i + 2];
                    let c3 = v[i + 3];
                    let h1 = v[i + 4];
                    let h2 = v[i + 5];
                    proof {
                        assert(c2 == s[2] && c3 == s[3] && h1 == s[4] && h2 == s[5]);
                    }
                    if is_hex_exec(c2) && is_hex_exec(c3) && is_hex_exec(h1) && is_hex_exec(h2) {
                        let val: u32 = ((hex_val_exec(c2) as u32 * 16 + hex_val_exec(c3) as u32)
                            * 16 + hex_val_exec(h1) as u32) * 16 + hex_val_exec(h2) as u32;
                        proof {
                            assert(val as nat == hex4(s[2], s[3], s[4], s[5]));
                        }
                        if !(0xD800 <= val && val <= 0xDFFF) {
                            proof {
                                assert(s.skip(6) =~= v@.skip(i + 6));
                            }
                            let ch = match char::from_u32(val) {
                                Some(c0) => c0,
                                None => {
                                    proof {
                                        assert(false);
                                    }
                                    ' '
                                },
                            };
                            proof {
                                lemma_char_of_code(ch);
                                assert(ch == char_of(hex4(s[2], s[3], s[4], s[5])));
                            }
                            match px_unesc(v, i + 6) {
                                Some((mut cs, j)) => {
                                    let ghost prev = cs@;
                                    cs.insert(0, ch);
                                    proof {
                                        assert(cs@ =~= seq![char_of(hex4(s[2], s[3], s[4], s[5]))]
                                            + prev);
                                    }
                                    Some((cs, j))
                                },
                                None => None,
                            }
                        } else {
                            None
                        }
                    } else {
                        None
                    }
                } else {
                    None
                }
            } else {
                None
            }
        } else {
            None
        }
    } else {
        let u = c as u32;
        if u >= 32 {
            proof {
                assert(s.drop_first() =~= v@.skip(i + 1));
            }
            match px_unesc(v, i + 1) {
                Some((mut cs, j)) => {
                    let ghost prev = cs@;
                    cs.insert(0, c);
                    proof {
                        assert(cs@ =~= seq![s[0]] + prev);
                    }
                    Some((cs, j))
                },
                None => None,
            }
        } else {
            None
        }
    }
}

/// Whether the characters at `i` start with `p`.
fn px_prefix(v: &Vec<char>, i: usize, p: &Vec<char>) -> (r: bool)
    requires
        i <= v@.len(),
    ensures
        r == starts_with(v@.skip(i as int), p@),
{
    let ghost s = v@.skip(i as int);
    let m = p.len();
    let nlen = v.len();
    if nlen - i < m {
        return false;
    }
    let mut k: usize = 0;
    while k < m
        invariant
            m == p@.len(),
            0 <= k <= m,
            nlen == v@.len(),
            i + m <= nlen,
            s == v@.skip(i as int),
            forall|q: int| 0 <= q < k ==> s[q] == p@[q],
        decreases m - k,
    {
        if v[i + k] != p[k] {
            proof {
                assert(s[k as int] == v@[i + k]);
                if starts_with(s, p@) {
                    assert(s.take(m as int)[k as int] == p@[k as int]);
                }
            }
            return false;
        }
        proof {
            assert(s[k as int] == v@[i + k]);
        }
        k += 1;
    }
    proof {
        assert(s.take(m as int) =~= p@);
    }
    true
}

/// Parses one task object starting at `i`, mirroring `p_todo`.
fn px_todo(v: &Vec<char>, i: usize) -> (r: Option<(Todo, usize)>)
    requires
        i <= v@.len(),
    ensures
        match r {
            Some(p) => i < p.1 <= v@.len() && p_todo(v@.skip(i as int)) == Some(
                (p.0@, v@.skip(p.1 as int)),
            ),
            None => p_todo(v@.skip(i as int)) is None,
        },
{
    let ghost s = v@.skip(i as int);
    let nlen = v.len();
    let lid = lit_obj_id_vec();
    if !px_prefix(v, i, &lid) {
        return None;
    }
    proof {
        assert(lit_obj_id().len() == 7);
        assert(i + 7 <= nlen);
        assert(s.skip(7) =~= v@.skip(i + 7));
    }
    match px_unesc(v, i + 7) {
        None => None,
        Some((idc, j1)) => {
            let lt = lit_todo_vec();
            if !px_prefix(v, j1, &lt) {
                return None;
            }
            proof {
                assert(lit_todo().len() == 9);
                assert(j1 + 9 <= nlen);
                assert(v@.skip(j1 as int).skip(9) =~= v@.skip(j1 + 9));
            }
            match px_unesc(v, j1 + 9) {
                None => None,
                Some((txc, j2)) => {
                    let ls = lit_status_vec();
                    if !px_prefix(v, j2, &ls) {
                        return None;
                    }
                    proof {
                        assert(lit_status().len() == 11);
                        assert(j2 + 11 <= nlen);
                        assert(v@.skip(j2 as int).skip(11) =~= v@.skip(j2 + 11));
                    }
                    let j3 = j2 + 11;
                    let li = lit_incomplete_end_vec();
                    if px_prefix(v, j3, &li) {
                        proof {
                            assert(lit_incomplete_end().len() == 12);
                            assert(j3 + 12 <= nlen);
                            assert(v@.skip(j3 as int).skip(12) =~= v@.skip(j3 + 12));
                        }
                        let t = Todo {
                            id: chars_to_string(idc),
                            todo: chars_to_string(txc),
                            status: Status::Incomplete,
                        };
                        return Some((t, j3 + 12));
                    }
                    let ld = lit_done_end_vec();
                    if px_prefix(v, j3, &ld) {
                        proof {
                            assert(lit_done_end().len() == 6);
                            assert(j3 + 6 <= nlen);
                            assert(v@.skip(j3 as int).skip(6) =~= v@.skip(j3 + 6));
                        }
                        let t = Todo {
                            id: chars_to_string(idc),
                            todo: chars_to_string(txc),
                            status: Status::Done,
                        };
                        return Some((t, j3 + 6));
                    }
                    None
                },
            }
        },
    }
}

/// Parses a comma-separated list of task objects starting at `i`,
/// mirroring `p_items`.
fn px_items(v: &Vec<char>, i: usize) -> (r: Option<(Vec<Todo>, usize)>)
    requires
        i <= v@.len(),
    ensures
        match r {
            Some(p) => i < p.1 <= v@.len() && p_items(v@.skip(i as int)) == Some(
                (views(p.0@), v@.skip(p.1 as int)),
            ),
            None => p_items(v@.skip(i as int)) is None,
        },
    decreases v@.len() - i,
{
    let ghost s = v@.skip(i as int);
    match px_todo(v, i) {
        None => None,
        Some((t, j)) => {
            let mut comma = false;
            if j < v.len() {
                comma = v[j] == ',';
            }
            proof {
                let r1 = v@.skip(j as int);
                assert(r1.len() == v@.len() - j);
                if j < v@.len() {
                    assert(r1[0] == v@[j as int]);
                }
                assert(comma == (r1.len() > 0 && r1[0] == ','));
            }
            if comma {
                proof {
                    assert(v@.skip(j as int).drop_first() =~= v@.skip(j + 1));
                }
                match px_items(v, j + 1) {
                    None => None,
                    Some((mut ts, j2)) => {
                        let ghost prev = ts@;
                        ts.insert(0, t);
                        proof {
                            assert(views(ts@) =~= seq![t@] + views(prev));
                        }
                        Some((ts, j2))
                    },
                }
            } else {
                let mut out: Vec<Todo> = Vec::new();
                out.push(t);
                proof {
                    assert(views(out@) =~= seq![t@]);
                }
                Some((out, j))
            }
        },
    }
}

/// Decodes the stored document. String values may use any standard
/// escape; anything else that strays from the encoder's shape —
/// including an empty or hand-corrupted file — yields the empty
/// collection: storage is repaired by discarding, by design.
pub fn decode_todos(s: &str) -> (r: Vec<Todo>)
    ensures
        views(r@) == (match spec_decode(s@) {
            Some(ts) => ts,
            None => Seq::<TodoView>::empty(),
        }),
{
    let v = str_to_chars(s);
    let n = v.len();
    if n < 2 {
        return Vec::new();
    }
    if v[0] != '[' {
        return Vec::new();
    }
    if n == 2 && v[1] == ']' {
        return Vec::new();
    }
    proof {
        assert(s@.drop_first() =~= v@.skip(1));
    }
    match px_items(&v, 1) {
        None => Vec::new(),
        Some((ts, j)) => {
            if j == n - 1 {
                if v[j] == ']' {
                    return ts;
                }
                Vec::new()
            } else {
                Vec::new()
            }
        },
    }
}

} // verus!
