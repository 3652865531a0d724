//! The menu engine's pure logic: rendering the numbered option list and
//! validating one line of input against it, plus the line-reading
//! primitive's trimming and cancel-sentinel classification.

use vstd::prelude::*;
use crate::chars::{chars_to_string, push_str_chars};
use crate::ops::str_eq;

verus! {

/// Whether `c` is a decimal digit.
pub open spec fn is_digit(c: char) -> bool {
    48 <= c as u32 <= 57
}

/// The value of a decimal digit.
pub open spec fn digit_val(c: char) -> nat {
    (c as u32 - 48) as nat
}

/// Whether every character of `s` is a decimal digit.
pub open spec fn all_digits(s: Seq<char>) -> bool {
    forall|i: int| 0 <= i < s.len() ==> is_digit(s[i])
}

/// The value of `s` read as a decimal numeral.
pub open spec fn digits_value(s: Seq<char>) -> nat
    decreases s.len(),
{
    if s.len() == 0 {
        0
    } else {
        digits_value(s.drop_last()) * 10 + digit_val(s.last())
    }
}

/// What a line of input selects from a list of `n` options: the
/// zero-based index `v - 1` when the line is a numeral of value `v` with
/// `1 <= v <= n`, and nothing otherwise. A single leading plus sign is
/// accepted before the digits.
pub open spec fn choice_of(s: Seq<char>, n: nat) -> Option<nat> {
    let ds = if s.len() >= 2 && s[0] == '+' {
        s.drop_first()
    } else {
        s
    };
    if ds.len() > 0 && all_digits(ds) && 1 <= digits_value(ds) <= n {
        Some((digits_value(ds) - 1) as nat)
    } else {
        None
    }
}

/// A numeral's prefixes never exceed its value.
proof fn lemma_digits_prefix_le(s: Seq<char>, i: int)
    requires
        all_digits(s),
        0 <= i <= s.len(),
    ensures
        digits_value(s.take(i)) <= digits_value(s),
    decreases s.len() - i,
{
    if i == s.len() {
        assert(s.take(i) =~= s);
    } else {
        assert(s.take(i + 1).drop_last() =~= s.take(i));
        assert(s.take(i + 1).last() == s[i]);
        lemma_digits_prefix_le(s, i + 1);
    }
}

/// Parses one line of menu input against `options_len` options,
/// returning the selected zero-based index exactly as `choice_of` says.
pub fn parse_choice(input: &str, options_len: usize) -> (r: Option<usize>)
    ensures
        match r {
            Some(i) => choice_of(input@, options_len as nat) == Some(i as nat),
            None => choice_of(input@, options_len as nat) is None,
        },
{
    let n = input.unicode_len();
    if n == 0 {
        return None;
    }
    let start: usize = if input.get_char(0) == '+' && n >= 2 {
        1
    } else {
        0
    };
    let ghost ds = if input@.len() >= 2 && input@[0] == '+' {
        input@.drop_first()
    } else {
        input@
    };
    proof {
        assert(ds =~= input@.skip(start as int));
    }
    let mut acc: usize = 0;
    let mut i: usize = start;
    proof {
        assert(ds.take(0) =~= Seq::<char>::empty());
    }
    while i < n
        invariant
            n == input@.len(),
            0 < n,
            start <= i <= n,
            start <= 1,
            (input@.len() >= 2 && input@[0] == '+') ==> start == 1,
            !(input@.len() >= 2 && input@[0] == '+') ==> start == 0,
            ds == (if input@.len() >= 2 && input@[0] == '+' {
                input@.drop_first()
            } else {
                input@
            }),
            ds == input@.skip(start as int),
            ds.len() == n - start,
            all_digits(ds.take(i - start)),
            acc as nat == digits_value(ds.take(i - start)),
            acc <= options_len,
        decreases n - i,
    {
        let c = input.get_char(i);
        proof {
            assert(c == ds[i - start]);
        }
        let u = c as u32;
        if !(48 <= u && u <= 57) {
            proof {
                assert(!is_digit(ds[i - start]));
            }
            return None;
        }
        let d = (u - 48) as usize;
        proof {
            assert(ds.take(i - start + 1).drop_last() =~= ds.take(i - start));
            assert(ds.take(i - start + 1).last() == ds[i - start]);
            assert(digits_value(ds.take(i - start + 1)) == acc as nat * 10 + d as nat);
        }
        let mut too_big = false;
        let mut newacc: usize = 0;
        match acc.checked_mul(10) {
            Some(m) => match m.checked_add(d) {
                Some(v) => {
                    if v <= options_len {
                        newacc = v;
                    } else {
                        too_big = true;
                    }
                },
                None => {
                    too_big = true;
                },
            },
            None => {
                too_big = true;
            },
        }
        if too_big {
            proof {
                assert(digits_value(ds.take(i - start + 1)) > options_len);
                if all_digits(ds) {
                    lemma_digits_prefix_le(ds, i - start + 1);
                }
            }
            return None;
        }
        acc = newacc;
        i += 1;
    }
    proof {
        assert(ds.take(n - start) =~= ds);
    }
    if acc == 0 {
        None
    } else {
        Some(acc - 1)
    }
}

/// Whether `c` is white space that the line reader strips: the Unicode
/// White_Space set, as `str::trim` uses it.
pub open spec fn is_ws(c: char) -> bool {
    let u = c as u32;
    (9 <= u && u <= 13) || u == 32 || u == 0x85 || u == 0xA0 || u == 0x1680 || (0x2000 <= u && u
        <= 0x200A) || u == 0x2028 || u == 0x2029 || u == 0x202F || u == 0x205F || u == 0x3000
}

/// `s` without leading white space.
pub open spec fn trim_front(s: Seq<char>) -> Seq<char>
    decreases s.len(),
{
    if s.len() > 0 && is_ws(s[0]) {
        trim_front(s.drop_first())
    } else {
        s
    }
}

/// `s` without trailing white space.
pub open spec fn trim_back(s: Seq<char>) -> Seq<char>
    decreases s.len(),
{
    if s.len() > 0 && is_ws(s.last()) {
        trim_back(s.drop_last())
    } else {
        s
    }
}

/// `s` without leading and trailing white space.
pub open spec fn spec_trim(s: Seq<char>) -> Seq<char> {
    trim_back(trim_front(s))
}

fn is_ws_exec(c: char) -> (r: bool)
    ensures
        r == is_ws(c),
{
    let u = c as u32;
    (9 <= u && u <= 13) || u == 32 || u == 0x85 || u == 0xA0 || u == 0x1680 || (0x2000 <= u && u
        <= 0x200A) || u == 0x2028 || u == 0x2029 || u == 0x202F || u == 0x205F || u == 0x3000
}

/// Strips leading and trailing white space from `s`.
pub fn trim_str(s: &str) -> (r: String)
    ensures
        r@ == spec_trim(s@),
{
    let n = s.unicode_len();
    let mut start: usize = 0;
    proof {
        assert(s@.skip(0) =~= s@);
    }
    while start < n && is_ws_exec(s.get_char(start))
        invariant
            n == s@.len(),
            0 <= start <= n,
            trim_front(s@) == trim_front(s@.skip(start as int)),
        decreases n - start,
    {
        proof {
            assert(s@.skip(start as int).drop_first() =~= s@.skip(start + 1));
        }
        start += 1;
    }
    proof {
        assert(trim_front(s@) == s@.skip(start as int)) by {
            assert(s@.skip(start as int).len() == n - start);
        }
    }
    let mut end: usize = n;
    while end > start && is_ws_exec(s.get_char(end - 1))
        invariant
            n == s@.len(),
            start <= end <= n,
            trim_front(s@) == s@.skip(start as int),
            trim_back(s@.skip(start as int)) == trim_back(s@.subrange(start as int, end as int)),
        decreases end,
    {
        proof {
            assert(s@.subrange(start as int, end as int).drop_last() =~= s@.subrange(
                start as int,
                end - 1,
            ));
        }
        end -= 1;
    }
    proof {
        assert(spec_trim(s@) == s@.subrange(start as int, end as int));
    }
    let t = s.substring_char(start, end);
    t.to_owned()
}

/// What one line of raw input means: the reserved cancel sentinel, or a
/// trimmed value.
pub enum LineEvent {
    Cancel,
    Value(String),
}

/// Classifies one raw input line: after trimming, the single character
/// `0` is the universal cancel sentinel; anything else is a value.
pub fn classify_line(line: &str) -> (r: LineEvent)
    ensures
        spec_trim(line@) == seq!['0'] ==> r is Cancel,
        spec_trim(line@) != seq!['0'] ==> (r matches LineEvent::Value(v) && v@ == spec_trim(
            line@,
        )),
{
    let t = trim_str(line);
    proof {
        reveal_strlit("0");
        assert("0"@ =~= seq!['0']);
    }
    if str_eq(t.as_str(), "0") {
        LineEvent::Cancel
    } else {
        LineEvent::Value(t)
    }
}

/// The character of a decimal digit value.
pub open spec fn digit_char(d: nat) -> char {
    ((48 + d) as u8) as char
}

/// The decimal numeral of `n`, most significant digit first.
pub open spec fn dec_digits(n: nat) -> Seq<char>
    decreases n,
{
    if n < 10 {
        seq![digit_char(n)]
    } else {
        dec_digits(n / 10).push(digit_char(n % 10))
    }
}

/// Appends the decimal numeral of `n` to `out`.
pub fn push_usize_decimal(out: &mut Vec<char>, n: usize)
    ensures
        final(out)@ == old(out)@ + dec_digits(n as nat),
    decreases n,
{
    if n < 10 {
        let c = ((48 + n as u8)) as char;
        proof {
            assert(c == digit_char(n as nat));
        }
        out.push(c);
        proof {
            assert(out@ =~= old(out)@ + dec_digits(n as nat));
        }
    } else {
        push_usize_decimal(out, n / 10);
        let c = ((48 + (n % 10) as u8)) as char;
        proof {
            assert(c == digit_char(n as nat % 10));
        }
        out.push(c);
        proof {
            assert(out@ =~= old(out)@ + dec_digits(n as nat));
        }
    }
}

/// The banner line around the menu's message.
pub open spec fn banner() -> Seq<char> {
    "\n====================================\n"@
}

/// The numbered entries of the menu from index `i` on, each on its own
/// line as `<number>: <option>` with one-based numbers.
pub open spec fn menu_entries(opts: Seq<Seq<char>>, i: int) -> Seq<char>
    decreases opts.len() - i,
{
    if i < 0 || i >= opts.len() {
        Seq::empty()
    } else {
        seq!['\n'] + dec_digits((i + 1) as nat) + seq![':', ' '] + opts[i] + menu_entries(
            opts,
            i + 1,
        )
    }
}

/// The full menu text: the message between two banners, then the
/// numbered options.
pub open spec fn menu_text(opts: Seq<Seq<char>>, msg: Seq<char>) -> Seq<char> {
    banner() + msg + banner() + menu_entries(opts, 0)
}

/// Renders the menu for the given options and message, exactly as
/// `menu_text` says.
pub fn render_menu(options: &Vec<&str>, msg: &str) -> (r: String)
    ensures
        r@ == menu_text(options@.map_values(|o: &str| o@), msg@),
{
    let ghost opts = options@.map_values(|o: &str| o@);
    let mut buf: Vec<char> = Vec::new();
    push_str_chars(&mut buf, "\n====================================\n");
    push_str_chars(&mut buf, msg);
    push_str_chars(&mut buf, "\n====================================\n");
    let n = options.len();
    let mut i: usize = 0;
    while i < n
        invariant
            n == options@.len(),
            0 <= i <= n,
            opts == options@.map_values(|o: &str| o@),
            opts.len() == n,
            buf@ + menu_entries(opts, i as int) == menu_text(opts, msg@),
        decreases n - i,
    {
        let ghost pre = buf@;
        buf.push('\n');
        push_usize_decimal(&mut buf, i + 1);
        buf.push(':');
        buf.push(' ');
        push_str_chars(&mut buf, options[i]);
        proof {
            assert(buf@ =~= pre + (seq!['\n'] + dec_digits((i + 1) as nat) + seq![':', ' ']
                + opts[i as int]));
            assert(buf@ + menu_entries(opts, i + 1) =~= pre + menu_entries(opts, i as int));
        }
        i += 1;
    }
    proof {
        assert(buf@ =~= menu_text(opts, msg@));
    }
    chars_to_string(buf)
}

} // verus!
