//! The store codec: the grammar of the persisted todo collection — a
//! pretty-printed JSON array of records with fixed keys and `YYYY-MM-DD
//! HH:MM:SS` UTC timestamps — as a specification-level parser, an
//! executable parser proved to implement it, and a writer whose output it
//! accepts. Reading and writing the file itself stays outside the
//! library.
use vstd::prelude::*;
use crate::common_structs::{Priority, TodoError};
use crate::data_service::views;
use crate::dates::{
    civil_from_days, date_wf, days_from_civil, days_from_civil_exec, days_in_month_exec,
    lemma_civil_in_range,
};
use crate::text::{all_digits, dec_seq, dec_value, is_digit, str_eq};
use crate::todo::{Todo, TodoView, TS_LIMIT};

verus! {

/// JSON whitespace.
pub open spec fn is_json_ws(c: char) -> bool {
    c == ' ' || c == '\t' || c == '\n' || c == '\r'
}

/// The first index at or after `i` holding something besides whitespace.
pub open spec fn sp_ws(t: Seq<char>, i: int) -> int
    decreases t.len() - i,
{
    if 0 <= i < t.len() && is_json_ws(t[i]) {
        sp_ws(t, i + 1)
    } else {
        i
    }
}

/// Matches the exact text `lit` at `i`.
pub open spec fn sp_lit(t: Seq<char>, i: int, lit: Seq<char>) -> Option<int> {
    if 0 <= i && i + lit.len() <= t.len() && t.subrange(i, i + lit.len()) == lit {
        Some(i + lit.len())
    } else {
        None
    }
}

/// Skips whitespace, then matches `lit`.
pub open spec fn sp_tok(t: Seq<char>, i: int, lit: Seq<char>) -> Option<int> {
    sp_lit(t, sp_ws(t, i), lit)
}

/// The value of a hexadecimal digit, or -1.
pub open spec fn hex_val(c: char) -> int {
    if is_digit(c) {
        c as u32 - 48
    } else if 97 <= c as u32 && c as u32 <= 102 {
        c as u32 - 87
    } else if 65 <= c as u32 && c as u32 <= 70 {
        c as u32 - 55
    } else {
        -1
    }
}

/// The control character with scalar value `v` in `0..32`.
pub open spec fn ctrl_char(v: int) -> char {
    if v == 0 {
        '\u{00}'
    } else if v == 1 {
        '\u{01}'
    } else if v == 2 {
        '\u{02}'
    } else if v == 3 {
        '\u{03}'
    } else if v == 4 {
        '\u{04}'
    } else if v == 5 {
        '\u{05}'
    } else if v == 6 {
        '\u{06}'
    } else if v == 7 {
        '\u{07}'
    } else if v == 8 {
        '\u{08}'
    } else if v == 9 {
        '\u{09}'
    } else if v == 10 {
        '\u{0A}'
    } else if v == 11 {
        '\u{0B}'
    } else if v == 12 {
        '\u{0C}'
    } else if v == 13 {
        '\u{0D}'
    } else if v == 14 {
        '\u{0E}'
    } else if v == 15 {
        '\u{0F}'
    } else if v == 16 {
        '\u{10}'
    } else if v == 17 {
        '\u{11}'
    } else if v == 18 {
        '\u{12}'
    } else if v == 19 {
        '\u{13}'
    } else if v == 20 {
        '\u{14}'
    } else if v == 21 {
        '\u{15}'
    } else if v == 22 {
        '\u{16}'
    } else if v == 23 {
        '\u{17}'
    } else if v == 24 {
        '\u{18}'
    } else if v == 25 {
        '\u{19}'
    } else if v == 26 {
        '\u{1A}'
    } else if v == 27 {
        '\u{1B}'
    } else if v == 28 {
        '\u{1C}'
    } else if v == 29 {
        '\u{1D}'
    } else if v == 30 {
        '\u{1E}'
    } else {
        '\u{1F}'
    }
}

/// Reads the characters of a JSON string after its opening quote, with
/// `acc` the characters already read: plain characters stand for
/// themselves, the short escapes and `\u00XX` (control range only) decode,
/// and a raw control character is malformed.
pub open spec fn sp_str_chars(t: Seq<char>, i: int, acc: Seq<char>) -> Option<(Seq<char>, int)>
    decreases t.len() - i,
{
    if i < 0 || i >= t.len() {
        None
    } else if t[i] == '"' {
        Some((acc, i + 1))
    } else if t[i] == '\\' {
        if i + 1 >= t.len() {
            None
        } else {
            let e = t[i + 1];
            if e == '"' {
                sp_str_chars(t, i + 2, acc.push('"'))
            } else if e == '\\' {
                sp_str_chars(t, i + 2, acc.push('\\'))
            } else if e == '/' {
                sp_str_chars(t, i + 2, acc.push('/'))
            } else if e == 'b' {
                sp_str_chars(t, i + 2, acc.push('\u{08}'))
            } else if e == 't' {
                sp_str_chars(t, i + 2, acc.push('\t'))
            } else if e == 'n' {
                sp_str_chars(t, i + 2, acc.push('\n'))
            } else if e == 'f' {
                sp_str_chars(t, i + 2, acc.push('\u{0C}'))
            } else if e == 'r' {
                sp_str_chars(t, i + 2, acc.push('\r'))
            } else if e == 'u' {
                if i + 6 <= t.len() && hex_val(t[i + 2]) >= 0 && hex_val(t[i + 3]) >= 0 && hex_val(
                    t[i + 4],
                ) >= 0 && hex_val(t[i + 5]) >= 0 {
                    let v = hex_val(t[i + 2]) * 4096 + hex_val(t[i + 3]) * 256 + hex_val(t[i + 4])
                        * 16 + hex_val(t[i + 5]);
                    if v < 32 {
                        sp_str_chars(t, i + 6, acc.push(ctrl_char(v)))
                    } else {
                        None
                    }
                } else {
                    None
                }
            } else {
                None
            }
        }
    } else if (t[i] as u32) < 32 {
        None
    } else {
        sp_str_chars(t, i + 1, acc.push(t[i]))
    }
}

/// Skips whitespace and reads a JSON string.
pub open spec fn sp_string(t: Seq<char>, i: int) -> Option<(Seq<char>, int)> {
    let j = sp_ws(t, i);
    if 0 <= j < t.len() && t[j] == '"' {
        sp_str_chars(t, j + 1, Seq::empty())
    } else {
        None
    }
}

/// The first index at or after `i` holding a non-digit.
pub open spec fn digits_end(t: Seq<char>, i: int) -> int
    decreases t.len() - i,
{
    if 0 <= i < t.len() && is_digit(t[i]) {
        digits_end(t, i + 1)
    } else {
        i
    }
}

/// Skips whitespace and reads an unsigned 32-bit decimal number: one or
/// more digits whose value fits.
pub open spec fn sp_u32(t: Seq<char>, i: int) -> Option<(u32, int)> {
    let j = sp_ws(t, i);
    let e = digits_end(t, j);
    if e == j {
        None
    } else if dec_value(t.subrange(j, e)) <= 0xFFFF_FFFF {
        Some((dec_value(t.subrange(j, e)) as u32, e))
    } else {
        None
    }
}

/// Skips whitespace and reads `true` or `false`.
pub open spec fn sp_bool(t: Seq<char>, i: int) -> Option<(bool, int)> {
    match sp_tok(t, i, "true"@) {
        Some(j) => Some((true, j)),
        None => match sp_tok(t, i, "false"@) {
            Some(j) => Some((false, j)),
            None => None,
        },
    }
}

/// Matches a fixed object key followed by its colon.
pub open spec fn sp_key(t: Seq<char>, i: int, key: Seq<char>) -> Option<int> {
    match sp_tok(t, i, seq!['"'] + key + seq!['"']) {
        Some(j) => sp_tok(t, j, ":"@),
        None => None,
    }
}

/// The text is a well-formed `YYYY-MM-DD HH:MM:SS` timestamp whose date
/// exists in the calendar and whose year the store can hold.
pub open spec fn dt_wf(s: Seq<char>) -> bool {
    &&& s.len() == 19
    &&& all_digits(s.subrange(0, 4))
    &&& s[4] == '-'
    &&& all_digits(s.subrange(5, 7))
    &&& s[7] == '-'
    &&& all_digits(s.subrange(8, 10))
    &&& s[10] == ' '
    &&& all_digits(s.subrange(11, 13))
    &&& s[13] == ':'
    &&& all_digits(s.subrange(14, 16))
    &&& s[16] == ':'
    &&& all_digits(s.subrange(17, 19))
    &&& date_wf(
        dec_value(s.subrange(0, 4)),
        dec_value(s.subrange(5, 7)),
        dec_value(s.subrange(8, 10)),
    )
    &&& dec_value(s.subrange(11, 13)) <= 23
    &&& dec_value(s.subrange(14, 16)) <= 59
    &&& dec_value(s.subrange(17, 19)) <= 59
}

/// The timestamp a well-formed datetime text denotes, in seconds since
/// the Unix epoch.
pub open spec fn dt_value(s: Seq<char>) -> int {
    days_from_civil(
        dec_value(s.subrange(0, 4)),
        dec_value(s.subrange(5, 7)),
        dec_value(s.subrange(8, 10)),
    ) * 86400 + dec_value(s.subrange(11, 13)) * 3600 + dec_value(s.subrange(14, 16)) * 60
        + dec_value(s.subrange(17, 19))
}

/// A well-formed datetime text denotes a representable timestamp.
pub proof fn lemma_dt_range(s: Seq<char>)
    requires
        dt_wf(s),
    ensures
        0 <= dt_value(s) < TS_LIMIT,
{
    lemma_civil_in_range(
        dec_value(s.subrange(0, 4)),
        dec_value(s.subrange(5, 7)),
        dec_value(s.subrange(8, 10)),
    );
    crate::text::lemma_dec_value_nonneg(s.subrange(11, 13));
    crate::text::lemma_dec_value_nonneg(s.subrange(14, 16));
    crate::text::lemma_dec_value_nonneg(s.subrange(17, 19));
    assert(TS_LIMIT == 2932897u64 * 86400);
}

/// The priority a stored name denotes.
pub open spec fn prio_of_name(s: Seq<char>) -> Option<Priority> {
    if s == "High"@ {
        Some(Priority::High)
    } else if s == "Medium"@ {
        Some(Priority::Medium)
    } else if s == "Low"@ {
        Some(Priority::Low)
    } else {
        None
    }
}

/// Reads one stored todo record: a brace-delimited object holding exactly
/// the six fields, in their fixed order.
pub open spec fn sp_todo(t: Seq<char>, i: int) -> Option<(TodoView, int)> {
    match sp_tok(t, i, "{"@) {
        None => None,
        Some(a) => match sp_key(t, a, "id"@) {
            None => None,
            Some(b) => match sp_u32(t, b) {
                None => None,
                Some((id, c)) => match sp_tok(t, c, ","@) {
                    None => None,
                    Some(d) => match sp_key(t, d, "title"@) {
                        None => None,
                        Some(e) => match sp_string(t, e) {
                            None => None,
                            Some((title, f)) => match sp_tok(t, f, ","@) {
                                None => None,
                                Some(g) => match sp_key(t, g, "priority"@) {
                                    None => None,
                                    Some(h) => match sp_string(t, h) {
                                        None => None,
                                        Some((pname, i2)) => match prio_of_name(pname) {
                                            None => None,
                                            Some(pr) => sp_todo_dates(
                                                t,
                                                i2,
                                                id,
                                                title,
                                                pr,
                                            ),
                                        },
                                    },
                                },
                            },
                        },
                    },
                },
            },
        },
    }
}

/// The tail of a stored todo record: the two timestamps and the
/// completion flag.
pub open spec fn sp_todo_dates(
    t: Seq<char>,
    i: int,
    id: u32,
    title: Seq<char>,
    pr: Priority,
) -> Option<(TodoView, int)> {
    match sp_tok(t, i, ","@) {
        None => None,
        Some(a) => match sp_key(t, a, "when_created_utc"@) {
            None => None,
            Some(b) => match sp_string(t, b) {
                None => None,
                Some((cstr, c)) => if !dt_wf(cstr) {
                    None
                } else {
                    match sp_tok(t, c, ","@) {
                        None => None,
                        Some(d) => match sp_key(t, d, "completed"@) {
                            None => None,
                            Some(e) => match sp_bool(t, e) {
                                None => None,
                                Some((comp, f)) => match sp_tok(t, f, ","@) {
                                    None => None,
                                    Some(g) => match sp_key(t, g, "when_completed_utc"@) {
                                        None => None,
                                        Some(h) => match sp_string(t, h) {
                                            None => None,
                                            Some((dstr, i2)) => if !dt_wf(dstr) {
                                                None
                                            } else {
                                                match sp_tok(t, i2, "}"@) {
                                                    None => None,
                                                    Some(end) => Some(
                                                        (
                                                            TodoView {
                                                                id,
                                                                title,
                                                                priority: pr,
                                                                when_created_utc: dt_value(cstr)
                                                                    as u64,
                                                                completed: comp,
                                                                when_completed_utc: dt_value(dstr)
                                                                    as u64,
                                                            },
                                                            end,
                                                        ),
                                                    ),
                                                }
                                            },
                                        },
                                    },
                                },
                            },
                        },
                    }
                },
            },
        },
    }
}

/// Reads the records of a non-empty stored collection, comma-separated,
/// up to and including the closing bracket.
pub open spec fn sp_todos(t: Seq<char>, i: int, acc: Seq<TodoView>) -> Option<
    (Seq<TodoView>, int),
>
    decreases t.len() - i,
{
    match sp_todo(t, i) {
        None => None,
        Some((tv, j)) => {
            if j <= i || j > t.len() {
                None
            } else {
                match sp_tok(t, j, ","@) {
                    Some(k) => {
                        if k <= i || k > t.len() {
                            None
                        } else {
                            sp_todos(t, k, acc.push(tv))
                        }
                    },
                    None => match sp_tok(t, j, "]"@) {
                        Some(e) => Some((acc.push(tv), e)),
                        None => None,
                    },
                }
            }
        },
    }
}

fn skip_ws(s: &str, i: usize) -> (r: usize)
    requires
        i <= s@.len(),
    ensures
        r as int == sp_ws(s@, i as int),
        i <= r <= s@.len(),
{
    let len = s.unicode_len();
    let mut j = i;
    loop
        invariant
            i <= j <= len,
            len == s@.len(),
            sp_ws(s@, j as int) == sp_ws(s@, i as int),
        ensures
            i <= j <= len,
            sp_ws(s@, j as int) == sp_ws(s@, i as int),
            j == len || !is_json_ws(s@[j as int]),
        decreases len - j,
    {
        if j >= len {
            break;
        }
        let c = s.get_char(j);
        if !(c == ' ' || c == '\t' || c == '\n' || c == '\r') {
            break;
        }
        j += 1;
    }
    j
}

fn match_lit(s: &str, i: usize, lit: &str) -> (r: Option<usize>)
    requires
        i <= s@.len(),
    ensures
        match r {
            Some(j) => sp_lit(s@, i as int, lit@) == Some(j as int) && i <= j <= s@.len(),
            None => sp_lit(s@, i as int, lit@) is None,
        },
{
    let len = s.unicode_len();
    let ll = lit.unicode_len();
    if ll > len - i {
        return None;
    }
    let mut k: usize = 0;
    loop
        invariant
            0 <= k <= ll,
            len == s@.len(),
            ll == lit@.len(),
            i + ll <= len,
            forall|x: int| 0 <= x < k ==> s@[i + x] == lit@[x],
        ensures
            k == ll,
            forall|x: int| 0 <= x < ll ==> s@[i + x] == lit@[x],
        decreases ll - k,
    {
        if k >= ll {
            break;
        }
        if s.get_char(i + k) != lit.get_char(k) {
            proof {
                assert(s@.subrange(i as int, i + lit@.len())[k as int] != lit@[k as int]);
            }
            return None;
        }
        k += 1;
    }
    proof {
        assert(s@.subrange(i as int, i + lit@.len()) =~= lit@);
    }
    Some(i + ll)
}

fn expect_tok(s: &str, i: usize, lit: &str) -> (r: Option<usize>)
    requires
        i <= s@.len(),
    ensures
        match r {
            Some(j) => sp_tok(s@, i as int, lit@) == Some(j as int) && i <= j <= s@.len(),
            None => sp_tok(s@, i as int, lit@) is None,
        },
{
    let j = skip_ws(s, i);
    match match_lit(s, j, lit) {
        Some(e) => Some(e),
        None => None,
    }
}

fn hex_digit(c: char) -> (r: Option<u32>)
    ensures
        match r {
            Some(v) => hex_val(c) == v && v < 16,
            None => hex_val(c) == -1,
        },
{
    let u = c as u32;
    if 48 <= u && u <= 57 {
        Some(u - 48)
    } else if 97 <= u && u <= 102 {
        Some(u - 87)
    } else if 65 <= u && u <= 70 {
        Some(u - 55)
    } else {
        None
    }
}

fn ctrl_str(v: u32) -> (r: &'static str)
    requires
        v < 32,
    ensures
        r@ =~= seq![ctrl_char(v as int)],
{
    proof {
        reveal_strlit("\u{00}");
        reveal_strlit("\u{01}");
        reveal_strlit("\u{02}");
        reveal_strlit("\u{03}");
        reveal_strlit("\u{04}");
        reveal_strlit("\u{05}");
        reveal_strlit("\u{06}");
        reveal_strlit("\u{07}");
        reveal_strlit("\u{08}");
        reveal_strlit("\u{09}");
        reveal_strlit("\u{0A}");
        reveal_strlit("\u{0B}");
        reveal_strlit("\u{0C}");
        reveal_strlit("\u{0D}");
        reveal_strlit("\u{0E}");
        reveal_strlit("\u{0F}");
        reveal_strlit("\u{10}");
        reveal_strlit("\u{11}");
        reveal_strlit("\u{12}");
        reveal_strlit("\u{13}");
        reveal_strlit("\u{14}");
        reveal_strlit("\u{15}");
        reveal_strlit("\u{16}");
        reveal_strlit("\u{17}");
        reveal_strlit("\u{18}");
        reveal_strlit("\u{19}");
        reveal_strlit("\u{1A}");
        reveal_strlit("\u{1B}");
        reveal_strlit("\u{1C}");
        reveal_strlit("\u{1D}");
        reveal_strlit("\u{1E}");
        reveal_strlit("\u{1F}");
    }
    if v == 0 {
        "\u{00}"
    } else if v == 1 {
        "\u{01}"
    } else if v == 2 {
        "\u{02}"
    } else if v == 3 {
        "\u{03}"
    } else if v == 4 {
        "\u{04}"
    } else if v == 5 {
        "\u{05}"
    } else if v == 6 {
        "\u{06}"
    } else if v == 7 {
        "\u{07}"
    } else if v == 8 {
        "\u{08}"
    } else if v == 9 {
        "\u{09}"
    } else if v == 10 {
        "\u{0A}"
    } else if v == 11 {
        "\u{0B}"
    } else if v == 12 {
        "\u{0C}"
    } else if v == 13 {
        "\u{0D}"
    } else if v == 14 {
        "\u{0E}"
    } else if v == 15 {
        "\u{0F}"
    } else if v == 16 {
        "\u{10}"
    } else if v == 17 {
        "\u{11}"
    } else if v == 18 {
        "\u{12}"
    } else if v == 19 {
        "\u{13}"
    } else if v == 20 {
        "\u{14}"
    } else if v == 21 {
        "\u{15}"
    } else if v == 22 {
        "\u{16}"
    } else if v == 23 {
        "\u{17}"
    } else if v == 24 {
        "\u{18}"
    } else if v == 25 {
        "\u{19}"
    } else if v == 26 {
        "\u{1A}"
    } else if v == 27 {
        "\u{1B}"
    } else if v == 28 {
        "\u{1C}"
    } else if v == 29 {
        "\u{1D}"
    } else if v == 30 {
        "\u{1E}"
    } else {
        "\u{1F}"
    }
}

fn parse_string(s: &str, i: usize) -> (r: Option<(String, usize)>)
    requires
        i <= s@.len(),
    ensures
        match r {
            Some(p) => sp_string(s@, i as int) == Some((p.0@, p.1 as int)) && p.1 <= s@.len(),
            None => sp_string(s@, i as int) is None,
        },
{
    let len = s.unicode_len();
    let j = skip_ws(s, i);
    if j >= len {
        return None;
    }
    if s.get_char(j) != '"' {
        return None;
    }
    let mut acc = String::new();
    let mut k = j + 1;
    loop
        invariant
            j + 1 <= k <= len,
            len == s@.len(),
            sp_str_chars(s@, k as int, acc@) == sp_str_chars(s@, j + 1, Seq::<char>::empty()),
            sp_string(s@, i as int) == sp_str_chars(s@, j + 1, Seq::<char>::empty()),
        decreases len - k,
    {
        if k >= len {
            return None;
        }
        let c = s.get_char(k);
        if c == '"' {
            return Some((acc, k + 1));
        }
        if c == '\\' {
            if k + 1 >= len {
                return None;
            }
            let e = s.get_char(k + 1);
            if e == '"' {
                proof {
                    reveal_strlit("\"");
                    assert(acc@ + "\""@ =~= acc@.push('"'));
                }
                acc.append("\"");
                k = k + 2;
            } else if e == '\\' {
                proof {
                    reveal_strlit("\\");
                    assert(acc@ + "\\"@ =~= acc@.push('\\'));
                }
                acc.append("\\");
                k = k + 2;
            } else if e == '/' {
                proof {
                    reveal_strlit("/");
                    assert(acc@ + "/"@ =~= acc@.push('/'));
                }
                acc.append("/");
                k = k + 2;
            } else if e == 'b' {
                proof {
                    reveal_strlit("\u{08}");
                    assert(acc@ + "\u{08}"@ =~= acc@.push('\u{08}'));
                }
                acc.append("\u{08}");
                k = k + 2;
            } else if e == 't' {
                proof {
                    reveal_strlit("\t");
                    assert(acc@ + "\t"@ =~= acc@.push('\t'));
                }
                acc.append("\t");
                k = k + 2;
            } else if e == 'n' {
                proof {
                    reveal_strlit("\n");
                    assert(acc@ + "\n"@ =~= acc@.push('\n'));
                }
                acc.append("\n");
                k = k + 2;
            } else if e == 'f' {
                proof {
                    reveal_strlit("\u{0C}");
                    assert(acc@ + "\u{0C}"@ =~= acc@.push('\u{0C}'));
                }
                acc.append("\u{0C}");
                k = k + 2;
            } else if e == 'r' {
                proof {
                    reveal_strlit("\r");
                    assert(acc@ + "\r"@ =~= acc@.push('\r'));
                }
                acc.append("\r");
                k = k + 2;
            } else if e == 'u' {
                if len - k < 6 {
                    return None;
                }
                let h1 = match hex_digit(s.get_char(k + 2)) {
                    Some(v) => v,
                    None => {
                        return None;
                    },
                };
                let h2 = match hex_digit(s.get_char(k + 3)) {
                    Some(v) => v,
                    None => {
                        return None;
                    },
                };
                let h3 = match hex_digit(s.get_char(k + 4)) {
                    Some(v) => v,
                    None => {
                        return None;
                    },
                };
                let h4 = match hex_digit(s.get_char(k + 5)) {
                    Some(v) => v,
                    None => {
                        return None;
                    },
                };
                let v = h1 * 4096 + h2 * 256 + h3 * 16 + h4;
                if v >= 32 {
                    return None;
                }
                let cs = ctrl_str(v);
                proof {
                    assert(acc@ + cs@ =~= acc@.push(ctrl_char(v as int)));
                }
                acc.append(cs);
                k = k + 6;
            } else {
                return None;
            }
        } else if (c as u32) < 32 {
            return None;
        } else {
            let piece = s.substring_char(k, k + 1);
            proof {
                assert(piece@ =~= seq![s@[k as int]]);
                assert(acc@ + piece@ =~= acc@.push(s@[k as int]));
            }
            acc.append(piece);
            k = k + 1;
        }
    }
}

fn parse_u32_tok(s: &str, i: usize) -> (r: Option<(u32, usize)>)
    requires
        i <= s@.len(),
    ensures
        match r {
            Some(p) => sp_u32(s@, i as int) == Some((p.0, p.1 as int)) && p.1 <= s@.len(),
            None => sp_u32(s@, i as int) is None,
        },
{
    let len = s.unicode_len();
    let j = skip_ws(s, i);
    let mut e = j;
    loop
        invariant
            j <= e <= len,
            len == s@.len(),
            digits_end(s@, e as int) == digits_end(s@, j as int),
            forall|x: int| j <= x < e ==> is_digit(s@[x]),
        ensures
            j <= e <= len,
            e as int == digits_end(s@, j as int),
            forall|x: int| j <= x < e ==> is_digit(s@[x]),
        decreases len - e,
    {
        if e >= len {
            break;
        }
        let u = s.get_char(e) as u32;
        if !(48 <= u && u <= 57) {
            break;
        }
        e += 1;
    }
    if e == j {
        return None;
    }
    let mut acc: u64 = 0;
    let mut over = false;
    let mut k = j;
    proof {
        assert(s@.subrange(j as int, j as int) =~= Seq::<char>::empty());
    }
    loop
        invariant
            j <= k <= e <= len,
            len == s@.len(),
            forall|x: int| j <= x < e ==> is_digit(s@[x]),
            !over ==> acc == dec_value(s@.subrange(j as int, k as int)) && acc <= 0xFFFF_FFFF,
            over ==> dec_value(s@.subrange(j as int, k as int)) > 0xFFFF_FFFF,
        ensures
            k == e,
            !over ==> acc == dec_value(s@.subrange(j as int, e as int)) && acc <= 0xFFFF_FFFF,
            over ==> dec_value(s@.subrange(j as int, e as int)) > 0xFFFF_FFFF,
        decreases e - k,
    {
        if k >= e {
            break;
        }
        let d = s.get_char(k) as u32 - 48;
        proof {
            assert(s@.subrange(j as int, k + 1).drop_last() =~= s@.subrange(j as int, k as int));
            assert(s@.subrange(j as int, k + 1).last() == s@[k as int]);
            crate::text::lemma_dec_value_nonneg(s@.subrange(j as int, k as int));
        }
        if !over {
            let na = acc * 10 + d as u64;
            if na > 0xFFFF_FFFF {
                over = true;
            } else {
                acc = na;
            }
        }
        k += 1;
    }
    if over {
        return None;
    }
    Some((acc as u32, e))
}

fn parse_bool_tok(s: &str, i: usize) -> (r: Option<(bool, usize)>)
    requires
        i <= s@.len(),
    ensures
        match r {
            Some(p) => sp_bool(s@, i as int) == Some((p.0, p.1 as int)) && p.1 <= s@.len(),
            None => sp_bool(s@, i as int) is None,
        },
{
    match expect_tok(s, i, "true") {
        Some(j) => Some((true, j)),
        None => match expect_tok(s, i, "false") {
            Some(j) => Some((false, j)),
            None => None,
        },
    }
}

fn parse_key(s: &str, i: usize, key: &str) -> (r: Option<usize>)
    requires
        i <= s@.len(),
    ensures
        match r {
            Some(j) => sp_key(s@, i as int, key@) == Some(j as int) && i <= j <= s@.len(),
            None => sp_key(s@, i as int, key@) is None,
        },
{
    let mut q = String::from_str("\"");
    q.append(key);
    q.append("\"");
    proof {
        reveal_strlit("\"");
        assert(q@ =~= seq!['"'] + key@ + seq!['"']);
    }
    match expect_tok(s, i, q.as_str()) {
        Some(j) => expect_tok(s, j, ":"),
        None => None,
    }
}

/// Reads a group of exactly `b - a` digits as a number.
fn read_num(s: &str, a: usize, b: usize) -> (r: Option<u32>)
    requires
        a <= b <= s@.len(),
        b - a <= 4,
    ensures
        match r {
            Some(v) => all_digits(s@.subrange(a as int, b as int)) && v == dec_value(
                s@.subrange(a as int, b as int),
            ),
            None => !all_digits(s@.subrange(a as int, b as int)),
        },
{
    let mut k = a;
    let mut acc: u32 = 0;
    proof {
        assert(s@.subrange(a as int, a as int) =~= Seq::<char>::empty());
    }
    loop
        invariant
            a <= k <= b <= s@.len(),
            b - a <= 4,
            forall|x: int| a <= x < k ==> is_digit(s@[x]),
            acc == dec_value(s@.subrange(a as int, k as int)),
            k - a == 0 ==> acc == 0,
            k - a == 1 ==> acc <= 9,
            k - a == 2 ==> acc <= 99,
            k - a == 3 ==> acc <= 999,
            k - a == 4 ==> acc <= 9999,
        ensures
            k == b,
            forall|x: int| a <= x < k ==> is_digit(s@[x]),
            acc == dec_value(s@.subrange(a as int, b as int)),
        decreases b - k,
    {
        if k >= b {
            break;
        }
        let u = s.get_char(k) as u32;
        if !(48 <= u && u <= 57) {
            proof {
                assert(!is_digit(s@.subrange(a as int, b as int)[k - a]));
            }
            return None;
        }
        proof {
            assert(s@.subrange(a as int, k + 1).drop_last() =~= s@.subrange(a as int, k as int));
            assert(s@.subrange(a as int, k + 1).last() == s@[k as int]);
        }
        acc = acc * 10 + (u - 48);
        k += 1;
    }
    proof {
        assert(forall|x: int|
            0 <= x < b - a ==> s@.subrange(a as int, b as int)[x] == s@[a + x]);
    }
    Some(acc)
}

/// Reads a `YYYY-MM-DD HH:MM:SS` timestamp text into seconds since the
/// Unix epoch.
fn dt_parse(c: &str) -> (r: Option<u64>)
    ensures
        match r {
            Some(v) => dt_wf(c@) && v as int == dt_value(c@) && v < TS_LIMIT,
            None => !dt_wf(c@),
        },
{
    if c.unicode_len() != 19 {
        return None;
    }
    if c.get_char(4) != '-' || c.get_char(7) != '-' || c.get_char(10) != ' ' || c.get_char(13)
        != ':' || c.get_char(16) != ':' {
        return None;
    }
    let y = match read_num(c, 0, 4) {
        Some(v) => v,
        None => {
            return None;
        },
    };
    let mo = match read_num(c, 5, 7) {
        Some(v) => v,
        None => {
            return None;
        },
    };
    let d = match read_num(c, 8, 10) {
        Some(v) => v,
        None => {
            return None;
        },
    };
    let h = match read_num(c, 11, 13) {
        Some(v) => v,
        None => {
            return None;
        },
    };
    let mi = match read_num(c, 14, 16) {
        Some(v) => v,
        None => {
            return None;
        },
    };
    let se = match read_num(c, 17, 19) {
        Some(v) => v,
        None => {
            return None;
        },
    };
    if !(1970 <= y && y <= 9999) {
        return None;
    }
    if !(1 <= mo && mo <= 12) {
        return None;
    }
    if !(1 <= d && d <= days_in_month_exec(y, mo)) {
        return None;
    }
    if h > 23 || mi > 59 || se > 59 {
        return None;
    }
    let days = days_from_civil_exec(y, mo, d);
    let v: u64 = days as u64 * 86400 + h as u64 * 3600 + mi as u64 * 60 + se as u64;
    proof {
        assert(TS_LIMIT == 2932897u64 * 86400);
    }
    Some(v)
}

fn parse_priority_name(p: &String) -> (r: Option<Priority>)
    ensures
        r == prio_of_name(p@),
{
    if str_eq(p.as_str(), "High") {
        Some(Priority::High)
    } else if str_eq(p.as_str(), "Medium") {
        Some(Priority::Medium)
    } else if str_eq(p.as_str(), "Low") {
        Some(Priority::Low)
    } else {
        None
    }
}

fn parse_todo(s: &str, i: usize) -> (r: Option<(Todo, usize)>)
    requires
        i <= s@.len(),
    ensures
        match r {
            Some(p) => sp_todo(s@, i as int) == Some((p.0@, p.1 as int)) && p.1 <= s@.len(),
            None => sp_todo(s@, i as int) is None,
        },
{
    let a = match expect_tok(s, i, "{") {
        Some(v) => v,
        None => {
            return None;
        },
    };
    let b = match parse_key(s, a, "id") {
        Some(v) => v,
        None => {
            return None;
        },
    };
    let (id, c) = match parse_u32_tok(s, b) {
        Some(v) => v,
        None => {
            return None;
        },
    };
    let d = match expect_tok(s, c, ",") {
        Some(v) => v,
        None => {
            return None;
        },
    };
    let e = match parse_key(s, d, "title") {
        Some(v) => v,
        None => {
            return None;
        },
    };
    let (title, f) = match parse_string(s, e) {
        Some(v) => v,
        None => {
            return None;
        },
    };
    let g = match expect_tok(s, f, ",") {
        Some(v) => v,
        None => {
            return None;
        },
    };
    let h = match parse_key(s, g, "priority") {
        Some(v) => v,
        None => {
            return None;
        },
    };
    let (pname, i2) = match parse_string(s, h) {
        Some(v) => v,
        None => {
            return None;
        },
    };
    let pr = match parse_priority_name(&pname) {
        Some(v) => v,
        None => {
            return None;
        },
    };
    let j2 = match expect_tok(s, i2, ",") {
        Some(v) => v,
        None => {
            return None;
        },
    };
    let k = match parse_key(s, j2, "when_created_utc") {
        Some(v) => v,
        None => {
            return None;
        },
    };
    let (cstr, l) = match parse_string(s, k) {
        Some(v) => v,
        None => {
            return None;
        },
    };
    let created = match dt_parse(cstr.as_str()) {
        Some(v) => v,
        None => {
            return None;
        },
    };
    let m2 = match expect_tok(s, l, ",") {
        Some(v) => v,
        None => {
            return None;
        },
    };
    let n = match parse_key(s, m2, "completed") {
        Some(v) => v,
        None => {
            return None;
        },
    };
    let (comp, o) = match parse_bool_tok(s, n) {
        Some(v) => v,
        None => {
            return None;
        },
    };
    let p2 = match expect_tok(s, o, ",") {
        Some(v) => v,
        None => {
            return None;
        },
    };
    let q = match parse_key(s, p2, "when_completed_utc") {
        Some(v) => v,
        None => {
            return None;
        },
    };
    let (dstr, r2) = match parse_string(s, q) {
        Some(v) => v,
        None => {
            return None;
        },
    };
    let completed_at = match dt_parse(dstr.as_str()) {
        Some(v) => v,
        None => {
            return None;
        },
    };
    let end = match expect_tok(s, r2, "}") {
        Some(v) => v,
        None => {
            return None;
        },
    };
    let todo = Todo::from_parts(id, title, pr, created, comp, completed_at);
    Some((todo, end))
}

/// Reads a whole stored collection text, yielding the todos it holds, or
/// the format error when the text is not a well-formed store.
pub fn parse_store(text: &str) -> (r: Result<Vec<Todo>, TodoError>)
    ensures
        match sp_store(text@) {
            Some(vs) => r matches Ok(v) && views(v@) == vs,
            None => r matches Err(e) && e == TodoError::StoreFormat,
        },
{
    let len = text.unicode_len();
    let a = match expect_tok(text, 0, "[") {
        Some(v) => v,
        None => {
            return Err(TodoError::StoreFormat);
        },
    };
    match expect_tok(text, a, "]") {
        Some(b) => {
            let e2 = skip_ws(text, b);
            if e2 == len {
                let empty: Vec<Todo> = Vec::new();
                proof {
                    assert(views(empty@) =~= Seq::<TodoView>::empty());
                }
                return Ok(empty);
            } else {
                return Err(TodoError::StoreFormat);
            }
        },
        None => {},
    }
    let mut out: Vec<Todo> = Vec::new();
    let mut pos = a;
    proof {
        assert(views(out@) =~= Seq::<TodoView>::empty());
    }
    loop
        invariant
            pos <= len,
            len == text@.len(),
            sp_tok(text@, 0, "["@) == Some(a as int),
            sp_tok(text@, a as int, "]"@) is None,
            sp_todos(text@, pos as int, views(out@)) == sp_todos(
                text@,
                a as int,
                Seq::<TodoView>::empty(),
            ),
        decreases len - pos,
    {
        match parse_todo(text, pos) {
            None => {
                return Err(TodoError::StoreFormat);
            },
            Some((todo, j)) => {
                if j <= pos {
                    return Err(TodoError::StoreFormat);
                }
                let ghost pre = views(out@);
                out.push(todo);
                proof {
                    assert(views(out@) =~= pre.push(todo@));
                }
                match expect_tok(text, j, ",") {
                    Some(k) => {
                        if k <= pos {
                            return Err(TodoError::StoreFormat);
                        }
                        pos = k;
                    },
                    None => {
                        match expect_tok(text, j, "]") {
                            Some(e) => {
                                let f = skip_ws(text, e);
                                if f == len {
                                    return Ok(out);
                                } else {
                                    return Err(TodoError::StoreFormat);
                                }
                            },
                            None => {
                                return Err(TodoError::StoreFormat);
                            },
                        }
                    },
                }
            },
        }
    }
}

/// The escape text the writer emits for one character: `"` and `\`
/// escaped, control characters in the `\u00XX` form except the five short
/// escapes, and every other character standing for itself.
pub open spec fn esc_char(c: char) -> Seq<char> {
    if c == '"' {
        seq!['\\', '"']
    } else if c == '\\' {
        seq!['\\', '\\']
    } else if c == '\u{08}' {
        seq!['\\', 'b']
    } else if c == '\t' {
        seq!['\\', 't']
    } else if c == '\n' {
        seq!['\\', 'n']
    } else if c == '\u{0C}' {
        seq!['\\', 'f']
    } else if c == '\r' {
        seq!['\\', 'r']
    } else if (c as u32) < 32 {
        seq!['\\', 'u', '0', '0', hex_digit_char((c as u32 / 16) as int), hex_digit_char(
            (c as u32 % 16) as int,
        )]
    } else {
        seq![c]
    }
}

/// The lower-case hexadecimal digit for `v` in `0..16`.
pub open spec fn hex_digit_char(v: int) -> char {
    if v < 10 {
        crate::text::dec_digit(v)
    } else if v == 10 {
        'a'
    } else if v == 11 {
        'b'
    } else if v == 12 {
        'c'
    } else if v == 13 {
        'd'
    } else if v == 14 {
        'e'
    } else {
        'f'
    }
}

/// The escaped text of a whole string.
pub open spec fn esc_str(s: Seq<char>) -> Seq<char>
    decreases s.len(),
{
    if s.len() == 0 {
        Seq::empty()
    } else {
        esc_char(s[0]) + esc_str(s.drop_first())
    }
}

/// Renders `n` as exactly two digits, zero-padded.
fn dec2(n: u32) -> (r: String)
    requires
        n <= 99,
    ensures
        r@.len() == 2,
        all_digits(r@),
        dec_value(r@) == n,
{
    let d1 = crate::text::dec_digit_str(n / 10);
    let d2 = crate::text::dec_digit_str(n % 10);
    let mut s = String::from_str(d1);
    s.append(d2);
    proof {
        let c1 = crate::text::dec_digit((n / 10) as int);
        let c2 = crate::text::dec_digit((n % 10) as int);
        crate::text::lemma_dec_digit_val((n / 10) as int);
        crate::text::lemma_dec_digit_val((n % 10) as int);
        assert(s@ =~= seq![c1, c2]);
        assert(dec_value(Seq::<char>::empty()) == 0);
        assert(seq![c1].drop_last() =~= Seq::<char>::empty());
        assert(seq![c1].last() == c1);
        assert(dec_value(seq![c1]) == crate::text::digit_val(c1));
        assert(s@.drop_last() =~= seq![c1]);
        assert(s@.last() == c2);
        assert(dec_value(s@) == dec_value(seq![c1]) * 10 + crate::text::digit_val(c2));
        assert(n / 10 * 10 + n % 10 == n) by (nonlinear_arith);
    }
    s
}

/// Renders `n` as exactly four digits.
fn dec4(n: u32) -> (r: String)
    requires
        n <= 9999,
    ensures
        r@.len() == 4,
        all_digits(r@),
        dec_value(r@) == n,
{
    let hi = dec2(n / 100);
    let lo = dec2(n % 100);
    let mut s = String::from_str(hi.as_str());
    s.append(lo.as_str());
    proof {
        assert(s@.subrange(0, 2) =~= hi@);
        assert(s@.subrange(2, 4) =~= lo@);
        assert(s@.drop_last() =~= hi@.push(lo@[0]));
        assert(s@.drop_last().drop_last() =~= hi@);
        assert(s@.last() == lo@[1]);
        assert(s@.drop_last().last() == lo@[0]);
        assert(dec_value(hi@.push(lo@[0])) == dec_value(hi@) * 10 + crate::text::digit_val(lo@[0]))
            by {
            assert(hi@.push(lo@[0]).drop_last() =~= hi@);
        }
        assert(dec_value(lo@) == crate::text::digit_val(lo@[0]) * 10 + crate::text::digit_val(
            lo@[1],
        )) by {
            assert(lo@.drop_last() =~= seq![lo@[0]]);
            assert(dec_value(seq![lo@[0]]) == crate::text::digit_val(lo@[0])) by {
                assert(seq![lo@[0]].drop_last() =~= Seq::<char>::empty());
            }
        }
        assert(dec_value(s@) == dec_value(hi@) * 100 + dec_value(lo@));
        assert(n / 100 * 100 + n % 100 == n) by (nonlinear_arith);
    }
    s
}

/// Renders a timestamp in the store's `YYYY-MM-DD HH:MM:SS` layout.
pub fn dt_format(ts: u64) -> (r: String)
    requires
        ts < TS_LIMIT,
    ensures
        dt_wf(r@),
        dt_value(r@) == ts,
{
    proof {
        assert(TS_LIMIT == 2932897u64 * 86400);
        assert(ts / 86400 < 2932897) by (nonlinear_arith)
            requires
                ts < 2932897u64 * 86400,
        ;
    }
    let days = (ts / 86400) as u32;
    let rem = (ts % 86400) as u32;
    let parts = civil_from_days(days);
    let y = parts.0;
    let mo = parts.1;
    let d = parts.2;
    let h = rem / 3600;
    let r2 = rem % 3600;
    let mi = r2 / 60;
    let se = r2 % 60;
    let ytxt = dec4(y);
    let motxt = dec2(mo);
    let dtxt = dec2(d);
    let htxt = dec2(h);
    let mitxt = dec2(mi);
    let setxt = dec2(se);
    let mut s = String::new();
    s.append(ytxt.as_str());
    s.append("-");
    s.append(motxt.as_str());
    s.append("-");
    s.append(dtxt.as_str());
    s.append(" ");
    s.append(htxt.as_str());
    s.append(":");
    s.append(mitxt.as_str());
    s.append(":");
    s.append(setxt.as_str());
    proof {
        reveal_strlit("-");
        reveal_strlit(" ");
        reveal_strlit(":");
        assert(s@.len() == 19);
        assert(s@.subrange(0, 4) =~= ytxt@);
        assert(s@[4] == '-');
        assert(s@.subrange(5, 7) =~= motxt@);
        assert(s@[7] == '-');
        assert(s@.subrange(8, 10) =~= dtxt@);
        assert(s@[10] == ' ');
        assert(s@.subrange(11, 13) =~= htxt@);
        assert(s@[13] == ':');
        assert(s@.subrange(14, 16) =~= mitxt@);
        assert(s@[16] == ':');
        assert(s@.subrange(17, 19) =~= setxt@);
        assert(ts == 86400 * (ts / 86400) + ts % 86400) by (nonlinear_arith);
        assert(rem == 3600 * (rem / 3600) + rem % 3600) by (nonlinear_arith);
        assert(r2 == 60 * (r2 / 60) + r2 % 60) by (nonlinear_arith);
        assert(rem < 86400);
        assert(h <= 23) by (nonlinear_arith)
            requires
                rem < 86400,
                h == rem / 3600,
        ;
        assert(r2 < 3600) by (nonlinear_arith)
            requires
                r2 == rem % 3600,
        ;
        assert(mi <= 59) by (nonlinear_arith)
            requires
                r2 < 3600,
                mi == r2 / 60,
        ;
        assert(se <= 59) by (nonlinear_arith)
            requires
                se == r2 % 60,
        ;
    }
    s
}

proof fn lemma_sp_ws_run(t: Seq<char>, i: int, k: int)
    requires
        0 <= i <= k <= t.len(),
        forall|x: int| i <= x < k ==> is_json_ws(t[x]),
        k == t.len() || !is_json_ws(t[k]),
    ensures
        sp_ws(t, i) == k,
    decreases k - i,
{
    if i < k {
        lemma_sp_ws_run(t, i + 1, k);
    }
}

proof fn lemma_sp_tok_at(t: Seq<char>, i: int, wsl: int, lit: Seq<char>)
    requires
        0 <= i,
        0 <= wsl,
        i + wsl + lit.len() <= t.len(),
        forall|x: int| i <= x < i + wsl ==> is_json_ws(t[x]),
        lit.len() > 0,
        !is_json_ws(lit[0]),
        t.subrange(i + wsl, i + wsl + lit.len()) == lit,
    ensures
        sp_tok(t, i, lit) == Some(i + wsl + lit.len()),
{
    assert(t[i + wsl] == t.subrange(i + wsl, i + wsl + lit.len())[0]);
    lemma_sp_ws_run(t, i, i + wsl);
}

proof fn lemma_sp_key_at(t: Seq<char>, i: int, wsl: int, key: Seq<char>)
    requires
        0 <= i,
        0 <= wsl,
        i + wsl + key.len() + 3 <= t.len(),
        forall|x: int| i <= x < i + wsl ==> is_json_ws(t[x]),
        t.subrange(i + wsl, i + wsl + key.len() + 2) == seq!['"'] + key + seq!['"'],
        t[i + wsl + key.len() + 2] == ':',
    ensures
        sp_key(t, i, key) == Some(i + wsl + key.len() + 3),
{
    let q = seq!['"'] + key + seq!['"'];
    assert(q[0] == '"');
    lemma_sp_tok_at(t, i, wsl, q);
    let p = i + wsl + key.len() + 2;
    assert(t.subrange(p, p + 1) =~= ":"@) by {
        reveal_strlit(":");
    }
    reveal_strlit(":");
    lemma_sp_tok_at(t, p, 0, ":"@);
}

proof fn lemma_sp_u32_at(t: Seq<char>, i: int, wsl: int, n: u32)
    requires
        0 <= i,
        0 <= wsl,
        i + wsl + dec_seq(n as nat).len() <= t.len(),
        forall|x: int| i <= x < i + wsl ==> is_json_ws(t[x]),
        t.subrange(i + wsl, i + wsl + dec_seq(n as nat).len()) == dec_seq(n as nat),
        i + wsl + dec_seq(n as nat).len() == t.len() || !is_digit(
            t[i + wsl + dec_seq(n as nat).len()],
        ),
    ensures
        sp_u32(t, i) == Some((n, i + wsl + dec_seq(n as nat).len())),
{
    let d = i + wsl;
    let l = dec_seq(n as nat).len() as int;
    crate::text::lemma_dec_seq_digits(n as nat);
    crate::text::lemma_dec_seq_value(n as nat);
    assert(forall|x: int|
        d <= x < d + l ==> t[x] == dec_seq(n as nat)[x - d] && is_digit(#[trigger] t[x]));
    assert(!is_json_ws(t[d]));
    lemma_sp_ws_run(t, i, d);
    lemma_digits_end_run(t, d, d + l);
    assert(t.subrange(d, d + l) == dec_seq(n as nat));
}

proof fn lemma_digits_end_run(t: Seq<char>, i: int, k: int)
    requires
        0 <= i <= k <= t.len(),
        forall|x: int| i <= x < k ==> is_digit(t[x]),
        k == t.len() || !is_digit(t[k]),
    ensures
        digits_end(t, i) == k,
    decreases k - i,
{
    if i < k {
        lemma_digits_end_run(t, i + 1, k);
    }
}

proof fn lemma_sp_bool_at(t: Seq<char>, i: int, wsl: int, b: bool)
    requires
        0 <= i,
        0 <= wsl,
        i + wsl + (if b {
            4int
        } else {
            5int
        }) <= t.len(),
        forall|x: int| i <= x < i + wsl ==> is_json_ws(t[x]),
        b ==> t.subrange(i + wsl, i + wsl + 4) == "true"@,
        !b ==> t.subrange(i + wsl, i + wsl + 5) == "false"@,
    ensures
        sp_bool(t, i) == Some(
            (
                b,
                i + wsl + (if b {
                    4int
                } else {
                    5int
                }),
            ),
        ),
{
    reveal_strlit("true");
    reveal_strlit("false");
    if b {
        lemma_sp_tok_at(t, i, wsl, "true"@);
    } else {
        lemma_sp_tok_at(t, i, wsl, "false"@);
        lemma_sp_ws_run(t, i, i + wsl);
        assert(sp_tok(t, i, "true"@) is None) by {
            if sp_tok(t, i, "true"@) is Some {
                assert(t.subrange(i + wsl, i + wsl + 4)[0] == 't');
                assert(t.subrange(i + wsl, i + wsl + 5)[0] == 'f');
            }
        }
    }
}

proof fn lemma_hex_digit_char_val(v: int)
    requires
        0 <= v < 16,
    ensures
        hex_val(hex_digit_char(v)) == v,
{
    if v < 10 {
        crate::text::lemma_dec_digit_val(v);
    }
}

proof fn lemma_ctrl_char_inverse(c: char)
    requires
        (c as u32) < 32,
    ensures
        ctrl_char(c as u32 as int) == c,
{
}

/// Characters that escape to themselves leave a string's escaped text
/// equal to the string.
pub open spec fn esc_plain(c: char) -> bool {
    c != '"' && c != '\\' && (c as u32) >= 32
}

proof fn lemma_esc_identity(s: Seq<char>)
    requires
        forall|x: int| 0 <= x < s.len() ==> esc_plain(#[trigger] s[x]),
    ensures
        esc_str(s) == s,
    decreases s.len(),
{
    if s.len() > 0 {
        lemma_esc_identity(s.drop_first());
        assert(esc_char(s[0]) =~= seq![s[0]]);
        assert(esc_str(s) =~= s);
    }
}

proof fn lemma_dt_plain(s: Seq<char>)
    requires
        dt_wf(s),
    ensures
        forall|x: int| 0 <= x < s.len() ==> esc_plain(#[trigger] s[x]),
        esc_str(s) == s,
{
    assert forall|x: int| 0 <= x < s.len() implies esc_plain(#[trigger] s[x]) by {
        if x < 4 {
            assert(is_digit(s.subrange(0, 4)[x]));
        } else if x == 4 || x == 7 {
        } else if x < 7 {
            assert(is_digit(s.subrange(5, 7)[x - 5]));
        } else if x < 10 {
            assert(is_digit(s.subrange(8, 10)[x - 8]));
        } else if x == 10 || x == 13 || x == 16 {
        } else if x < 13 {
            assert(is_digit(s.subrange(11, 13)[x - 11]));
        } else if x < 16 {
            assert(is_digit(s.subrange(14, 16)[x - 14]));
        } else {
            assert(is_digit(s.subrange(17, 19)[x - 17]));
        }
    }
    lemma_esc_identity(s);
}

proof fn lemma_prio_name_facts(p: Priority)
    ensures
        prio_of_name(crate::common_structs::spec_priority_name(p)) == Some(p),
        crate::common_structs::spec_priority_name(p).len() >= 3,
        forall|x: int|
            0 <= x < crate::common_structs::spec_priority_name(p).len() ==> esc_plain(
                #[trigger] crate::common_structs::spec_priority_name(p)[x],
            ),
        esc_str(crate::common_structs::spec_priority_name(p))
            == crate::common_structs::spec_priority_name(p),
{
    reveal_strlit("High");
    reveal_strlit("Medium");
    reveal_strlit("Low");
    lemma_esc_identity(crate::common_structs::spec_priority_name(p));
}

#[verifier::rlimit(100)]
proof fn lemma_sp_str_of_escaped(t: Seq<char>, i: int, s: Seq<char>, acc: Seq<char>)
    requires
        0 <= i,
        i + esc_str(s).len() + 1 <= t.len(),
        t.subrange(i, i + esc_str(s).len()) == esc_str(s),
        t[i + esc_str(s).len()] == '"',
    ensures
        sp_str_chars(t, i, acc) == Some((acc + s, i + esc_str(s).len() + 1)),
    decreases s.len(),
{
    if s.len() == 0 {
        assert(esc_str(s).len() == 0);
        assert(t[i] == '"');
        assert(acc + s =~= acc);
    } else {
        let c = s[0];
        let e = esc_char(c);
        let rest = s.drop_first();
        assert(esc_str(s) == e + esc_str(rest));
        let el = e.len() as int;
        assert(forall|x: int|
            0 <= x < esc_str(s).len() ==> t[i + x] == #[trigger] esc_str(s)[x]);
        assert(forall|x: int| 0 <= x < el ==> esc_str(s)[x] == e[x]);
        assert(forall|x: int|
            0 <= x < esc_str(rest).len() ==> #[trigger] esc_str(rest)[x] == esc_str(s)[el + x]);
        assert(t.subrange(i + el, i + el + esc_str(rest).len()) =~= esc_str(rest));
        lemma_sp_str_of_escaped(t, i + el, rest, acc.push(c));
        assert(acc.push(c) + rest =~= acc + s);
        if c == '"' {
            assert(t[i] == '\\' && t[i + 1] == '"');
        } else if c == '\\' {
            assert(t[i] == '\\' && t[i + 1] == '\\');
        } else if c == '\u{08}' {
            assert(t[i] == '\\' && t[i + 1] == 'b');
        } else if c == '\t' {
            assert(t[i] == '\\' && t[i + 1] == 't');
        } else if c == '\n' {
            assert(t[i] == '\\' && t[i + 1] == 'n');
        } else if c == '\u{0C}' {
            assert(t[i] == '\\' && t[i + 1] == 'f');
        } else if c == '\r' {
            assert(t[i] == '\\' && t[i + 1] == 'r');
        } else if (c as u32) < 32 {
            let cu = c as u32 as int;
            assert(t[i] == '\\' && t[i + 1] == 'u' && t[i + 2] == '0' && t[i + 3] == '0');
            assert(t[i + 4] == hex_digit_char(cu / 16));
            assert(t[i + 5] == hex_digit_char(cu % 16));
            assert(hex_val('0') == 0);
            lemma_hex_digit_char_val(cu / 16);
            lemma_hex_digit_char_val(cu % 16);
            let v = hex_val(t[i + 2]) * 4096 + hex_val(t[i + 3]) * 256 + hex_val(t[i + 4]) * 16
                + hex_val(t[i + 5]);
            assert(v == (cu / 16) * 16 + cu % 16);
            assert(cu / 16 * 16 + cu % 16 == cu) by (nonlinear_arith);
            lemma_ctrl_char_inverse(c);
            assert(sp_str_chars(t, i, acc) == sp_str_chars(t, i + 6, acc.push(c)));
        } else {
            assert(e =~= seq![c]);
            assert(esc_str(s).len() >= 1);
            assert(esc_str(s)[0] == e[0]);
            assert(e[0] == c);
            assert(t[i + 0] == esc_str(s)[0]);
            assert(t[i] == c);
            assert(!(t[i] == '"') && !(t[i] == '\\') && !((t[i] as u32) < 32));
        }
    }
}

proof fn lemma_sp_string_at(t: Seq<char>, i: int, wsl: int, s: Seq<char>)
    requires
        0 <= i,
        0 <= wsl,
        i + wsl + esc_str(s).len() + 2 <= t.len(),
        forall|x: int| i <= x < i + wsl ==> is_json_ws(t[x]),
        t[i + wsl] == '"',
        t.subrange(i + wsl + 1, i + wsl + 1 + esc_str(s).len()) == esc_str(s),
        t[i + wsl + 1 + esc_str(s).len()] == '"',
    ensures
        sp_string(t, i) == Some((s, i + wsl + esc_str(s).len() + 2)),
{
    lemma_sp_ws_run(t, i, i + wsl);
    lemma_sp_str_of_escaped(t, i + wsl + 1, s, Seq::empty());
    assert(Seq::<char>::empty() + s =~= s);
}

/// Every timestamp in the collection fits the store's layout.
pub open spec fn times_ok(vs: Seq<TodoView>) -> bool {
    forall|i: int|
        0 <= i < vs.len() ==> (#[trigger] vs[i]).when_created_utc < TS_LIMIT
            && vs[i].when_completed_utc < TS_LIMIT
}

proof fn lemma_esc_snoc(p: Seq<char>, c: char)
    ensures
        esc_str(p.push(c)) == esc_str(p) + esc_char(c),
    decreases p.len(),
{
    if p.len() == 0 {
        assert(p.push(c).drop_first() =~= Seq::<char>::empty());
        assert(p.push(c)[0] == c);
        assert(esc_str(Seq::<char>::empty()) =~= Seq::<char>::empty());
        assert(esc_str(p.push(c)) =~= esc_char(c) + esc_str(Seq::<char>::empty()));
        assert(esc_str(p.push(c)) =~= esc_char(c));
        assert(esc_str(p) + esc_char(c) =~= esc_char(c));
    } else {
        assert(p.push(c).drop_first() =~= p.drop_first().push(c));
        assert(p.push(c)[0] == p[0]);
        lemma_esc_snoc(p.drop_first(), c);
        assert(esc_char(p[0]) + (esc_str(p.drop_first()) + esc_char(c)) =~= (esc_char(p[0])
            + esc_str(p.drop_first())) + esc_char(c));
    }
}

fn hex_digit_str(v: u32) -> (r: &'static str)
    requires
        v < 16,
    ensures
        r@ =~= seq![hex_digit_char(v as int)],
{
    proof {
        reveal_strlit("a");
        reveal_strlit("b");
        reveal_strlit("c");
        reveal_strlit("d");
        reveal_strlit("e");
        reveal_strlit("f");
    }
    if v < 10 {
        crate::text::dec_digit_str(v)
    } else if v == 10 {
        "a"
    } else if v == 11 {
        "b"
    } else if v == 12 {
        "c"
    } else if v == 13 {
        "d"
    } else if v == 14 {
        "e"
    } else {
        "f"
    }
}

/// Appends the escaped form of `s` onto `out`.
fn append_escaped(out: &mut String, s: &str)
    ensures
        final(out)@ == old(out)@ + esc_str(s@),
{
    let ghost orig = old(out)@;
    let len = s.unicode_len();
    let mut i: usize = 0;
    proof {
        assert(s@.subrange(0, 0) =~= Seq::<char>::empty());
        assert(orig + esc_str(s@.subrange(0, 0)) =~= orig);
    }
    loop
        invariant
            0 <= i <= len,
            len == s@.len(),
            out@ == orig + esc_str(s@.subrange(0, i as int)),
        ensures
            out@ == orig + esc_str(s@.subrange(0, len as int)),
        decreases len - i,
    {
        if i >= len {
            break;
        }
        let c = s.get_char(i);
        let u = c as u32;
        let ghost pre = s@.subrange(0, i as int);
        proof {
            lemma_esc_snoc(pre, c);
            assert(s@.subrange(0, i as int + 1) =~= pre.push(c));
        }
        if c == '"' {
            proof {
                reveal_strlit("\\\"");
                assert("\\\""@ =~= esc_char(c));
                assert((orig + esc_str(pre)) + "\\\""@ =~= orig + esc_str(pre.push(c)));
            }
            out.append("\\\"");
        } else if c == '\\' {
            proof {
                reveal_strlit("\\\\");
                assert("\\\\"@ =~= esc_char(c));
                assert((orig + esc_str(pre)) + "\\\\"@ =~= orig + esc_str(pre.push(c)));
            }
            out.append("\\\\");
        } else if u == 8 {
            proof {
                reveal_strlit("\\b");
                assert("\\b"@ =~= esc_char(c));
                assert((orig + esc_str(pre)) + "\\b"@ =~= orig + esc_str(pre.push(c)));
            }
            out.append("\\b");
        } else if c == '\t' {
            proof {
                reveal_strlit("\\t");
                assert("\\t"@ =~= esc_char(c));
                assert((orig + esc_str(pre)) + "\\t"@ =~= orig + esc_str(pre.push(c)));
            }
            out.append("\\t");
        } else if c == '\n' {
            proof {
                reveal_strlit("\\n");
                assert("\\n"@ =~= esc_char(c));
                assert((orig + esc_str(pre)) + "\\n"@ =~= orig + esc_str(pre.push(c)));
            }
            out.append("\\n");
        } else if u == 12 {
            proof {
                reveal_strlit("\\f");
                assert("\\f"@ =~= esc_char(c));
                assert((orig + esc_str(pre)) + "\\f"@ =~= orig + esc_str(pre.push(c)));
            }
            out.append("\\f");
        } else if c == '\r' {
            proof {
                reveal_strlit("\\r");
                assert("\\r"@ =~= esc_char(c));
                assert((orig + esc_str(pre)) + "\\r"@ =~= orig + esc_str(pre.push(c)));
            }
            out.append("\\r");
        } else if u < 32 {
            let h1 = hex_digit_str(u / 16);
            let h2 = hex_digit_str(u % 16);
            proof {
                reveal_strlit("\\u00");
                assert("\\u00"@ + h1@ + h2@ =~= esc_char(c));
                assert((orig + esc_str(pre)) + "\\u00"@ + h1@ + h2@ =~= orig + esc_str(
                    pre.push(c),
                ));
            }
            out.append("\\u00");
            out.append(h1);
            out.append(h2);
        } else {
            let piece = s.substring_char(i, i + 1);
            proof {
                assert(piece@ =~= seq![c]);
                assert(piece@ =~= esc_char(c));
                assert((orig + esc_str(pre)) + piece@ =~= orig + esc_str(pre.push(c)));
            }
            out.append(piece);
        }
        i += 1;
    }
    proof {
        assert(s@.subrange(0, len as int) =~= s@);
    }
}

/// Writes one todo as its stored object text, onto `out`.
/// The object text `p` parses as one stored todo with content `v`,
/// wherever it stands: a call of the record parser whose
/// whitespace-skipped position finds exactly `p` yields `v` and stops at
/// the end of `p`.
pub open spec fn todo_piece_ok(p: Seq<char>, v: TodoView) -> bool {
    forall|t: Seq<char>, j: int|
        #![trigger sp_todo(t, j)]
        ((0 <= j <= t.len() && sp_ws(t, j) + p.len() <= t.len() && t.subrange(
            sp_ws(t, j),
            sp_ws(t, j) + p.len() as int,
        ) == p) ==> sp_todo(t, j) == Some((v, sp_ws(t, j) + p.len())))
}

/// The record text decomposes into its fixed labels and its five
/// variable segments at fixed offsets.
pub open spec fn todo_seg_facts(piece: Seq<char>, v: TodoView, ct: Seq<char>, dt: Seq<char>) -> bool {
    let idseq = dec_seq(v.id as nat);
    let etitle = esc_str(v.title);
    let name = crate::common_structs::spec_priority_name(v.priority);
    let o1 = 12int;
    let o2 = o1 + idseq.len();
    let o3 = o2 + 16;
    let o4 = o3 + etitle.len();
    let o5 = o4 + 20;
    let o6 = o5 + name.len();
    let o7 = o6 + 28;
    let o8 = o7 + 19;
    let o9 = o8 + 20;
    let o10 = o9 + (if v.completed { 4int } else { 5int });
    let o11 = o10 + 29;
    let o12 = o11 + 19;
    &&& piece.len() == o12 + 5
    &&& piece.subrange(0, o1) == "{\n    \"id\": "@
    &&& piece.subrange(o1, o2) == idseq
    &&& piece.subrange(o2, o3) == ",\n    \"title\": \""@
    &&& piece.subrange(o3, o4) == etitle
    &&& piece.subrange(o4, o5) == "\",\n    \"priority\": \""@
    &&& piece.subrange(o5, o6) == name
    &&& piece.subrange(o6, o7) == "\",\n    \"when_created_utc\": \""@
    &&& piece.subrange(o7, o8) == ct
    &&& piece.subrange(o8, o9) == "\",\n    \"completed\": "@
    &&& piece.subrange(o9, o10) == (if v.completed { "true"@ } else { "false"@ })
    &&& piece.subrange(o10, o11) == ",\n    \"when_completed_utc\": \""@
    &&& piece.subrange(o11, o12) == dt
    &&& piece.subrange(o12, o12 + 5) == "\"\n  }"@
}

proof fn lemma_todo_segs(piece: Seq<char>, v: TodoView, ct: Seq<char>, dt: Seq<char>)
    requires
        piece == "{\n    \"id\": "@ + dec_seq(v.id as nat) + ",\n    \"title\": \""@ + esc_str(
            v.title,
        ) + "\",\n    \"priority\": \""@ + crate::common_structs::spec_priority_name(v.priority)
            + "\",\n    \"when_created_utc\": \""@ + ct + "\",\n    \"completed\": "@ + (if v.completed {
            "true"@
        } else {
            "false"@
        }) + ",\n    \"when_completed_utc\": \""@ + dt + "\"\n  }"@,
        ct.len() == 19,
        dt.len() == 19,
    ensures
        todo_seg_facts(piece, v, ct, dt),
{
    reveal_strlit("{\n    \"id\": ");
    reveal_strlit(",\n    \"title\": \"");
    reveal_strlit("\",\n    \"priority\": \"");
    reveal_strlit("\",\n    \"when_created_utc\": \"");
    reveal_strlit("\",\n    \"completed\": ");
    reveal_strlit(",\n    \"when_completed_utc\": \"");
    reveal_strlit("\"\n  }");
    reveal_strlit("true");
    reveal_strlit("false");
    let idseq = dec_seq(v.id as nat);
    let etitle = esc_str(v.title);
    let name = crate::common_structs::spec_priority_name(v.priority);
    let o1 = 12int;
    let o2 = o1 + idseq.len();
    let o3 = o2 + 16;
    let o4 = o3 + etitle.len();
    let o5 = o4 + 20;
    let o6 = o5 + name.len();
    let o7 = o6 + 28;
    let o8 = o7 + 19;
    let o9 = o8 + 20;
    let o10 = o9 + (if v.completed { 4int } else { 5int });
    let o11 = o10 + 29;
    let o12 = o11 + 19;
    lemma_prio_name_facts(v.priority);
    assert(piece.subrange(0, o1) =~= "{\n    \"id\": "@);
    assert(piece.subrange(o1, o2) =~= idseq);
    assert(piece.subrange(o2, o3) =~= ",\n    \"title\": \""@);
    assert(piece.subrange(o3, o4) =~= etitle);
    assert(piece.subrange(o4, o5) =~= "\",\n    \"priority\": \""@);
    assert(piece.subrange(o5, o6) =~= name);
    assert(piece.subrange(o6, o7) =~= "\",\n    \"when_created_utc\": \""@);
    assert(piece.subrange(o7, o8) =~= ct);
    assert(piece.subrange(o8, o9) =~= "\",\n    \"completed\": "@);
    if v.completed {
        assert(piece.subrange(o9, o10) =~= "true"@);
    } else {
        assert(piece.subrange(o9, o10) =~= "false"@);
    }
    assert(piece.subrange(o10, o11) =~= ",\n    \"when_completed_utc\": \""@);
    assert(piece.subrange(o11, o12) =~= dt);
    assert(piece.subrange(o12, o12 + 5) =~= "\"\n  }"@);
}

proof fn lemma_sp_ws_bounds(t: Seq<char>, j: int)
    requires
        0 <= j <= t.len(),
    ensures
        j <= sp_ws(t, j) <= t.len(),
    decreases t.len() - j,
{
    if j < t.len() && is_json_ws(t[j]) {
        lemma_sp_ws_bounds(t, j + 1);
    }
}

proof fn lemma_region(t: Seq<char>, w: int, piece: Seq<char>, a: int, b: int)
    requires
        0 <= w,
        w + piece.len() <= t.len(),
        t.subrange(w, w + piece.len() as int) == piece,
        0 <= a <= b <= piece.len(),
    ensures
        t.subrange(w + a, w + b) == piece.subrange(a, b),
{
    assert forall|x: int| 0 <= x < b - a implies t.subrange(w + a, w + b)[x] == piece.subrange(
        a,
        b,
    )[x] by {
        assert(t.subrange(w, w + piece.len() as int)[a + x] == piece[a + x]);
    }
    assert(t.subrange(w + a, w + b) =~= piece.subrange(a, b));
}

proof fn lemma_sub(piece: Seq<char>, a2: int, b2: int, seg: Seq<char>, a: int, b: int)
    requires
        0 <= a2 <= a <= b <= b2 <= piece.len(),
        piece.subrange(a2, b2) == seg,
    ensures
        piece.subrange(a, b) == seg.subrange(a - a2, b - a2),
{
    assert forall|x: int| 0 <= x < b - a implies piece.subrange(a, b)[x] == seg.subrange(
        a - a2,
        b - a2,
    )[x] by {
        assert(piece.subrange(a2, b2)[a - a2 + x] == seg[a - a2 + x]);
        assert(piece.subrange(a, b)[x] == piece[a + x]);
    }
    assert(piece.subrange(a, b) =~= seg.subrange(a - a2, b - a2));
}

proof fn lemma_piece_char(t: Seq<char>, w: int, piece: Seq<char>, k: int)
    requires
        0 <= w,
        w + piece.len() <= t.len(),
        t.subrange(w, w + piece.len() as int) == piece,
        0 <= k < piece.len(),
    ensures
        t[w + k] == piece[k],
{
    assert(t.subrange(w, w + piece.len() as int)[k] == piece[k]);
}

#[verifier::rlimit(100)]
proof fn lemma_todo_walk_tail(
    t: Seq<char>,
    w: int,
    piece: Seq<char>,
    v: TodoView,
    ct: Seq<char>,
    dt: Seq<char>,
)
    requires
        todo_seg_facts(piece, v, ct, dt),
        dt_wf(ct),
        dt_value(ct) == v.when_created_utc,
        dt_wf(dt),
        dt_value(dt) == v.when_completed_utc,
        0 <= w,
        w + piece.len() <= t.len(),
        t.subrange(w, w + piece.len() as int) == piece,
    ensures
        sp_todo_dates(
            t,
            w + 12 + dec_seq(v.id as nat).len() + 16 + esc_str(v.title).len() + 20
                + crate::common_structs::spec_priority_name(v.priority).len() + 1,
            v.id,
            v.title,
            v.priority,
        ) == Some((v, w + piece.len())),
{
    reveal_strlit("\",\n    \"when_created_utc\": \"");
    reveal_strlit("\",\n    \"completed\": ");
    reveal_strlit(",\n    \"when_completed_utc\": \"");
    reveal_strlit("\"\n  }");
    reveal_strlit("when_created_utc");
    reveal_strlit("completed");
    reveal_strlit("when_completed_utc");
    reveal_strlit("true");
    reveal_strlit("false");
    reveal_strlit(",");
    reveal_strlit("}");
    let idseq = dec_seq(v.id as nat);
    let etitle = esc_str(v.title);
    let name = crate::common_structs::spec_priority_name(v.priority);
    let o1 = 12int;
    let o2 = o1 + idseq.len();
    let o3 = o2 + 16;
    let o4 = o3 + etitle.len();
    let o5 = o4 + 20;
    let o6 = o5 + name.len();
    let o7 = o6 + 28;
    let o8 = o7 + 19;
    let o9 = o8 + 20;
    let o10 = o9 + (if v.completed {
        4int
    } else {
        5int
    });
    let o11 = o10 + 29;
    let o12 = o11 + 19;
    let l6 = "\",\n    \"when_created_utc\": \""@;
    let l8 = "\",\n    \"completed\": "@;
    let l10 = ",\n    \"when_completed_utc\": \""@;
    let l12 = "\"\n  }"@;
    lemma_dt_plain(ct);
    lemma_dt_plain(dt);
    // the creation timestamp field: comma, key, quoted datetime
    lemma_piece_char(t, w, piece, o6 + 1);
    assert(piece[o6 + 1] == piece.subrange(o6, o7)[1]);
    assert(t.subrange(w + o6 + 1, w + o6 + 2) =~= ","@);
    lemma_sp_tok_at(t, w + o6 + 1, 0, ","@);
    lemma_ws_run_from_seg(t, w, piece, o6, l6, o6 + 2, o6 + 7);
    lemma_region(t, w, piece, o6 + 7, o6 + 25);
    lemma_sub(piece, o6, o7, l6, o6 + 7, o6 + 25);
    assert(l6.subrange(7, 25) =~= seq!['"'] + "when_created_utc"@ + seq!['"']);
    lemma_piece_char(t, w, piece, o6 + 25);
    assert(piece[o6 + 25] == piece.subrange(o6, o7)[25]);
    assert(t[w + o6 + 25] == ':');
    lemma_sp_key_at(t, w + o6 + 2, 5, "when_created_utc"@);
    lemma_piece_char(t, w, piece, o6 + 26);
    assert(piece[o6 + 26] == piece.subrange(o6, o7)[26]);
    assert(is_json_ws(t[w + o6 + 26]));
    lemma_piece_char(t, w, piece, o6 + 27);
    assert(piece[o6 + 27] == piece.subrange(o6, o7)[27]);
    assert(t[w + o6 + 27] == '"');
    lemma_region(t, w, piece, o7, o8);
    assert(t.subrange(w + o7, w + o8) == esc_str(ct));
    lemma_piece_char(t, w, piece, o8);
    assert(piece[o8] == piece.subrange(o8, o9)[0]);
    assert(t[w + o8] == '"');
    lemma_sp_string_at(t, w + o6 + 26, 1, ct);
    assert(sp_string(t, w + o6 + 26) == Some((ct, w + o8 + 1)));
    // the completion flag field
    lemma_piece_char(t, w, piece, o8 + 1);
    assert(piece[o8 + 1] == piece.subrange(o8, o9)[1]);
    assert(t.subrange(w + o8 + 1, w + o8 + 2) =~= ","@);
    lemma_sp_tok_at(t, w + o8 + 1, 0, ","@);
    lemma_ws_run_from_seg(t, w, piece, o8, l8, o8 + 2, o8 + 7);
    lemma_region(t, w, piece, o8 + 7, o8 + 18);
    lemma_sub(piece, o8, o9, l8, o8 + 7, o8 + 18);
    assert(l8.subrange(7, 18) =~= seq!['"'] + "completed"@ + seq!['"']);
    lemma_piece_char(t, w, piece, o8 + 18);
    assert(piece[o8 + 18] == piece.subrange(o8, o9)[18]);
    assert(t[w + o8 + 18] == ':');
    lemma_sp_key_at(t, w + o8 + 2, 5, "completed"@);
    lemma_piece_char(t, w, piece, o8 + 19);
    assert(piece[o8 + 19] == piece.subrange(o8, o9)[19]);
    assert(is_json_ws(t[w + o8 + 19]));
    lemma_region(t, w, piece, o9, o10);
    if v.completed {
        assert(t.subrange(w + o9, w + o10) == "true"@);
    } else {
        assert(t.subrange(w + o9, w + o10) == "false"@);
    }
    lemma_sp_bool_at(t, w + o8 + 19, 1, v.completed);
    assert(sp_bool(t, w + o8 + 19) == Some((v.completed, w + o10)));
    // the completion timestamp field
    lemma_piece_char(t, w, piece, o10);
    assert(piece[o10] == piece.subrange(o10, o11)[0]);
    assert(t.subrange(w + o10, w + o10 + 1) =~= ","@);
    lemma_sp_tok_at(t, w + o10, 0, ","@);
    lemma_ws_run_from_seg(t, w, piece, o10, l10, o10 + 1, o10 + 6);
    lemma_region(t, w, piece, o10 + 6, o10 + 26);
    lemma_sub(piece, o10, o11, l10, o10 + 6, o10 + 26);
    assert(l10.subrange(6, 26) =~= seq!['"'] + "when_completed_utc"@ + seq!['"']);
    lemma_piece_char(t, w, piece, o10 + 26);
    assert(piece[o10 + 26] == piece.subrange(o10, o11)[26]);
    assert(t[w + o10 + 26] == ':');
    lemma_sp_key_at(t, w + o10 + 1, 5, "when_completed_utc"@);
    lemma_piece_char(t, w, piece, o10 + 27);
    assert(piece[o10 + 27] == piece.subrange(o10, o11)[27]);
    assert(is_json_ws(t[w + o10 + 27]));
    lemma_piece_char(t, w, piece, o10 + 28);
    assert(piece[o10 + 28] == piece.subrange(o10, o11)[28]);
    assert(t[w + o10 + 28] == '"');
    lemma_region(t, w, piece, o11, o12);
    assert(t.subrange(w + o11, w + o12) == esc_str(dt));
    lemma_piece_char(t, w, piece, o12);
    assert(piece[o12] == piece.subrange(o12, o12 + 5)[0]);
    assert(t[w + o12] == '"');
    lemma_sp_string_at(t, w + o10 + 27, 1, dt);
    assert(sp_string(t, w + o10 + 27) == Some((dt, w + o12 + 1)));
    // the closing brace
    assert forall|x: int| w + o12 + 1 <= x < w + o12 + 4 implies is_json_ws(t[x]) by {
        lemma_piece_char(t, w, piece, x - w);
        assert(piece[x - w] == piece.subrange(o12, o12 + 5)[x - w - o12]);
    }
    lemma_piece_char(t, w, piece, o12 + 4);
    assert(piece[o12 + 4] == piece.subrange(o12, o12 + 5)[4]);
    assert(t[w + o12 + 4] == '}');
    assert(t.subrange(w + o12 + 4, w + o12 + 5) =~= "}"@) by {
        lemma_region(t, w, piece, o12 + 4, o12 + 5);
        assert(piece.subrange(o12 + 4, o12 + 5) =~= "}"@) by {
            assert(piece.subrange(o12 + 4, o12 + 5)[0] == piece[o12 + 4]);
            assert(piece[o12 + 4] == piece.subrange(o12, o12 + 5)[4]);
        }
    }
    lemma_sp_tok_at(t, w + o12 + 1, 3, "}"@);
    assert(sp_todo_dates(t, w + o6 + 1, v.id, v.title, v.priority) == Some((v, w + o12 + 5)));
}

/// The ws runs before quoted keys span a newline and the field indent.
proof fn lemma_ws_run_from_seg(
    t: Seq<char>,
    w: int,
    piece: Seq<char>,
    seg_a: int,
    seg: Seq<char>,
    a: int,
    b: int,
)
    requires
        0 <= w,
        w + piece.len() <= t.len(),
        t.subrange(w, w + piece.len() as int) == piece,
        0 <= seg_a <= a <= b,
        b <= seg_a + seg.len(),
        seg_a + seg.len() <= piece.len(),
        piece.subrange(seg_a, seg_a + seg.len() as int) == seg,
        forall|r: int| a - seg_a <= r < b - seg_a ==> is_json_ws(#[trigger] seg[r]),
    ensures
        forall|x: int| w + a <= x < w + b ==> is_json_ws(#[trigger] t[x]),
{
    assert forall|x: int| w + a <= x < w + b implies is_json_ws(#[trigger] t[x]) by {
        lemma_piece_char(t, w, piece, x - w);
        assert(piece[x - w] == piece.subrange(seg_a, seg_a + seg.len() as int)[x - w - seg_a]);
        assert(seg[x - w - seg_a] == piece[x - w]);
    }
}

#[verifier::rlimit(100)]
proof fn lemma_todo_walk_head(t: Seq<char>, j: int, piece: Seq<char>, v: TodoView, ct: Seq<char>, dt: Seq<char>)
    requires
        todo_seg_facts(piece, v, ct, dt),
        dt_wf(ct),
        dt_value(ct) == v.when_created_utc,
        dt_wf(dt),
        dt_value(dt) == v.when_completed_utc,
        0 <= j <= t.len(),
        sp_ws(t, j) + piece.len() <= t.len(),
        t.subrange(sp_ws(t, j), sp_ws(t, j) + piece.len() as int) == piece,
    ensures
        ({
            let w = sp_ws(t, j);
            let o2 = 12 + dec_seq(v.id as nat).len() as int;
            let o4 = o2 + 16 + esc_str(v.title).len() as int;
            &&& sp_tok(t, j, "{"@) == Some(w + 1)
            &&& sp_key(t, w + 1, "id"@) == Some(w + 11)
            &&& sp_u32(t, w + 11) == Some((v.id, w + o2))
            &&& sp_tok(t, w + o2, ","@) == Some(w + o2 + 1)
            &&& sp_key(t, w + o2 + 1, "title"@) == Some(w + o2 + 14)
            &&& sp_string(t, w + o2 + 14) == Some((v.title, w + o4 + 1))
        }),
{
    reveal_strlit("{\n    \"id\": ");
    reveal_strlit(",\n    \"title\": \"");
    reveal_strlit("\",\n    \"priority\": \"");
    reveal_strlit("\",\n    \"when_created_utc\": \"");
    reveal_strlit("id");
    reveal_strlit("title");
    reveal_strlit("priority");
    reveal_strlit("{");
    reveal_strlit(",");
    let idseq = dec_seq(v.id as nat);
    let etitle = esc_str(v.title);
    let name = crate::common_structs::spec_priority_name(v.priority);
    let o1 = 12int;
    let o2 = o1 + idseq.len();
    let o3 = o2 + 16;
    let o4 = o3 + etitle.len();
    let o5 = o4 + 20;
    let o6 = o5 + name.len();
    let l0 = "{\n    \"id\": "@;
    let l2 = ",\n    \"title\": \""@;
    let l4 = "\",\n    \"priority\": \""@;
    crate::text::lemma_dec_seq_digits(v.id as nat);
    lemma_prio_name_facts(v.priority);
    lemma_sp_ws_bounds(t, j);
    let w = sp_ws(t, j);
    // the opening brace
    lemma_piece_char(t, w, piece, 0);
    assert(piece[0] == piece.subrange(0, 12)[0]);
    assert(t[w] == '{');
    assert(sp_ws(t, j) == w);
    assert(t.subrange(w, w + 1) =~= "{"@) by {
        lemma_region(t, w, piece, 0, 1);
        assert(piece.subrange(0, 1)[0] == piece[0]);
    }
    assert(sp_tok(t, j, "{"@) == Some(w + 1));
    // the id field
    lemma_ws_run_from_seg(t, w, piece, 0, l0, 1, 6);
    lemma_region(t, w, piece, 6, 10);
    lemma_sub(piece, 0, o1, l0, 6, 10);
    assert(l0.subrange(6, 10) =~= seq!['"'] + "id"@ + seq!['"']);
    lemma_piece_char(t, w, piece, 10);
    assert(piece[10] == piece.subrange(0, o1)[10]);
    assert(t[w + 10] == ':');
    lemma_sp_key_at(t, w + 1, 5, "id"@);
    lemma_piece_char(t, w, piece, 11);
    assert(piece[11] == piece.subrange(0, o1)[11]);
    assert(is_json_ws(t[w + 11]));
    lemma_region(t, w, piece, o1, o2);
    assert(t.subrange(w + o1, w + o2) == idseq);
    lemma_piece_char(t, w, piece, o2);
    assert(piece[o2] == piece.subrange(o2, o3)[0]);
    assert(t[w + o2] == ',');
    assert(!is_digit(t[w + o2]));
    lemma_sp_u32_at(t, w + 11, 1, v.id);
    assert(sp_u32(t, w + 11) == Some((v.id, w + o2)));
    // the title field
    assert(t.subrange(w + o2, w + o2 + 1) =~= ","@) by {
        lemma_region(t, w, piece, o2, o2 + 1);
        assert(piece.subrange(o2, o2 + 1)[0] == piece[o2]);
    }
    lemma_sp_tok_at(t, w + o2, 0, ","@);
    lemma_ws_run_from_seg(t, w, piece, o2, l2, o2 + 1, o2 + 6);
    lemma_region(t, w, piece, o2 + 6, o2 + 13);
    lemma_sub(piece, o2, o3, l2, o2 + 6, o2 + 13);
    assert(l2.subrange(6, 13) =~= seq!['"'] + "title"@ + seq!['"']);
    lemma_piece_char(t, w, piece, o2 + 13);
    assert(piece[o2 + 13] == piece.subrange(o2, o3)[13]);
    assert(t[w + o2 + 13] == ':');
    lemma_sp_key_at(t, w + o2 + 1, 5, "title"@);
    lemma_piece_char(t, w, piece, o2 + 14);
    assert(piece[o2 + 14] == piece.subrange(o2, o3)[14]);
    assert(is_json_ws(t[w + o2 + 14]));
    lemma_piece_char(t, w, piece, o2 + 15);
    assert(piece[o2 + 15] == piece.subrange(o2, o3)[15]);
    assert(t[w + o2 + 15] == '"');
    lemma_region(t, w, piece, o3, o4);
    assert(t.subrange(w + o3, w + o4) == etitle);
    lemma_piece_char(t, w, piece, o4);
    assert(piece[o4] == piece.subrange(o4, o5)[0]);
    assert(t[w + o4] == '"');
    lemma_sp_string_at(t, w + o2 + 14, 1, v.title);
    assert(sp_string(t, w + o2 + 14) == Some((v.title, w + o4 + 1)));
}

#[verifier::rlimit(100)]
proof fn lemma_todo_walk_mid(t: Seq<char>, j: int, piece: Seq<char>, v: TodoView, ct: Seq<char>, dt: Seq<char>)
    requires
        todo_seg_facts(piece, v, ct, dt),
        dt_wf(ct),
        dt_value(ct) == v.when_created_utc,
        dt_wf(dt),
        dt_value(dt) == v.when_completed_utc,
        0 <= j <= t.len(),
        sp_ws(t, j) + piece.len() <= t.len(),
        t.subrange(sp_ws(t, j), sp_ws(t, j) + piece.len() as int) == piece,
    ensures
        ({
            let w = sp_ws(t, j);
            let o4 = 12 + dec_seq(v.id as nat).len() as int + 16 + esc_str(v.title).len() as int;
            let o6 = o4 + 20 + crate::common_structs::spec_priority_name(v.priority).len() as int;
            &&& sp_tok(t, w + o4 + 1, ","@) == Some(w + o4 + 2)
            &&& sp_key(t, w + o4 + 2, "priority"@) == Some(w + o4 + 18)
            &&& sp_string(t, w + o4 + 18) == Some(
                (crate::common_structs::spec_priority_name(v.priority), w + o6 + 1),
            )
            &&& prio_of_name(crate::common_structs::spec_priority_name(v.priority)) == Some(
                v.priority,
            )
        }),
{
    reveal_strlit("{\n    \"id\": ");
    reveal_strlit(",\n    \"title\": \"");
    reveal_strlit("\",\n    \"priority\": \"");
    reveal_strlit("\",\n    \"when_created_utc\": \"");
    reveal_strlit("id");
    reveal_strlit("title");
    reveal_strlit("priority");
    reveal_strlit("{");
    reveal_strlit(",");
    let idseq = dec_seq(v.id as nat);
    let etitle = esc_str(v.title);
    let name = crate::common_structs::spec_priority_name(v.priority);
    let o1 = 12int;
    let o2 = o1 + idseq.len();
    let o3 = o2 + 16;
    let o4 = o3 + etitle.len();
    let o5 = o4 + 20;
    let o6 = o5 + name.len();
    let l0 = "{\n    \"id\": "@;
    let l2 = ",\n    \"title\": \""@;
    let l4 = "\",\n    \"priority\": \""@;
    crate::text::lemma_dec_seq_digits(v.id as nat);
    lemma_prio_name_facts(v.priority);
    lemma_sp_ws_bounds(t, j);
    let w = sp_ws(t, j);
    // the priority field
    lemma_piece_char(t, w, piece, o4 + 1);
    assert(piece[o4 + 1] == piece.subrange(o4, o5)[1]);
    assert(t.subrange(w + o4 + 1, w + o4 + 2) =~= ","@) by {
        lemma_region(t, w, piece, o4 + 1, o4 + 2);
        assert(piece.subrange(o4 + 1, o4 + 2)[0] == piece[o4 + 1]);
    }
    lemma_sp_tok_at(t, w + o4 + 1, 0, ","@);
    lemma_ws_run_from_seg(t, w, piece, o4, l4, o4 + 2, o4 + 7);
    lemma_region(t, w, piece, o4 + 7, o4 + 17);
    lemma_sub(piece, o4, o5, l4, o4 + 7, o4 + 17);
    assert(l4.subrange(7, 17) =~= seq!['"'] + "priority"@ + seq!['"']);
    lemma_piece_char(t, w, piece, o4 + 17);
    assert(piece[o4 + 17] == piece.subrange(o4, o5)[17]);
    assert(t[w + o4 + 17] == ':');
    lemma_sp_key_at(t, w + o4 + 2, 5, "priority"@);
    lemma_piece_char(t, w, piece, o4 + 18);
    assert(piece[o4 + 18] == piece.subrange(o4, o5)[18]);
    assert(is_json_ws(t[w + o4 + 18]));
    lemma_piece_char(t, w, piece, o4 + 19);
    assert(piece[o4 + 19] == piece.subrange(o4, o5)[19]);
    assert(t[w + o4 + 19] == '"');
    lemma_region(t, w, piece, o5, o6);
    assert(t.subrange(w + o5, w + o6) == esc_str(name));
    lemma_piece_char(t, w, piece, o6);
    assert(piece[o6] == piece.subrange(o6, o6 + 28)[0]);
    assert(t[w + o6] == '"');
    lemma_sp_string_at(t, w + o4 + 18, 1, name);
    assert(sp_string(t, w + o4 + 18) == Some((name, w + o6 + 1)));
    assert(prio_of_name(name) == Some(v.priority));
}

#[verifier::rlimit(100)]
proof fn lemma_todo_walk(t: Seq<char>, j: int, piece: Seq<char>, v: TodoView, ct: Seq<char>, dt: Seq<char>)
    requires
        todo_seg_facts(piece, v, ct, dt),
        dt_wf(ct),
        dt_value(ct) == v.when_created_utc,
        dt_wf(dt),
        dt_value(dt) == v.when_completed_utc,
        0 <= j <= t.len(),
        sp_ws(t, j) + piece.len() <= t.len(),
        t.subrange(sp_ws(t, j), sp_ws(t, j) + piece.len() as int) == piece,
    ensures
        sp_todo(t, j) == Some((v, sp_ws(t, j) + piece.len())),
{
    let idseq = dec_seq(v.id as nat);
    let etitle = esc_str(v.title);
    let name = crate::common_structs::spec_priority_name(v.priority);
    let w = sp_ws(t, j);
    let o2 = 12 + idseq.len() as int;
    let o4 = o2 + 16 + etitle.len() as int;
    let o6 = o4 + 20 + name.len() as int;
    lemma_todo_walk_head(t, j, piece, v, ct, dt);
    lemma_todo_walk_mid(t, j, piece, v, ct, dt);
    lemma_todo_walk_tail(t, w, piece, v, ct, dt);
    assert(sp_todo_dates(t, w + o6 + 1, v.id, v.title, v.priority) == Some(
        (v, w + piece.len()),
    ));
    assert(sp_todo(t, j) == Some((v, w + piece.len())));
}

proof fn lemma_todo_piece(piece: Seq<char>, v: TodoView, ct: Seq<char>, dt: Seq<char>)
    requires
        todo_seg_facts(piece, v, ct, dt),
        dt_wf(ct),
        dt_value(ct) == v.when_created_utc,
        dt_wf(dt),
        dt_value(dt) == v.when_completed_utc,
    ensures
        todo_piece_ok(piece, v),
        piece.len() > 0,
        piece[0] == '{',
{
    reveal_strlit("{\n    \"id\": ");
    assert(piece[0] == piece.subrange(0, 12)[0]);
    assert forall|t: Seq<char>, j: int|
        ((0 <= j <= t.len() && sp_ws(t, j) + piece.len() <= t.len() && t.subrange(
            sp_ws(t, j),
            sp_ws(t, j) + piece.len() as int,
        ) == piece)) implies #[trigger] sp_todo(t, j) == Some(
        (v, sp_ws(t, j) + piece.len()),
    ) by {
        lemma_todo_walk(t, j, piece, v, ct, dt);
    }
}

/// Writes one todo as its stored object text.
fn todo_json(todo: &Todo) -> (p: String)
    requires
        todo@.when_created_utc < TS_LIMIT,
        todo@.when_completed_utc < TS_LIMIT,
    ensures
        p@.len() > 0,
        p@[0] == '{',
        todo_piece_ok(p@, todo@),
{
    let idtxt = crate::text::u32_to_string(todo.get_id());
    let ptxt = todo.get_priority().to_string();
    let ctxt = dt_format(todo.get_when_created_utc());
    let dtxt = dt_format(todo.get_when_completed_utc());
    let mut p = String::from_str("{\n    \"id\": ");
    p.append(idtxt.as_str());
    p.append(",\n    \"title\": \"");
    append_escaped(&mut p, todo.get_title());
    p.append("\",\n    \"priority\": \"");
    p.append(ptxt.as_str());
    p.append("\",\n    \"when_created_utc\": \"");
    p.append(ctxt.as_str());
    p.append("\",\n    \"completed\": ");
    if todo.get_completed() {
        p.append("true");
    } else {
        p.append("false");
    }
    p.append(",\n    \"when_completed_utc\": \"");
    p.append(dtxt.as_str());
    p.append("\"\n  }");
    proof {
        lemma_todo_segs(p@, todo@, ctxt@, dtxt@);
        lemma_todo_piece(p@, todo@, ctxt@, dtxt@);
    }
    p
}

/// The text of the record pieces as the writer lays them out after the
/// opening bracket: the first preceded by a newline and indent, the rest
/// by a comma, newline and indent.
pub open spec fn built(ps: Seq<Seq<char>>) -> Seq<char> {
    if ps.len() == 0 {
        Seq::empty()
    } else {
        "\n  "@ + ps[0] + rest_built(ps.drop_first())
    }
}

/// The text of the second and later record pieces.
pub open spec fn rest_built(ps: Seq<Seq<char>>) -> Seq<char>
    decreases ps.len(),
{
    if ps.len() == 0 {
        Seq::empty()
    } else {
        ",\n  "@ + ps[0] + rest_built(ps.drop_first())
    }
}

/// The text from just after a record piece to the end of the store: the
/// remaining pieces, then the closing bracket.
pub open spec fn chain_tail(ps: Seq<Seq<char>>) -> Seq<char>
    decreases ps.len(),
{
    if ps.len() == 0 {
        "\n]"@
    } else {
        ",\n  "@ + ps[0] + chain_tail(ps.drop_first())
    }
}

proof fn lemma_rest_built_snoc(ps: Seq<Seq<char>>, p: Seq<char>)
    ensures
        rest_built(ps.push(p)) == rest_built(ps) + ",\n  "@ + p,
    decreases ps.len(),
{
    if ps.len() == 0 {
        assert(ps.push(p)[0] == p);
        assert(ps.push(p).drop_first() =~= Seq::<Seq<char>>::empty());
        assert(rest_built(Seq::<Seq<char>>::empty()) =~= Seq::<char>::empty());
        assert(rest_built(ps.push(p)) =~= rest_built(ps) + ",\n  "@ + p);
    } else {
        assert(ps.push(p)[0] == ps[0]);
        assert(ps.push(p).drop_first() =~= ps.drop_first().push(p));
        lemma_rest_built_snoc(ps.drop_first(), p);
        assert(",\n  "@ + ps[0] + (rest_built(ps.drop_first()) + ",\n  "@ + p) =~= (",\n  "@
            + ps[0] + rest_built(ps.drop_first())) + ",\n  "@ + p);
    }
}

proof fn lemma_built_snoc(ps: Seq<Seq<char>>, p: Seq<char>)
    ensures
        ps.len() == 0 ==> built(ps.push(p)) == built(ps) + "\n  "@ + p,
        ps.len() > 0 ==> built(ps.push(p)) == built(ps) + ",\n  "@ + p,
{
    if ps.len() == 0 {
        assert(ps.push(p)[0] == p);
        assert(ps.push(p).drop_first() =~= Seq::<Seq<char>>::empty());
        assert(rest_built(Seq::<Seq<char>>::empty()) =~= Seq::<char>::empty());
        assert(built(ps.push(p)) =~= built(ps) + "\n  "@ + p);
    } else {
        assert(ps.push(p)[0] == ps[0]);
        assert(ps.push(p).drop_first() =~= ps.drop_first().push(p));
        lemma_rest_built_snoc(ps.drop_first(), p);
        assert("\n  "@ + ps[0] + (rest_built(ps.drop_first()) + ",\n  "@ + p) =~= ("\n  "@
            + ps[0] + rest_built(ps.drop_first())) + ",\n  "@ + p);
    }
}

proof fn lemma_rest_built_chain(ps: Seq<Seq<char>>)
    ensures
        rest_built(ps) + "\n]"@ == chain_tail(ps),
    decreases ps.len(),
{
    if ps.len() == 0 {
        assert(rest_built(ps) + "\n]"@ =~= chain_tail(ps));
    } else {
        lemma_rest_built_chain(ps.drop_first());
        assert((",\n  "@ + ps[0] + rest_built(ps.drop_first())) + "\n]"@ =~= ",\n  "@ + ps[0] + (
        rest_built(ps.drop_first()) + "\n]"@));
    }
}

#[verifier::rlimit(100)]
proof fn lemma_store_chain(
    t: Seq<char>,
    i: int,
    ps: Seq<Seq<char>>,
    vsq: Seq<TodoView>,
    acc: Seq<TodoView>,
)
    requires
        ps.len() == vsq.len(),
        ps.len() >= 1,
        forall|k: int|
            0 <= k < ps.len() ==> todo_piece_ok(#[trigger] ps[k], vsq[k]) && ps[k].len() > 0
                && ps[k][0] == '{',
        0 <= i <= t.len(),
        t.subrange(i, t.len() as int) == "\n  "@ + ps[0] + chain_tail(ps.drop_first()),
    ensures
        sp_todos(t, i, acc) == Some((acc + vsq, t.len() as int)),
    decreases ps.len(),
{
    reveal_strlit("\n  ");
    reveal_strlit(",\n  ");
    reveal_strlit("\n]");
    reveal_strlit(",");
    reveal_strlit("]");
    let L = t.len() as int;
    let tail = chain_tail(ps.drop_first());
    let lay = "\n  "@ + ps[0] + tail;
    assert(L - i == lay.len());
    assert(tail.len() >= 2);
    let w = i + 3;
    let j = w + ps[0].len();
    lemma_piece_char(t, i, lay, 0);
    lemma_piece_char(t, i, lay, 1);
    lemma_piece_char(t, i, lay, 2);
    lemma_piece_char(t, i, lay, 3);
    assert(lay[0] == '\n' && lay[1] == ' ' && lay[2] == ' ');
    assert(lay[3] == ps[0][0]);
    assert(t[w] == '{');
    assert(!is_json_ws('{'));
    lemma_sp_ws_run(t, i, w);
    lemma_region(t, i, lay, 3, 3 + ps[0].len() as int);
    assert(lay.subrange(3, 3 + ps[0].len() as int) =~= ps[0]);
    assert(t.subrange(w, j) == ps[0]);
    assert(sp_ws(t, i) + ps[0].len() <= t.len());
    assert(sp_todo(t, i) == Some((vsq[0], j)));
    assert(forall|x: int| 0 <= x < tail.len() ==> lay[3 + ps[0].len() + x] == #[trigger] tail[x]);
    if ps.len() == 1 {
        assert(tail =~= "\n]"@);
        lemma_piece_char(t, i, lay, j - i);
        lemma_piece_char(t, i, lay, j - i + 1);
        assert(t[j] == '\n');
        assert(t[j + 1] == ']');
        assert(j + 2 == L);
        lemma_sp_ws_run(t, j, j + 1);
        assert(sp_tok(t, j, ","@) is None) by {
            if sp_tok(t, j, ","@) is Some {
                assert(t.subrange(j + 1, j + 2) == ","@);
                assert(t.subrange(j + 1, j + 2)[0] == t[j + 1]);
            }
        }
        assert(t.subrange(j + 1, j + 2) =~= "]"@) by {
            lemma_region(t, i, lay, j - i + 1, j - i + 2);
            assert(lay.subrange(j - i + 1, j - i + 2)[0] == lay[j - i + 1]);
        }
        lemma_sp_tok_at(t, j, 1, "]"@);
        assert(sp_todos(t, i, acc) == Some((acc.push(vsq[0]), L)));
        assert(acc.push(vsq[0]) =~= acc + vsq);
    } else {
        assert(tail[0] == ',');
        lemma_piece_char(t, i, lay, j - i);
        assert(t[j] == ',');
        assert(t.subrange(j, j + 1) =~= ","@) by {
            lemma_region(t, i, lay, j - i, j - i + 1);
            assert(lay.subrange(j - i, j - i + 1)[0] == lay[j - i]);
        }
        lemma_sp_tok_at(t, j, 0, ","@);
        let rest = ps.drop_first();
        let vrest = vsq.drop_first();
        assert(forall|k: int| 0 <= k < rest.len() ==> #[trigger] rest[k] == ps[k + 1]);
        assert(forall|k: int| 0 <= k < vrest.len() ==> #[trigger] vrest[k] == vsq[k + 1]);
        assert(forall|k: int|
            0 <= k < rest.len() ==> todo_piece_ok(#[trigger] rest[k], vrest[k]) && rest[k].len()
                > 0 && rest[k][0] == '{');
        assert(t.subrange(j + 1, L) =~= "\n  "@ + rest[0] + chain_tail(rest.drop_first())) by {
            assert(tail =~= ",\n  "@ + rest[0] + chain_tail(rest.drop_first()));
            assert forall|x: int| 0 <= x < L - (j + 1) implies t.subrange(j + 1, L)[x] == (
            "\n  "@ + rest[0] + chain_tail(rest.drop_first()))[x] by {
                lemma_piece_char(t, i, lay, j + 1 + x - i);
                assert(lay[j + 1 + x - i] == tail[1 + x]);
            }
        }
        lemma_store_chain(t, j + 1, rest, vrest, acc.push(vsq[0]));
        assert(acc.push(vsq[0]) + vrest =~= acc + vsq);
        assert(sp_todos(t, i, acc) == sp_todos(t, j + 1, acc.push(vsq[0])));
    }
}

proof fn lemma_close_layout(t: Seq<char>, ps: Seq<Seq<char>>)
    requires
        ps.len() >= 1,
        ps[0].len() > 0,
        t == ("["@ + built(ps)) + "\n]"@,
    ensures
        t.subrange(1, t.len() as int) == "\n  "@ + ps[0] + chain_tail(ps.drop_first()),
        t.len() >= 5,
        t[0] == '[',
        t[1] == '\n',
        t[2] == ' ',
        t[3] == ' ',
        t[4] == ps[0][0],
{
    reveal_strlit("[");
    reveal_strlit("\n]");
    reveal_strlit("\n  ");
    lemma_rest_built_chain(ps.drop_first());
    assert(built(ps) == "\n  "@ + ps[0] + rest_built(ps.drop_first()));
    assert(t.subrange(1, t.len() as int) =~= built(ps) + "\n]"@);
    assert(("\n  "@ + ps[0] + rest_built(ps.drop_first())) + "\n]"@ =~= "\n  "@ + ps[0] + (
    rest_built(ps.drop_first()) + "\n]"@));
}

#[verifier::rlimit(100)]
proof fn lemma_format_close(t: Seq<char>, ps: Seq<Seq<char>>, vsq: Seq<TodoView>)
    requires
        ps.len() == vsq.len(),
        ps.len() >= 1,
        forall|k: int|
            0 <= k < ps.len() ==> todo_piece_ok(#[trigger] ps[k], vsq[k]) && ps[k].len() > 0
                && ps[k][0] == '{',
    ensures
        t == ("["@ + built(ps)) + "\n]"@ ==> sp_store(t) == Some(vsq),
{
    if t == ("["@ + built(ps)) + "\n]"@ {
        reveal_strlit("[");
        reveal_strlit("]");
        let L = t.len() as int;
        lemma_close_layout(t, ps);
        lemma_store_chain(t, 1, ps, vsq, Seq::empty());
        assert(Seq::<TodoView>::empty() + vsq =~= vsq);
        assert(sp_ws(t, 0) == 0);
        assert(t.subrange(0, 1) =~= "["@);
        assert(sp_tok(t, 0, "["@) == Some(1int));
        lemma_sp_ws_run(t, 1, 4);
        assert(sp_tok(t, 1, "]"@) is None) by {
            if sp_tok(t, 1, "]"@) is Some {
                assert(t.subrange(4, 5) == "]"@);
                assert(t.subrange(4, 5)[0] == t[4]);
            }
        }
        assert(sp_ws(t, L) == L);
        match sp_todos(t, 1, Seq::<TodoView>::empty()) {
            Some(r) => {
                assert(r == (vsq, L));
            },
            None => {
                assert(false);
            },
        }
    }
}

/// Writes a whole collection as the store's pretty-printed text./// Writes a whole collection as the store's pretty-printed text.
pub fn format_store(todos: &Vec<Todo>) -> (r: String)
    requires
        times_ok(views(todos@)),
    ensures
        sp_store(r@) == Some(views(todos@)),
        r@.len() > 0,
{
    proof {
        reveal_strlit("[]");
        reveal_strlit("[");
        reveal_strlit("]");
    }
    if todos.len() == 0 {
        let r = String::from_str("[]");
        proof {
            let t = r@;
            assert(t.len() == 2 && t[0] == '[' && t[1] == ']');
            assert(sp_ws(t, 0) == 0);
            assert(t.subrange(0, 1) =~= "["@);
            assert(sp_tok(t, 0, "["@) == Some(1int));
            assert(sp_ws(t, 1) == 1);
            assert(t.subrange(1, 2) =~= "]"@);
            assert(sp_tok(t, 1, "]"@) == Some(2int));
            assert(sp_ws(t, 2) == 2);
            assert(views(todos@) =~= Seq::<TodoView>::empty());
        }
        return r;
    }
    let mut out = String::from_str("[");
    let ghost mut pieces: Seq<Seq<char>> = Seq::empty();
    let n = todos.len();
    let mut i: usize = 0;
    proof {
        assert(out@ =~= "["@ + built(pieces));
    }
    loop
        invariant
            0 <= i <= n,
            n == todos@.len(),
            times_ok(views(todos@)),
            pieces.len() == i,
            forall|k: int|
                0 <= k < i ==> todo_piece_ok(#[trigger] pieces[k], views(todos@)[k])
                    && pieces[k].len() > 0 && pieces[k][0] == '{',
            out@ == "["@ + built(pieces),
        ensures
            i == n,
            pieces.len() == n,
            forall|k: int|
                0 <= k < n ==> todo_piece_ok(#[trigger] pieces[k], views(todos@)[k])
                    && pieces[k].len() > 0 && pieces[k][0] == '{',
            out@ == "["@ + built(pieces),
        decreases n - i,
    {
        if i >= n {
            break;
        }
        proof {
            assert(views(todos@)[i as int] == todos@[i as int]@);
        }
        let ghost pre = out@;
        if i > 0 {
            out.append(",\n  ");
        } else {
            out.append("\n  ");
        }
        let pj = todo_json(&todos[i]);
        proof {
            lemma_built_snoc(pieces, pj@);
            reveal_strlit(",\n  ");
            reveal_strlit("\n  ");
        }
        out.append(pj.as_str());
        proof {
            if i > 0 {
                assert((pre + ",\n  "@) + pj@ =~= "["@ + (built(pieces) + ",\n  "@ + pj@));
            } else {
                assert((pre + "\n  "@) + pj@ =~= "["@ + (built(pieces) + "\n  "@ + pj@));
            }
            pieces = pieces.push(pj@);
        }
        i += 1;
    }
    out.append("\n]");
    proof {
        assert(out@ == ("["@ + built(pieces)) + "\n]"@);
        lemma_format_close(out@, pieces, views(todos@));
    }
    out
}

/// Reads a whole stored collection: a bracketed, comma-separated array of
/// records, with nothing but whitespace after it.
pub open spec fn sp_store(t: Seq<char>) -> Option<Seq<TodoView>> {
    match sp_tok(t, 0, "["@) {
        None => None,
        Some(a) => match sp_tok(t, a, "]"@) {
            Some(b) => if sp_ws(t, b) == t.len() {
                Some(Seq::empty())
            } else {
                None
            },
            None => match sp_todos(t, a, Seq::empty()) {
                Some((vs, e)) => if sp_ws(t, e) == t.len() {
                    Some(vs)
                } else {
                    None
                },
                None => None,
            },
        },
    }
}

} // verus!
